//! Observations: what each screenshot binds to, which ones still authorize
//! input, and the opaque Display Configuration revision.
use vstd::prelude::*;
use crate::text::{dec_text, hex_text, push_decimal, push_hex, str_eq, debug_text, debug_quoted};
use crate::backend::BackendError;
use crate::monitor::{Monitor, is_enabled, is_first_named, monitor_named, selectable};
use crate::fingerprint::{fingerprint, fingerprint_of};
use crate::png::{png_dimensions, png_size};
use crate::events::{WatchEvent, bumps_generation, generation_after};

verus! {

/// Parameters of `computer_observe`.
#[derive(Debug)]
pub struct ObserveParams {
    /// Monitor identifier from `computer_monitors` (the Hyprland output name).
    pub monitor: String,
}

/// What an observation binds to.
#[derive(Debug)]
pub struct Observation {
    pub monitor: String,
    pub image_width: u32,
    pub image_height: u32,
    pub generation: u64,
    pub fingerprint: u64,
}

/// Entries with pairwise distinct ids.
pub open spec fn ids_unique(s: Seq<(String, Observation)>) -> bool {
    forall|i: int, j: int| 0 <= i < j < s.len() ==> s[i].0@ != s[j].0@
}

/// The map from id to observation that a list of entries stands for.
pub open spec fn entries_map(s: Seq<(String, Observation)>) -> Map<Seq<char>, Observation>
    decreases s.len(),
{
    if s.len() == 0 {
        Map::empty()
    } else {
        entries_map(s.drop_last()).insert(s.last().0@, s.last().1)
    }
}

/// Whether observation `id` still authorizes input at `generation`.
pub open spec fn observation_status(m: Map<Seq<char>, Observation>, id: Seq<char>, generation: u64) -> Result<(), &'static str> {
    if !m.dom().contains(id) {
        Err("unknown or expired observation")
    } else if m[id].generation != generation {
        Err("stale observation: display configuration changed")
    } else {
        Ok(())
    }
}

/// The store after a capture of `obs.monitor` is recorded under `id`.
pub open spec fn after_record(m: Map<Seq<char>, Observation>, id: Seq<char>, obs: Observation) -> Map<Seq<char>, Observation> {
    without_monitor(m, obs.monitor@).insert(id, obs)
}

/// Issued observations by id.
pub struct ObservationStore {
    entries: Vec<(String, Observation)>,
}

pub open spec fn keeps_entry(monitor: Seq<char>) -> spec_fn((String, Observation)) -> bool {
    |e: (String, Observation)| e.1.monitor@ != monitor
}

pub open spec fn other_id(id: Seq<char>) -> spec_fn((String, Observation)) -> bool {
    |e: (String, Observation)| e.0@ != id
}

/// The observations that do not belong to `monitor`.
pub open spec fn without_monitor(m: Map<Seq<char>, Observation>, monitor: Seq<char>) -> Map<
    Seq<char>,
    Observation,
> {
    Map::new(|k: Seq<char>| m.dom().contains(k) && m[k].monitor@ != monitor, |k: Seq<char>| m[k])
}

proof fn lemma_entries_map_keys(s: Seq<(String, Observation)>)
    ensures
        forall|k: Seq<char>|
            #[trigger] entries_map(s).dom().contains(k) <==> exists|i: int|
                0 <= i < s.len() && s[i].0@ == k,
    decreases s.len(),
{
    if s.len() > 0 {
        let rest = s.drop_last();
        lemma_entries_map_keys(rest);
        assert(entries_map(s) == entries_map(rest).insert(s.last().0@, s.last().1));
        assert forall|k: Seq<char>|
            #[trigger] entries_map(s).dom().contains(k) <==> exists|i: int|
                0 <= i < s.len() && s[i].0@ == k by {
            if entries_map(s).dom().contains(k) {
                if k == s.last().0@ {
                    assert(s[s.len() - 1].0@ == k);
                } else {
                    assert(entries_map(rest).dom().contains(k));
                    let i = choose|i: int| 0 <= i < rest.len() && rest[i].0@ == k;
                    assert(s[i].0@ == k);
                }
            }
            if exists|i: int| 0 <= i < s.len() && s[i].0@ == k {
                let i = choose|i: int| 0 <= i < s.len() && s[i].0@ == k;
                if i < s.len() - 1 {
                    assert(rest[i].0@ == k);
                    assert(entries_map(rest).dom().contains(k));
                }
            }
        }
    }
}

/// Filtering unique entries restricts the map to the kept entries.
proof fn lemma_entries_map_filter(s: Seq<(String, Observation)>, p: spec_fn((String, Observation)) -> bool)
    requires
        ids_unique(s),
    ensures
        ids_unique(s.filter(p)),
        entries_map(s.filter(p)) == Map::new(
            |k: Seq<char>| entries_map(s).dom().contains(k) && exists|i: int|
                0 <= i < s.len() && s[i].0@ == k && p(s[i]),
            |k: Seq<char>| entries_map(s)[k],
        ),
    decreases s.len(),
{
    broadcast use vstd::seq_lib::group_seq_properties;

    let target = Map::new(
        |k: Seq<char>| entries_map(s).dom().contains(k) && exists|i: int|
            0 <= i < s.len() && s[i].0@ == k && p(s[i]),
        |k: Seq<char>| entries_map(s)[k],
    );
    if s.len() == 0 {
        reveal(Seq::filter);
        assert(entries_map(s.filter(p)) =~= target);
    } else {
        let rest = s.drop_last();
        let e = s.last();
        assert(ids_unique(rest));
        lemma_entries_map_filter(rest, p);
        lemma_entries_map_keys(rest);
        lemma_entries_map_keys(s);
        assert(s =~= rest.push(e));
        rest.lemma_filter_push(e, p);
        assert(!entries_map(rest).dom().contains(e.0@)) by {
            if entries_map(rest).dom().contains(e.0@) {
                let i = choose|i: int| 0 <= i < rest.len() && rest[i].0@ == e.0@;
                assert(s[i].0@ == s[s.len() - 1].0@);
            }
        }
        let fr = rest.filter(p);
        if p(e) {
            assert(s.filter(p) == fr.push(e));
            lemma_entries_map_keys(fr);
            assert forall|i: int, j: int| 0 <= i < j < fr.push(e).len() implies fr.push(e)[i].0@
                != fr.push(e)[j].0@ by {
                if j == fr.len() {
                    assert(fr.contains(fr[i]));
                    rest.lemma_filter_contains_rev(p, fr[i]);
                    let k = choose|k: int| 0 <= k < rest.len() && rest[k] == fr[i];
                    assert(s[k].0@ != s[s.len() - 1].0@);
                }
            }
            assert(s.filter(p).drop_last() =~= fr);
        } else {
            assert(s.filter(p) == fr);
        }
        assert forall|k: Seq<char>| #[trigger] entries_map(s.filter(p)).dom().contains(k) <==> target.dom().contains(k) by {
            if k == e.0@ {
            } else {
                if exists|i: int| 0 <= i < s.len() && s[i].0@ == k && p(s[i]) {
                    let i = choose|i: int| 0 <= i < s.len() && s[i].0@ == k && p(s[i]);
                    assert(i < rest.len());
                    assert(rest[i].0@ == k && p(rest[i]));
                }
                if exists|i: int| 0 <= i < rest.len() && rest[i].0@ == k && p(rest[i]) {
                    let i = choose|i: int| 0 <= i < rest.len() && rest[i].0@ == k && p(rest[i]);
                    assert(s[i].0@ == k && p(s[i]));
                }
            }
        }
        assert(entries_map(s.filter(p)) =~= target);
    }
}

impl ObservationStore {
    #[verifier::type_invariant]
    spec fn inv(self) -> bool {
        ids_unique(self.entries@)
    }

    pub closed spec fn view(&self) -> Map<Seq<char>, Observation> {
        entries_map(self.entries@)
    }

    /// No observations (a new process has an empty store).
    pub fn new() -> (s: Self)
        ensures
            s.view() == Map::<Seq<char>, Observation>::empty(),
    {
        ObservationStore { entries: Vec::new() }
    }

    /// Stores `obs` under `id`, replacing what `id` held.
    pub fn insert(&mut self, id: String, obs: Observation)
        ensures
            final(self).view() == old(self).view().insert(id@, obs),
    {
        proof {
            use_type_invariant(&*self);
        }
        let ghost idv = id@;
        let ghost s = self.entries@;
        let mut kept: Vec<(String, Observation)> = Vec::new();
        let mut old_entries: Vec<(String, Observation)> = Vec::new();
        std::mem::swap(&mut old_entries, &mut self.entries);
        let mut i: usize = 0;
        let n = old_entries.len();
        while old_entries.len() > 0
            invariant
                0 <= i <= s.len(),
                n == s.len(),
                old_entries@ == s.skip(i as int),
                i + old_entries@.len() == s.len(),
                kept@ == s.take(i as int).filter(other_id(idv)),
                idv == id@,
            decreases old_entries@.len(),
        {
            let e = old_entries.remove(0);
            proof {
                assert(e == s[i as int]);
                assert(s.take(i + 1) =~= s.take(i as int).push(e));
                s.take(i as int).lemma_filter_push(e, other_id(idv));
            }
            let same = str_eq(e.0.as_str(), id.as_str());
            assert(other_id(idv)(e) == !same);
            if !same {
                kept.push(e);
            }
            i = i + 1;
            assert(old_entries@ =~= s.skip(i as int));
        }
        assert(s.take(i as int) =~= s);
        proof {
            lemma_entries_map_filter(s, other_id(idv));
            lemma_entries_map_keys(s);
            lemma_entries_map_keys(kept@);
        }
        let ghost fk = kept@;
        kept.push((id, obs));
        proof {
            assert(kept@.drop_last() =~= fk);
            assert forall|a: int, b: int| 0 <= a < b < kept@.len() implies kept@[a].0@ != kept@[b].0@ by {
                if b == fk.len() {
                    assert(fk.contains(fk[a]));
                    s.lemma_filter_contains_rev(other_id(idv), fk[a]);
                }
            }
            assert(entries_map(kept@) =~= entries_map(s).insert(idv, obs));
        }
        self.entries = kept;
    }

    /// Drops every observation of `monitor`: a newer capture supersedes
    /// earlier observation IDs for the same output.
    pub fn supersede(&mut self, monitor: &str)
        ensures
            final(self).view() == without_monitor(old(self).view(), monitor@),
    {
        proof {
            use_type_invariant(&*self);
        }
        let ghost s = self.entries@;
        let mut kept: Vec<(String, Observation)> = Vec::new();
        let mut old_entries: Vec<(String, Observation)> = Vec::new();
        std::mem::swap(&mut old_entries, &mut self.entries);
        let mut i: usize = 0;
        let n = old_entries.len();
        while old_entries.len() > 0
            invariant
                0 <= i <= s.len(),
                n == s.len(),
                old_entries@ == s.skip(i as int),
                i + old_entries@.len() == s.len(),
                kept@ == s.take(i as int).filter(keeps_entry(monitor@)),
            decreases old_entries@.len(),
        {
            let e = old_entries.remove(0);
            proof {
                assert(e == s[i as int]);
                assert(s.take(i + 1) =~= s.take(i as int).push(e));
                s.take(i as int).lemma_filter_push(e, keeps_entry(monitor@));
            }
            if !str_eq(e.1.monitor.as_str(), monitor) {
                kept.push(e);
            }
            i = i + 1;
            assert(old_entries@ =~= s.skip(i as int));
        }
        assert(s.take(i as int) =~= s);
        proof {
            lemma_entries_map_filter(s, keeps_entry(monitor@));
            lemma_entries_map_value(s);
            lemma_entries_map_keys(s);
            let m = entries_map(s);
            assert forall|k: Seq<char>| m.dom().contains(k) implies (m[k].monitor@ != monitor@
                <==> exists|i: int| 0 <= i < s.len() && s[i].0@ == k && keeps_entry(monitor@)(s[i])) by {
                let i = choose|i: int| 0 <= i < s.len() && s[i].0@ == k;
                assert(m[s[i].0@] == s[i].1);
                if exists|j: int| 0 <= j < s.len() && s[j].0@ == k && keeps_entry(monitor@)(s[j]) {
                    let j = choose|j: int| 0 <= j < s.len() && s[j].0@ == k && keeps_entry(monitor@)(s[j]);
                    assert(m[s[j].0@] == s[j].1);
                }
            }
            assert(entries_map(kept@) =~= without_monitor(entries_map(s), monitor@));
        }
        self.entries = kept;
    }

    /// An observation authorizes later input only while its generation is
    /// still current.  Session epoch is implicit: observations from a
    /// previous process are simply absent.
    pub fn observation_current(&self, id: &str, generation: u64) -> (r: Result<(), &'static str>)
        ensures
            r == observation_status(self.view(), id@, generation),
    {
        let mut i: usize = 0;
        while i < self.entries.len()
            invariant
                0 <= i <= self.entries@.len(),
                forall|j: int| 0 <= j < i ==> self.entries@[j].0@ != id@,
            decreases self.entries@.len() - i,
        {
            if str_eq(self.entries[i].0.as_str(), id) {
                proof {
                    use_type_invariant(self);
                    lemma_entries_map_value(self.entries@);
                    assert(self.view()[self.entries@[i as int].0@] == self.entries@[i as int].1);
                    lemma_entries_map_keys(self.entries@);
                    assert(self.view().dom().contains(id@));
                }
                if self.entries[i].1.generation != generation {
                    return Err("stale observation: display configuration changed");
                }
                return Ok(());
            }
            i = i + 1;
        }
        proof {
            lemma_entries_map_keys(self.entries@);
        }
        assert(!self.view().dom().contains(id@));
        Err("unknown or expired observation")
    }
}

/// A recorded observation authorizes input while the generation it was
/// taken at is current.
pub proof fn lemma_recorded_is_current(m: Map<Seq<char>, Observation>, id: Seq<char>, obs: Observation)
    ensures
        observation_status(after_record(m, id, obs), id, obs.generation) == Ok::<(), &'static str>(()),
{
}

/// Any generation bump invalidates an observation: once the generation has
/// moved past the one it was taken at, it is rejected as stale.
pub proof fn lemma_generation_bump_invalidates(m: Map<Seq<char>, Observation>, id: Seq<char>, g: u64, later: u64)
    requires
        observation_status(m, id, g) == Ok::<(), &'static str>(()),
        later != g,
    ensures
        observation_status(m, id, later) == Err::<(), &'static str>(
            "stale observation: display configuration changed",
        ),
{
}

/// What the display watchers do to issued observations: a display event or a
/// lost notification channel makes every observation taken before it stale,
/// and any other event leaves it current.
pub proof fn lemma_watch_event_and_observation(m: Map<Seq<char>, Observation>, id: Seq<char>, g: u64, ev: WatchEvent)
    requires
        observation_status(m, id, g) == Ok::<(), &'static str>(()),
    ensures
        bumps_generation(ev) ==> observation_status(m, id, generation_after(g, ev)) == Err::<
            (),
            &'static str,
        >("stale observation: display configuration changed"),
        !bumps_generation(ev) ==> observation_status(m, id, generation_after(g, ev)) == Ok::<
            (),
            &'static str,
        >(()),
{
}

/// A newer observation of the same monitor supersedes older observation
/// IDs: they are rejected as unknown at every generation.
pub proof fn lemma_newer_observation_supersedes(
    m: Map<Seq<char>, Observation>,
    old_id: Seq<char>,
    new_id: Seq<char>,
    obs: Observation,
    g: u64,
)
    requires
        m.dom().contains(old_id),
        m[old_id].monitor@ == obs.monitor@,
        old_id != new_id,
    ensures
        observation_status(after_record(m, new_id, obs), old_id, g) == Err::<(), &'static str>(
            "unknown or expired observation",
        ),
{
}

/// Observations of other monitors are untouched by a new capture.
pub proof fn lemma_other_monitors_unaffected(
    m: Map<Seq<char>, Observation>,
    other: Seq<char>,
    new_id: Seq<char>,
    obs: Observation,
    g: u64,
)
    requires
        m.dom().contains(other),
        m[other].monitor@ != obs.monitor@,
        other != new_id,
    ensures
        observation_status(after_record(m, new_id, obs), other, g) == observation_status(m, other, g),
{
}

/// In entries with unique ids, each entry's id maps to its observation.
proof fn lemma_entries_map_value(s: Seq<(String, Observation)>)
    requires
        ids_unique(s),
    ensures
        forall|i: int| 0 <= i < s.len() ==> #[trigger] entries_map(s)[s[i].0@] == s[i].1,
    decreases s.len(),
{
    if s.len() > 0 {
        assert(ids_unique(s.drop_last()));
        lemma_entries_map_value(s.drop_last());
        assert(entries_map(s) == entries_map(s.drop_last()).insert(s.last().0@, s.last().1));
        assert forall|i: int| 0 <= i < s.len() implies #[trigger] entries_map(s)[s[i].0@] == s[i].1 by {
            if i < s.len() - 1 {
                assert(s.drop_last()[i] == s[i]);
                assert(s[i].0@ != s[s.len() - 1].0@);
                assert(entries_map(s.drop_last())[s.drop_last()[i].0@] == s[i].1);
            }
        }
    }
}

} // verus!

verus! {

/// A lowercase hexadecimal digit.
pub open spec fn is_lower_hex_digit(c: char) -> bool {
    let u = c as u32;
    (0x30 <= u <= 0x39) || (0x61 <= u <= 0x66)
}

/// The hyphenated lowercase text of a version-4 UUID with the RFC variant:
/// 8-4-4-4-12 hex digits, version digit `4`, variant digit one of `89ab`.
pub open spec fn is_v4_uuid_text(s: Seq<char>) -> bool {
    &&& s.len() == 36
    &&& forall|i: int|
        0 <= i < 36 ==> if i == 8 || i == 13 || i == 18 || i == 23 {
            s[i] == '-'
        } else {
            is_lower_hex_digit(#[trigger] s[i])
        }
    &&& s[14] == '4'
    &&& (s[19] == '8' || s[19] == '9' || s[19] == 'a' || s[19] == 'b')
}

/// Calls `uuid::Uuid::new_v4` and renders it with `to_string`.  The value is
/// random; what holds of every outcome is its shape: `new_v4` fixes the
/// version and variant bits, and `to_string` writes the hyphenated lowercase
/// form.  (`new_v4` panics only when the system gives no random bytes.)
#[verifier::external_body]
fn random_uuid_text() -> (r: String)
    ensures
        is_v4_uuid_text(r@),
{
    uuid::Uuid::new_v4().to_string()
}

/// Opaque Display Configuration revision text: session epoch, generation in
/// decimal, fingerprint as 16 lowercase hex digits, joined by `-`.
pub open spec fn revision_text(epoch: Seq<char>, generation: u64, fingerprint: u64) -> Seq<char> {
    epoch + "-"@ + dec_text(generation as nat) + "-"@ + hex_text(fingerprint as nat, 16)
}

/// The server's bookkeeping: the session epoch (fresh per process) and the
/// observations it has issued.
pub struct ServerState {
    epoch: String,
    observations: ObservationStore,
}

impl ServerState {
    pub closed spec fn epoch_text(&self) -> Seq<char> {
        self.epoch@
    }

    pub closed spec fn issued(&self) -> Map<Seq<char>, Observation> {
        self.observations.view()
    }

    /// A new session: a random epoch and no observations.
    pub fn new() -> (s: Self)
        ensures
            s.issued() == Map::<Seq<char>, Observation>::empty(),
            is_v4_uuid_text(s.epoch_text()),
    {
        ServerState { epoch: random_uuid_text(), observations: ObservationStore::new() }
    }

    /// Opaque Display Configuration revision: session epoch + event-driven
    /// generation + snapshot fingerprint. A change-and-restore still bumps the
    /// generation, and a server restart changes the epoch.
    pub fn revision(&self, generation: u64, fingerprint: u64) -> (r: String)
        ensures
            r@ == revision_text(self.epoch_text(), generation, fingerprint),
    {
        let mut r = self.epoch.clone();
        r.append("-");
        push_decimal(&mut r, generation);
        r.append("-");
        push_hex(&mut r, fingerprint, 16);
        r
    }

    /// Used by `computer_action`: an observation authorizes later input
    /// only while its generation is still current.
    pub fn observation_current(&self, id: &str, generation: u64) -> (r: Result<(), &'static str>)
        ensures
            r == observation_status(self.issued(), id@, generation),
    {
        self.observations.observation_current(id, generation)
    }

    /// Stores `obs` under `id` as it stands (replacing what `id` held).
    pub fn insert_observation(&mut self, id: String, obs: Observation)
        ensures
            final(self).issued() == old(self).issued().insert(id@, obs),
            final(self).epoch_text() == old(self).epoch_text(),
    {
        self.observations.insert(id, obs);
    }

    /// Records a capture under `id`, keeping only the latest observation per
    /// monitor.
    pub fn record_observation_as(&mut self, id: String, obs: Observation)
        ensures
            final(self).issued() == after_record(old(self).issued(), id@, obs),
            final(self).epoch_text() == old(self).epoch_text(),
    {
        self.observations.supersede(obs.monitor.as_str());
        self.observations.insert(id, obs);
    }

    /// Records a capture under a fresh random id and returns the id.
    pub fn record_observation(&mut self, obs: Observation) -> (id: String)
        ensures
            is_v4_uuid_text(id@),
            final(self).issued() == after_record(old(self).issued(), id@, obs),
            final(self).epoch_text() == old(self).epoch_text(),
    {
        let id = random_uuid_text();
        self.record_observation_as(id.clone(), obs);
        id
    }
}

/// An observation is actionable only while both notification channels are
/// connected: the Hyprland IPC socket and the wl_output listener (which
/// covers reconfigures the IPC socket never reports).
pub fn actionable(events_healthy: bool, wayland_healthy: bool) -> (r: bool)
    ensures
        r == (events_healthy && wayland_healthy),
{
    events_healthy && wayland_healthy
}

/// How many times `computer_observe` captures before giving up when the
/// display configuration keeps changing under it.
pub const OBSERVE_ATTEMPTS: u32 = 2;

/// A capture counts only when neither the generation nor the fingerprint
/// moved between the configuration checks bracketing it.
pub fn capture_consistent(gen_pre: u64, fp_pre: u64, gen_post: u64, fp_post: u64) -> (r: bool)
    ensures
        r == (gen_pre == gen_post && fp_pre == fp_post),
{
    gen_pre == gen_post && fp_pre == fp_post
}

} // verus!

verus! {

/// The revision tracks the fingerprint: with the same epoch and
/// generation, different fingerprints give different revision texts (all 64
/// bits of the fingerprint are written).
pub proof fn lemma_revision_tracks_fingerprint(epoch: Seq<char>, generation: u64, f1: u64, f2: u64)
    requires
        f1 != f2,
    ensures
        revision_text(epoch, generation, f1) != revision_text(epoch, generation, f2),
{
    reveal_strlit("-");
    let head = epoch + "-"@ + dec_text(generation as nat) + "-"@;
    let a = hex_text(f1 as nat, 16);
    let b = hex_text(f2 as nat, 16);
    assert(revision_text(epoch, generation, f1) =~= head + a);
    assert(revision_text(epoch, generation, f2) =~= head + b);
    if revision_text(epoch, generation, f1) == revision_text(epoch, generation, f2) {
        crate::text::lemma_hex_text_len(f1 as nat, 16);
        crate::text::lemma_hex_text_len(f2 as nat, 16);
        assert((head + a).skip(head.len() as int) =~= a);
        assert((head + b).skip(head.len() as int) =~= b);
        reveal_with_fuel(crate::text::pow16, 17);
        assert(crate::text::pow16(16) == 0x1_0000_0000_0000_0000);
        crate::text::lemma_hex_text_injective(f1 as nat, f2 as nat, 16);
    }
}

/// A generation bump always changes the revision: with the same epoch and
/// fingerprint, different generations give different revision texts — so a
/// change-and-restore of the display configuration is visible even though
/// the fingerprint returns to its previous value.
pub proof fn lemma_revision_tracks_generation(epoch: Seq<char>, g1: u64, g2: u64, fingerprint: u64)
    requires
        g1 != g2,
    ensures
        revision_text(epoch, g1, fingerprint) != revision_text(epoch, g2, fingerprint),
{
    reveal_strlit("-");
    let tail = "-"@ + hex_text(fingerprint as nat, 16);
    let a = epoch + "-"@ + dec_text(g1 as nat);
    let b = epoch + "-"@ + dec_text(g2 as nat);
    assert(revision_text(epoch, g1, fingerprint) =~= a + tail);
    assert(revision_text(epoch, g2, fingerprint) =~= b + tail);
    if revision_text(epoch, g1, fingerprint) == revision_text(epoch, g2, fingerprint) {
        assert(a.len() == b.len());
        assert((a + tail).subrange(0, a.len() as int) =~= a);
        assert((b + tail).subrange(0, b.len() as int) =~= b);
        assert(a == b);
        assert(a.skip(epoch.len() + 1int) =~= dec_text(g1 as nat));
        assert(b.skip(epoch.len() + 1int) =~= dec_text(g2 as nat));
        crate::text::lemma_dec_text_injective(g1 as nat, g2 as nat);
    }
}

} // verus!

verus! {

/// Where `computer_observe` stands.
#[derive(Debug, PartialEq, Eq, Structural)]
pub enum ObserveStage {
    /// Waiting for the monitor list taken before a capture.
    ListingBefore,
    /// Waiting for the capture.
    Capturing,
    /// Waiting for the monitor list taken after the capture.
    ListingAfter,
    /// An answer was given.
    Finished,
}

/// What `computer_observe` learns: a monitor listing (with the display
/// generation read right after it), or the result of a capture.
pub enum ObserveEvent {
    Listed { monitors: Result<Vec<Monitor>, BackendError>, generation: u64 },
    Captured(Result<Vec<u8>, BackendError>),
}

/// What `computer_observe` does next.
pub enum ObserveAction {
    /// List the monitors.
    ListMonitors,
    /// Capture this monitor as PNG.
    Capture { monitor: String },
    /// Answer with a tool error.
    Reject { code: &'static str, message: String },
    /// Answer with the backend error.
    Fail(BackendError),
    /// Record an observation of `monitor` and answer with it.
    Deliver { monitor: Monitor, width: u32, height: u32, generation: u64, fingerprint: u64, png: Vec<u8> },
}

pub open spec fn not_found_message(wanted: Seq<char>) -> Seq<char> {
    "no selectable monitor "@ + debug_text(wanted) + "; call computer_monitors"@
}

pub open spec fn enabled_of(ms: Seq<Monitor>) -> Seq<Monitor> {
    ms.filter(|m: Monitor| is_enabled(m))
}

/// One `computer_observe` call: the capture is bracketed by configuration
/// checks, retried when the display configuration races it, and refused
/// after `OBSERVE_ATTEMPTS` attempts rather than issuing an observation whose
/// coordinate space may already be wrong.
pub struct Observe {
    wanted: String,
    attempt: u32,
    stage: ObserveStage,
    target: Option<Monitor>,
    gen_pre: u64,
    fp_pre: u64,
    png: Option<Vec<u8>>,
}

impl Observe {
    #[verifier::type_invariant]
    spec fn stage_data(self) -> bool {
        &&& (self.stage == ObserveStage::Capturing || self.stage == ObserveStage::ListingAfter)
            ==> self.target is Some
        &&& self.stage == ObserveStage::ListingAfter ==> self.png is Some
        &&& 1 <= self.attempt <= OBSERVE_ATTEMPTS
    }

    pub closed spec fn wanted_name(&self) -> Seq<char> {
        self.wanted@
    }

    pub closed spec fn attempts(&self) -> u32 {
        self.attempt
    }

    pub closed spec fn stage_of(&self) -> ObserveStage {
        self.stage
    }

    pub closed spec fn target_of(&self) -> Option<Monitor> {
        self.target
    }

    pub closed spec fn generation_before(&self) -> u64 {
        self.gen_pre
    }

    pub closed spec fn fingerprint_before(&self) -> u64 {
        self.fp_pre
    }

    pub closed spec fn image(&self) -> Option<Vec<u8>> {
        self.png
    }

    /// Starts an observation of the monitor called `wanted`: the first step
    /// is to list the monitors.
    pub fn new(wanted: String) -> (r: (Self, ObserveAction))
        ensures
            r.0.wanted_name() == wanted@,
            r.0.attempts() == 1,
            r.0.stage_of() == ObserveStage::ListingBefore,
            r.1 is ListMonitors,
    {
        (
            Observe {
                wanted,
                attempt: 1,
                stage: ObserveStage::ListingBefore,
                target: None,
                gen_pre: 0,
                fp_pre: 0,
                png: None,
            },
            ObserveAction::ListMonitors,
        )
    }

    /// The event the current stage waits for.
    pub open spec fn expects(&self, ev: ObserveEvent) -> bool {
        match self.stage_of() {
            ObserveStage::ListingBefore => ev is Listed,
            ObserveStage::Capturing => ev is Captured,
            ObserveStage::ListingAfter => ev is Listed,
            ObserveStage::Finished => false,
        }
    }

    /// Whether the current stage waits for `ev` (what `step` requires).
    pub fn accepts(&self, ev: &ObserveEvent) -> (r: bool)
        ensures
            r == self.expects(*ev),
    {
        match (&self.stage, ev) {
            (ObserveStage::ListingBefore, ObserveEvent::Listed { .. }) => true,
            (ObserveStage::Capturing, ObserveEvent::Captured(_)) => true,
            (ObserveStage::ListingAfter, ObserveEvent::Listed { .. }) => true,
            _ => false,
        }
    }

    /// What a step in `ListingBefore` does with the monitor list: look the
    /// wanted monitor up among the selectable ones and capture it, or refuse.
    pub open spec fn listed_before(
        pre: Observe,
        post: Observe,
        monitors: Result<Vec<Monitor>, BackendError>,
        generation: u64,
        act: ObserveAction,
    ) -> bool {
        match monitors {
            Err(e) => act == ObserveAction::Fail(e) && post.stage_of() == ObserveStage::Finished,
            Ok(ms) => {
                let sel = enabled_of(ms@);
                if exists|i: int| is_first_named(sel, pre.wanted_name(), i) {
                    let i = choose|i: int| is_first_named(sel, pre.wanted_name(), i);
                    &&& act matches ObserveAction::Capture { monitor } && monitor@ == sel[i].name@
                    &&& post.stage_of() == ObserveStage::Capturing
                    &&& post.target_of() == Some(sel[i])
                    &&& post.generation_before() == generation
                    &&& post.fingerprint_before() == fingerprint_of(sel)
                    &&& post.attempts() == pre.attempts()
                } else {
                    &&& act matches ObserveAction::Reject { code, message }
                    &&& code@ == "MONITOR_NOT_FOUND"@
                    &&& message@ == not_found_message(pre.wanted_name())
                    &&& post.stage_of() == ObserveStage::Finished
                }
            },
        }
    }

    /// What a step in `Capturing` does with the capture: keep the image and
    /// list the monitors again, or fail.
    pub open spec fn captured(
        pre: Observe,
        post: Observe,
        r: Result<Vec<u8>, BackendError>,
        act: ObserveAction,
    ) -> bool {
        match r {
            Err(e) => act == ObserveAction::Fail(e) && post.stage_of() == ObserveStage::Finished,
            Ok(png) => {
                &&& act is ListMonitors
                &&& post.stage_of() == ObserveStage::ListingAfter
                &&& post.image() == Some(png)
                &&& post.target_of() == pre.target_of()
                &&& post.generation_before() == pre.generation_before()
                &&& post.fingerprint_before() == pre.fingerprint_before()
                &&& post.attempts() == pre.attempts()
            },
        }
    }

    /// What a step in `ListingAfter` does with the second monitor list: retry
    /// or refuse when the configuration moved, else deliver the observation
    /// (or refuse an image that is not a PNG).
    pub open spec fn listed_after(
        pre: Observe,
        post: Observe,
        monitors: Result<Vec<Monitor>, BackendError>,
        generation: u64,
        act: ObserveAction,
    ) -> bool {
        match monitors {
            Err(e) => act == ObserveAction::Fail(e) && post.stage_of() == ObserveStage::Finished,
            Ok(ms) => {
                let fp = fingerprint_of(enabled_of(ms@));
                if generation != pre.generation_before() || fp != pre.fingerprint_before() {
                    if pre.attempts() < OBSERVE_ATTEMPTS {
                        &&& act is ListMonitors
                        &&& post.stage_of() == ObserveStage::ListingBefore
                        &&& post.attempts() == pre.attempts() + 1
                    } else {
                        &&& act matches ObserveAction::Reject { code, message }
                        &&& code@ == "DISPLAY_CONFIGURATION_CHANGED"@
                        &&& message@ == "display configuration changed during capture; call computer_observe again"@
                        &&& post.stage_of() == ObserveStage::Finished
                    }
                } else {
                    match png_dimensions(pre.image().unwrap()@) {
                        None => {
                            &&& act matches ObserveAction::Reject { code, message }
                            &&& code@ == "CAPTURE_FAILED"@
                            &&& message@ == "grim output was not a PNG"@
                            &&& post.stage_of() == ObserveStage::Finished
                        },
                        Some((w, h)) => {
                            &&& act == ObserveAction::Deliver {
                                monitor: pre.target_of().unwrap(),
                                width: w,
                                height: h,
                                generation,
                                fingerprint: fp,
                                png: pre.image().unwrap(),
                            }
                            &&& post.stage_of() == ObserveStage::Finished
                        },
                    }
                }
            },
        }
    }

    /// Advances on an event and says what to do next.
    #[verifier::spinoff_prover]
    pub fn step(&mut self, ev: ObserveEvent) -> (act: ObserveAction)
        requires
            old(self).expects(ev),
        ensures
            final(self).wanted_name() == old(self).wanted_name(),
            old(self).stage_of() == ObserveStage::ListingBefore ==> (ev matches ObserveEvent::Listed {
                monitors,
                generation,
            } && Self::listed_before(*old(self), *final(self), monitors, generation, act)),
            old(self).stage_of() == ObserveStage::Capturing ==> (ev matches ObserveEvent::Captured(r)
                && Self::captured(*old(self), *final(self), r, act)),
            old(self).stage_of() == ObserveStage::ListingAfter ==> (ev matches ObserveEvent::Listed {
                monitors,
                generation,
            } && Self::listed_after(*old(self), *final(self), monitors, generation, act)),
    {
        proof {
            use_type_invariant(&*self);
        }
        match ev {
            ObserveEvent::Listed { monitors, generation } => {
                let ms = match monitors {
                    Err(e) => {
                        self.stage = ObserveStage::Finished;
                        return ObserveAction::Fail(e);
                    },
                    Ok(ms) => ms,
                };
                let mut sel = selectable(ms);
                let fp = fingerprint(sel.as_slice());
                if self.stage == ObserveStage::ListingBefore {
                    match monitor_named(&sel, self.wanted.as_str()) {
                        None => {
                            proof {
                                assert(!exists|i: int| is_first_named(sel@, self.wanted@, i));
                            }
                            let mut message = String::from_str("no selectable monitor ");
                            message.append(debug_quoted(self.wanted.as_str()).as_str());
                            message.append("; call computer_monitors");
                            self.stage = ObserveStage::Finished;
                            ObserveAction::Reject { code: "MONITOR_NOT_FOUND", message }
                        },
                        Some(i) => {
                            proof {
                                let ghost k = choose|k: int| is_first_named(sel@, self.wanted@, k);
                                assert(k == i as int) by {
                                    if k < i as int {
                                        assert(sel@[k].name@ != self.wanted@);
                                    } else if k > i as int {
                                        assert(sel@[i as int].name@ != self.wanted@);
                                    }
                                }
                            }
                            let m = sel.remove(i);
                            let name = m.name.clone();
                            self.target = Some(m);
                            self.gen_pre = generation;
                            self.fp_pre = fp;
                            self.stage = ObserveStage::Capturing;
                            ObserveAction::Capture { monitor: name }
                        },
                    }
                } else {
                    if !capture_consistent(self.gen_pre, self.fp_pre, generation, fp) {
                        if self.attempt < OBSERVE_ATTEMPTS {
                            self.attempt = self.attempt + 1;
                            self.stage = ObserveStage::ListingBefore;
                            ObserveAction::ListMonitors
                        } else {
                            self.stage = ObserveStage::Finished;
                            ObserveAction::Reject {
                                code: "DISPLAY_CONFIGURATION_CHANGED",
                                message: String::from_str(
                                    "display configuration changed during capture; call computer_observe again",
                                ),
                            }
                        }
                    } else {
                        self.stage = ObserveStage::Finished;
                        let mut png_slot: Option<Vec<u8>> = None;
                        std::mem::swap(&mut png_slot, &mut self.png);
                        let mut target: Option<Monitor> = None;
                        std::mem::swap(&mut target, &mut self.target);
                        let png = match png_slot {
                            Some(p) => p,
                            None => Vec::new(),
                        };
                        match png_size(png.as_slice()) {
                            None => ObserveAction::Reject {
                                code: "CAPTURE_FAILED",
                                message: String::from_str("grim output was not a PNG"),
                            },
                            Some((w, h)) => {
                                let monitor = match target {
                                    Some(t) => t,
                                    None => {
                                        // The capture stage always sets a target.
                                        return ObserveAction::Reject {
                                            code: "CAPTURE_FAILED",
                                            message: String::from_str("grim output was not a PNG"),
                                        };
                                    },
                                };
                                ObserveAction::Deliver {
                                    monitor,
                                    width: w,
                                    height: h,
                                    generation,
                                    fingerprint: fp,
                                    png,
                                }
                            },
                        }
                    }
                }
            },
            ObserveEvent::Captured(r) => match r {
                Err(e) => {
                    self.stage = ObserveStage::Finished;
                    ObserveAction::Fail(e)
                },
                Ok(png) => {
                    self.png = Some(png);
                    self.stage = ObserveStage::ListingAfter;
                    ObserveAction::ListMonitors
                },
            },
        }
    }
}

} // verus!
