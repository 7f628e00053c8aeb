//! Display-change notifications: which compositor events move the display
//! generation, what each watcher does on (dis)connection, which globals the
//! watchers and input sessions bind, and which Wayland socket to use.
use vstd::prelude::*;
use crate::text::{str_eq, starts_with};
use crate::fingerprint::{text_le, text_le_exec};

verus! {

pub open spec fn is_first_gt(s: Seq<char>, i: int) -> bool {
    &&& 0 <= i < s.len()
    &&& s[i] == '>'
    &&& forall|j: int| 0 <= j < i ==> s[j] != '>'
}

/// The event name of an IPC event line: the text before the first `>`
/// (the whole line when there is none).
pub open spec fn event_name(line: Seq<char>) -> Seq<char> {
    if exists|i: int| is_first_gt(line, i) {
        line.subrange(0, choose|i: int| is_first_gt(line, i))
    } else {
        line
    }
}

pub open spec fn has_prefix(s: Seq<char>, p: Seq<char>) -> bool {
    p.len() <= s.len() && s.subrange(0, p.len() as int) == p
}

/// Events that may change the display configuration.
pub open spec fn is_display_event_name(e: Seq<char>) -> bool {
    e == "configreloaded"@ || has_prefix(e, "monitoradded"@) || has_prefix(e, "monitorremoved"@)
}

/// Whether an IPC event line reports a possible display change.
pub fn is_display_event(line: &str) -> (r: bool)
    ensures
        r == is_display_event_name(event_name(line@)),
{
    let n = line.unicode_len();
    let mut i: usize = 0;
    while i < n && line.get_char(i) != '>'
        invariant
            0 <= i <= n,
            n == line@.len(),
            forall|j: int| 0 <= j < i ==> line@[j] != '>',
        decreases n - i,
    {
        i = i + 1;
    }
    let event = line.substring_char(0, i);
    if i < n {
        assert(is_first_gt(line@, i as int));
        assert(event_name(line@) == line@.subrange(0, i as int));
    } else {
        assert(!exists|k: int| is_first_gt(line@, k));
        assert(line@.subrange(0, i as int) =~= line@);
    }
    str_eq(event, "configreloaded") || starts_with(event, "monitoradded") || starts_with(
        event,
        "monitorremoved",
    )
}

/// What a display watcher sees.
pub enum WatchEvent {
    /// The IPC event socket connected, or the wl_output listener finished
    /// its initial roundtrip.
    Connected,
    /// One line from the IPC event socket.
    IpcLine(String),
    /// A global appeared or disappeared on the Wayland registry.
    RegistryGlobal,
    /// Any event on a bound wl_output.
    OutputEvent,
    /// The connection was lost, failed, or could not be made.
    Ended,
}

/// What a watcher does in response: set its channel's health flag, bump the
/// shared display generation.
pub struct WatchEffect {
    pub set_healthy: Option<bool>,
    pub bump_generation: bool,
}

/// Whether a watcher bumps the display generation on `ev`: on any
/// display-relevant event and on every disconnect.
pub open spec fn bumps_generation(ev: WatchEvent) -> bool {
    match ev {
        WatchEvent::Connected => false,
        WatchEvent::IpcLine(line) => is_display_event_name(event_name(line@)),
        WatchEvent::RegistryGlobal => true,
        WatchEvent::OutputEvent => true,
        WatchEvent::Ended => true,
    }
}

/// The health flag a watcher sets on `ev`, if any.
pub open spec fn health_change(ev: WatchEvent) -> Option<bool> {
    match ev {
        WatchEvent::Connected => Some(true),
        WatchEvent::Ended => Some(false),
        _ => None,
    }
}

/// The display generation after a watcher handled `ev` at generation `g`
/// (the shared counter's increment wraps at the top of `u64`).
pub open spec fn generation_after(g: u64, ev: WatchEvent) -> u64 {
    if bumps_generation(ev) {
        g.wrapping_add(1)
    } else {
        g
    }
}

/// Watchers bump the generation on any display-relevant event and on every
/// disconnect (the channels have no replay cursor, so a gap may hide a
/// change-and-restore); a connection marks the channel healthy, an end
/// marks it unhealthy.
pub fn watch_effect(ev: &WatchEvent) -> (r: WatchEffect)
    ensures
        r.set_healthy == health_change(*ev),
        r.bump_generation == bumps_generation(*ev),
{
    match ev {
        WatchEvent::Connected => WatchEffect { set_healthy: Some(true), bump_generation: false },
        WatchEvent::IpcLine(line) => WatchEffect {
            set_healthy: None,
            bump_generation: is_display_event(line.as_str()),
        },
        WatchEvent::RegistryGlobal => WatchEffect { set_healthy: None, bump_generation: true },
        WatchEvent::OutputEvent => WatchEffect { set_healthy: None, bump_generation: true },
        WatchEvent::Ended => WatchEffect { set_healthy: Some(false), bump_generation: true },
    }
}

/// The event name of an IPC line is the text before its first `>`.
proof fn lemma_event_name_of(name: Seq<char>, rest: Seq<char>)
    requires
        forall|i: int| 0 <= i < name.len() ==> name[i] != '>',
    ensures
        event_name(name + seq!['>'] + rest) == name,
        event_name(name) == name,
{
    let line = name + seq!['>'] + rest;
    assert(is_first_gt(line, name.len() as int));
    let k = choose|i: int| is_first_gt(line, i);
    assert(k == name.len()) by {
        if k < name.len() {
            assert(line[k] == name[k]);
        } else if k > name.len() {
            assert(line[name.len() as int] == '>');
        }
    }
    assert(line.subrange(0, name.len() as int) =~= name);
    assert(!exists|i: int| is_first_gt(name, i));
}

/// Which IPC lines move the display generation: a line whose event name
/// (the text before its first `>`, or the whole line) is `configreloaded` or
/// starts with `monitoradded` or `monitorremoved` (the `v2` variants
/// included), and no other.
pub proof fn lemma_display_event_lines(name: Seq<char>, rest: Seq<char>, line: String)
    requires
        forall|i: int| 0 <= i < name.len() ==> name[i] != '>',
        line@ == name + seq!['>'] + rest || line@ == name,
    ensures
        bumps_generation(WatchEvent::IpcLine(line)) <==> (name == "configreloaded"@ || has_prefix(
            name,
            "monitoradded"@,
        ) || has_prefix(name, "monitorremoved"@)),
{
    lemma_event_name_of(name, rest);
}

/// A global advertised on the Wayland registry.
pub struct GlobalInfo {
    pub name: u32,
    pub interface: String,
    pub version: u32,
}

pub open spec fn min_u32(a: u32, b: u32) -> u32 {
    if a < b { a } else { b }
}

/// The version at which the output watcher binds a global: every `wl_output`,
/// at most version 4.
pub fn output_bind_version(interface: &str, version: u32) -> (r: Option<u32>)
    ensures
        r == (if interface@ == "wl_output"@ { Some(min_u32(version, 4)) } else { None }),
{
    if str_eq(interface, "wl_output") {
        Some(if version < 4 { version } else { 4 })
    } else {
        None
    }
}

/// A bind the virtual-pointer session performs on connecting.
pub open spec fn pointer_bind(g: GlobalInfo) -> Option<(u32, u32)> {
    if g.interface@ == "zwlr_virtual_pointer_manager_v1"@ {
        Some((g.name, min_u32(g.version, 2)))
    } else {
        None
    }
}

/// The binds, in order, for the pointer manager: every advertised
/// `zwlr_virtual_pointer_manager_v1`, at most version 2 (the session keeps
/// the last one).
pub open spec fn pointer_binds(gs: Seq<GlobalInfo>) -> Seq<(u32, u32)>
    decreases gs.len(),
{
    if gs.len() == 0 {
        Seq::empty()
    } else {
        let r = pointer_binds(gs.drop_last());
        match pointer_bind(gs.last()) {
            Some(b) => r.push(b),
            None => r,
        }
    }
}

pub fn pointer_manager_binds(globals: &Vec<GlobalInfo>) -> (r: Vec<(u32, u32)>)
    ensures
        r@ == pointer_binds(globals@),
{
    let mut r: Vec<(u32, u32)> = Vec::new();
    let mut i: usize = 0;
    while i < globals.len()
        invariant
            0 <= i <= globals@.len(),
            r@ == pointer_binds(globals@.take(i as int)),
        decreases globals@.len() - i,
    {
        let g = &globals[i];
        assert(globals@.take(i + 1).drop_last() =~= globals@.take(i as int));
        assert(globals@.take(i + 1).last() == globals@[i as int]);
        if str_eq(g.interface.as_str(), "zwlr_virtual_pointer_manager_v1") {
            r.push((g.name, if g.version < 2 { g.version } else { 2 }));
        }
        i = i + 1;
    }
    assert(globals@.take(globals@.len() as int) =~= globals@);
    r
}

/// What the virtual-keyboard session binds.
#[derive(Debug, PartialEq, Eq, Structural)]
pub enum BindTarget {
    KeyboardManager,
    Seat,
}

/// The binds, in order, for the keyboard session: every advertised
/// `zwp_virtual_keyboard_manager_v1` (the session keeps the last), and the
/// first `wl_seat`, each at version 1 at most.
pub open spec fn keyboard_binds_from(gs: Seq<GlobalInfo>, seat_bound: bool) -> Seq<(BindTarget, u32, u32)>
    decreases gs.len(),
{
    if gs.len() == 0 {
        Seq::empty()
    } else {
        let g = gs[0];
        if g.interface@ == "zwp_virtual_keyboard_manager_v1"@ {
            seq![(BindTarget::KeyboardManager, g.name, min_u32(g.version, 1))] + keyboard_binds_from(
                gs.drop_first(),
                seat_bound,
            )
        } else if g.interface@ == "wl_seat"@ && !seat_bound {
            seq![(BindTarget::Seat, g.name, min_u32(g.version, 1))] + keyboard_binds_from(
                gs.drop_first(),
                true,
            )
        } else {
            keyboard_binds_from(gs.drop_first(), seat_bound)
        }
    }
}

pub fn keyboard_binds(globals: &Vec<GlobalInfo>) -> (r: Vec<(BindTarget, u32, u32)>)
    ensures
        r@ == keyboard_binds_from(globals@, false),
{
    let mut r: Vec<(BindTarget, u32, u32)> = Vec::new();
    let mut seat_bound = false;
    let mut i: usize = 0;
    assert(globals@.skip(0) =~= globals@);
    while i < globals.len()
        invariant
            0 <= i <= globals@.len(),
            r@ + keyboard_binds_from(globals@.skip(i as int), seat_bound) == keyboard_binds_from(
                globals@,
                false,
            ),
        decreases globals@.len() - i,
    {
        let g = &globals[i];
        let ghost rest = globals@.skip(i as int);
        assert(rest[0] == globals@[i as int]);
        assert(rest.drop_first() =~= globals@.skip(i + 1));
        let version = if g.version < 1 { g.version } else { 1 };
        if str_eq(g.interface.as_str(), "zwp_virtual_keyboard_manager_v1") {
            let ghost before = r@;
            r.push((BindTarget::KeyboardManager, g.name, version));
            assert(r@ + keyboard_binds_from(globals@.skip(i + 1), seat_bound) =~= before
                + keyboard_binds_from(rest, seat_bound));
        } else if str_eq(g.interface.as_str(), "wl_seat") && !seat_bound {
            let ghost before = r@;
            r.push((BindTarget::Seat, g.name, version));
            assert(r@ + keyboard_binds_from(globals@.skip(i + 1), true) =~= before
                + keyboard_binds_from(rest, seat_bound));
            seat_bound = true;
        }
        i = i + 1;
    }
    assert(keyboard_binds_from(globals@.skip(i as int), seat_bound) =~= Seq::<(BindTarget, u32, u32)>::empty());
    assert(r@ =~= keyboard_binds_from(globals@, false));
    r
}

/// `candidates[i]` may be chosen and no earlier-sorting candidate may.
pub open spec fn is_least_candidate(names: Seq<String>, ok: Seq<bool>, i: int) -> bool {
    &&& 0 <= i < names.len()
    &&& ok[i]
    &&& forall|j: int| 0 <= j < names.len() && ok[j] && j != i ==> (text_le(names[i]@, names[j]@)
        && (text_le(names[j]@, names[i]@) ==> i < j))
}

/// Index of the first entry, in name order, among those marked `ok` — the
/// entry a scan of the sorted directory listing stops at.
pub fn first_in_name_order(names: &Vec<String>, ok: &Vec<bool>) -> (r: Option<usize>)
    requires
        ok@.len() == names@.len(),
    ensures
        r is None <==> forall|j: int| 0 <= j < names@.len() ==> !ok@[j],
        r matches Some(i) ==> is_least_candidate(names@, ok@, i as int),
{
    proof {
        crate::fingerprint::lemma_text_order_total();
    }
    let mut best: Option<usize> = None;
    let mut i: usize = 0;
    while i < names.len()
        invariant
            0 <= i <= names@.len(),
            ok@.len() == names@.len(),
            vstd::relations::total_ordering(crate::fingerprint::text_order()),
            best is None <==> forall|j: int| 0 <= j < i ==> !ok@[j],
            best matches Some(b) ==> b < i && ok@[b as int] && forall|j: int|
                0 <= j < i && ok@[j] && j != b ==> (text_le(names@[b as int]@, names@[j]@) && (
                text_le(names@[j]@, names@[b as int]@) ==> b < j)),
        decreases names@.len() - i,
    {
        if ok[i] {
            match best {
                None => {
                    best = Some(i);
                },
                Some(b) => {
                    if !text_le_exec(names[b].as_str(), names[i].as_str()) {
                        proof {
                            crate::fingerprint::lemma_text_le_total(names@[i as int]@, names@[b as int]@);
                            assert forall|j: int|
                                0 <= j < i + 1 && ok@[j] && j != i implies (text_le(names@[i as int]@, names@[j]@)
                                && (text_le(names@[j]@, names@[i as int]@) ==> i < j)) by {
                                if j != b {
                                    assert(crate::fingerprint::text_order()(names@[b as int]@, names@[j]@));
                                    crate::fingerprint::lemma_text_le_transitive(names@[i as int]@, names@[b as int]@, names@[j]@);
                                    if text_le(names@[j]@, names@[i as int]@) {
                                        crate::fingerprint::lemma_text_le_transitive(names@[b as int]@, names@[j]@, names@[i as int]@);
                                    }
                                } else {
                                    assert(!text_le(names@[b as int]@, names@[i as int]@));
                                }
                            }
                        }
                        best = Some(i);
                    }
                },
            }
        }
        i = i + 1;
    }
    best
}

/// Which runtime-directory entry is the Wayland socket: the first, in name
/// order, whose name starts with `wayland-`.
pub fn wayland_display_choice(names: &Vec<String>) -> (r: Option<usize>)
    ensures
        r is None <==> forall|j: int| 0 <= j < names@.len() ==> !has_prefix(names@[j]@, "wayland-"@),
        r matches Some(i) ==> is_least_candidate(
            names@,
            names@.map_values(|n: String| has_prefix(n@, "wayland-"@)),
            i as int,
        ),
{
    let mut ok: Vec<bool> = Vec::new();
    let mut i: usize = 0;
    while i < names.len()
        invariant
            0 <= i <= names@.len(),
            ok@ == names@.take(i as int).map_values(|n: String| has_prefix(n@, "wayland-"@)),
        decreases names@.len() - i,
    {
        ok.push(starts_with(names[i].as_str(), "wayland-"));
        i = i + 1;
        assert(ok@ =~= names@.take(i as int).map_values(|n: String| has_prefix(n@, "wayland-"@)));
    }
    assert(names@.take(i as int) =~= names@);
    assert forall|j: int| 0 <= j < names@.len() implies ok@[j] == has_prefix(names@[j]@, "wayland-"@) by {
    }
    let r = first_in_name_order(names, &ok);
    assert((forall|j: int| 0 <= j < names@.len() ==> !ok@[j]) ==> (forall|j: int|
        0 <= j < names@.len() ==> !has_prefix(names@[j]@, "wayland-"@))) by {
        if forall|j: int| 0 <= j < names@.len() ==> !ok@[j] {
            assert forall|j: int| 0 <= j < names@.len() implies !has_prefix(names@[j]@, "wayland-"@) by {
                assert(!ok@[j]);
            }
        }
    }
    assert((forall|j: int| 0 <= j < names@.len() ==> !has_prefix(names@[j]@, "wayland-"@)) ==> (forall|j: int|
        0 <= j < names@.len() ==> !ok@[j])) by {
        if forall|j: int| 0 <= j < names@.len() ==> !has_prefix(names@[j]@, "wayland-"@) {
            assert forall|j: int| 0 <= j < names@.len() implies !ok@[j] by {
                assert(!has_prefix(names@[j]@, "wayland-"@));
            }
        }
    }
    r
}

} // verus!
