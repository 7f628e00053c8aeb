//! The virtual keyboard: operations by keysym and modifier name, their
//! resolution against the uploaded keymap (every name is resolved before any
//! event is sent), and the session state that decides releases and delivery.
use vstd::prelude::*;
use std::sync::mpsc::Sender;
use crate::handoff::{Guard, REPLY_TIMEOUT_SECS, open_channel, receive_within, send_message};
use crate::held::{ticks, with_code, without_code, insert_code, remove_code};
use crate::pointer::{Delivery, stopped_delivery};
use crate::text::{debug_text, debug_quoted};

verus! {

/// One keyboard operation. `Key` presses/releases a keysym name resolved
/// against the uploaded keymap ("Return", "a"). `Mods` sets the depressed
/// modifier mask from xkb modifier names ("Control", "Shift", "Mod1", "Mod4") —
/// the client only sees modifiers via the dedicated `modifiers` event, so
/// pressing a modifier *key* alone does nothing.
#[derive(Debug)]
pub enum KeyOp {
    Key { name: String, pressed: bool },
    Mods { names: Vec<String> },
}

/// A keyboard operation after name resolution.
#[derive(Debug, PartialEq, Eq, Structural)]
pub enum ResolvedKeyOp {
    /// evdev keycode.
    Key { code: u32, pressed: bool },
    /// Depressed-modifier mask.
    Mods { mask: u32 },
}

/// One request on the virtual-keyboard connection.
#[derive(Debug, PartialEq, Eq, Structural)]
pub enum KeyRequest {
    Key { time: u32, code: u32, pressed: bool },
    /// The `modifiers` event with this depressed mask (latched, locked and
    /// group all zero).
    Modifiers { depressed: u32 },
    /// Push queued requests onto the wire (errors ignored).
    Flush,
}

/// The keysym value that stands for "no symbol".
pub const NO_SYMBOL: u32 = 0;

/// What the logic reads from a compiled xkb keymap: for every keycode from
/// `min_keycode` on, the keysyms at layout 0, level 0; and the modifier names
/// by index.
pub struct KeymapTable {
    pub min_keycode: u32,
    pub level0: Vec<Vec<u32>>,
    pub modifiers: Vec<String>,
}

impl KeymapTable {
    /// Keycodes fit in 32 bits and there are at most 32 modifiers (xkb's
    /// limit), so every modifier has a bit in a `u32` mask.
    pub open spec fn wf(&self) -> bool {
        &&& self.min_keycode + self.level0@.len() <= u32::MAX + 1
        &&& self.modifiers@.len() <= 32
    }
}

pub open spec fn is_first_symbol(syms: Seq<u32>, i: int) -> bool {
    &&& 0 <= i < syms.len()
    &&& syms[i] != NO_SYMBOL
    &&& forall|j: int| 0 <= j < i ==> syms[j] == NO_SYMBOL
}

/// The first keysym that names a symbol.
pub open spec fn first_symbol(syms: Seq<u32>) -> Option<u32> {
    if exists|i: int| is_first_symbol(syms, i) {
        Some(syms[choose|i: int| is_first_symbol(syms, i)])
    } else {
        None
    }
}

pub open spec fn is_first_keycode(level0: Seq<Vec<u32>>, sym: u32, i: int) -> bool {
    &&& 0 <= i < level0.len()
    &&& level0[i]@.contains(sym)
    &&& forall|j: int| 0 <= j < i ==> !level0[j]@.contains(sym)
}

/// The evdev code of the lowest xkb keycode whose level-0 symbols include
/// `sym` (xkb keycodes are evdev + 8; a match below 8 has no evdev code).
pub open spec fn keycode_for_symbol(table: KeymapTable, sym: u32) -> Option<u32> {
    if exists|i: int| is_first_keycode(table.level0@, sym, i) {
        let raw = table.min_keycode + choose|i: int| is_first_keycode(table.level0@, sym, i);
        if raw >= 8 {
            Some((raw - 8) as u32)
        } else {
            None
        }
    } else {
        None
    }
}

pub open spec fn is_first_modifier(mods: Seq<String>, name: Seq<char>, i: int) -> bool {
    &&& 0 <= i < mods.len()
    &&& mods[i]@ == name
    &&& forall|j: int| 0 <= j < i ==> mods[j]@ != name
}

/// Index of the modifier called `name`.
pub open spec fn modifier_index(mods: Seq<String>, name: Seq<char>) -> Option<int> {
    if exists|i: int| is_first_modifier(mods, name, i) {
        Some(choose|i: int| is_first_modifier(mods, name, i))
    } else {
        None
    }
}

/// The depressed mask for `names`, or the first name that is no modifier.
pub open spec fn modifier_mask(mods: Seq<String>, names: Seq<String>) -> Result<u32, Seq<char>>
    decreases names.len(),
{
    if names.len() == 0 {
        Ok(0)
    } else {
        match modifier_mask(mods, names.drop_last()) {
            Err(n) => Err(n),
            Ok(m) => match modifier_index(mods, names.last()@) {
                None => Err(names.last()@),
                Some(i) => Ok(m | (1u32 << (i as u32))),
            },
        }
    }
}

/// The error for a key name that resolves to no keycode: the name itself.
pub open spec fn unknown_key_message(name: Seq<char>) -> Seq<char> {
    name
}

pub open spec fn unknown_modifier_message(name: Seq<char>) -> Seq<char> {
    "unknown modifier "@ + debug_text(name)
}

/// Resolution of one operation, given the keysyms its name candidates map to.
pub open spec fn resolve_op(op: KeyOp, syms: Seq<u32>, table: KeymapTable) -> Result<ResolvedKeyOp, Seq<char>> {
    match op {
        KeyOp::Key { name, pressed } => match first_symbol(syms) {
            None => Err(unknown_key_message(name@)),
            Some(sym) => match keycode_for_symbol(table, sym) {
                None => Err(unknown_key_message(name@)),
                Some(code) => Ok(ResolvedKeyOp::Key { code, pressed }),
            },
        },
        KeyOp::Mods { names } => match modifier_mask(table.modifiers@, names@) {
            Err(n) => Err(unknown_modifier_message(n)),
            Ok(mask) => Ok(ResolvedKeyOp::Mods { mask }),
        },
    }
}

/// Resolution of a whole batch: every operation, or the first failure.
pub open spec fn resolve_ops(ops: Seq<KeyOp>, syms: Seq<Vec<u32>>, table: KeymapTable) -> Result<Seq<ResolvedKeyOp>, Seq<char>>
    decreases ops.len(),
{
    if ops.len() == 0 {
        Ok(Seq::empty())
    } else {
        let n = ops.len() - 1;
        match resolve_ops(ops.drop_last(), syms.take(n), table) {
            Err(e) => Err(e),
            Ok(done) => match resolve_op(ops[n], syms[n]@, table) {
                Err(e) => Err(e),
                Ok(r) => Ok(done.push(r)),
            },
        }
    }
}

/// Keysym spellings tried for a key name: as given, lowercased, capitalized.
pub open spec fn name_candidates(name: Seq<char>) -> Seq<Seq<char>> {
    seq![name, lowercase_of(name), capitalized(name)]
}

/// The lowercase mapping of a string (`str::to_lowercase`).
pub uninterp spec fn lowercase_of(s: Seq<char>) -> Seq<char>;

/// The uppercase mapping of one character (`char::to_uppercase`), which may
/// be several characters long.
pub uninterp spec fn uppercase_of(c: char) -> Seq<char>;

/// First character uppercased, the rest unchanged.
pub open spec fn capitalized(s: Seq<char>) -> Seq<char> {
    if s.len() == 0 {
        s
    } else {
        uppercase_of(s[0]) + s.drop_first()
    }
}

/// Calls `str::to_lowercase`; the result is named by `lowercase_of`.
#[verifier::external_body]
fn to_lowercase(s: &str) -> (r: String)
    ensures
        r@ == lowercase_of(s@),
{
    s.to_lowercase()
}

/// Calls `char::to_uppercase` and collects the characters it yields; the
/// result is named by `uppercase_of`.
#[verifier::external_body]
fn char_to_uppercase(c: char) -> (r: String)
    ensures
        r@ == uppercase_of(c),
{
    c.to_uppercase().collect()
}

/// The string with its first character uppercased.
pub fn capitalize(s: &str) -> (r: String)
    ensures
        r@ == capitalized(s@),
{
    let n = s.unicode_len();
    if n == 0 {
        return String::from_str(s);
    }
    let first = s.get_char(0);
    let rest = s.substring_char(1, n);
    let mut r = char_to_uppercase(first);
    r.append(rest);
    r
}

/// The spellings to look up for a key name, in the order they are tried.
pub fn key_name_candidates(name: &str) -> (r: Vec<String>)
    ensures
        r@.len() == 3,
        forall|i: int| 0 <= i < 3 ==> #[trigger] r@[i]@ == name_candidates(name@)[i],
{
    let mut r: Vec<String> = Vec::new();
    r.push(String::from_str(name));
    r.push(to_lowercase(name));
    r.push(capitalize(name));
    r
}

fn first_symbol_of(syms: &Vec<u32>) -> (r: Option<u32>)
    ensures
        r == first_symbol(syms@),
{
    let mut i: usize = 0;
    while i < syms.len()
        invariant
            0 <= i <= syms@.len(),
            forall|j: int| 0 <= j < i ==> syms@[j] == NO_SYMBOL,
        decreases syms@.len() - i,
    {
        if syms[i] != NO_SYMBOL {
            assert(is_first_symbol(syms@, i as int));
            return Some(syms[i]);
        }
        i = i + 1;
    }
    assert(!exists|k: int| is_first_symbol(syms@, k));
    None
}

fn vec_contains(v: &Vec<u32>, x: u32) -> (r: bool)
    ensures
        r == v@.contains(x),
{
    let mut i: usize = 0;
    while i < v.len()
        invariant
            0 <= i <= v@.len(),
            forall|j: int| 0 <= j < i ==> v@[j] != x,
        decreases v@.len() - i,
    {
        if v[i] == x {
            return true;
        }
        i = i + 1;
    }
    false
}

/// Evdev keycode for a keysym, searched from the lowest keycode up.
pub fn keycode_for(table: &KeymapTable, sym: u32) -> (r: Option<u32>)
    requires
        table.wf(),
    ensures
        r == keycode_for_symbol(*table, sym),
{
    let mut i: usize = 0;
    while i < table.level0.len()
        invariant
            0 <= i <= table.level0@.len(),
            table.wf(),
            forall|j: int| 0 <= j < i ==> !(#[trigger] table.level0@[j])@.contains(sym),
        decreases table.level0@.len() - i,
    {
        if vec_contains(&table.level0[i], sym) {
            assert(is_first_keycode(table.level0@, sym, i as int));
            let raw = table.min_keycode as u64 + i as u64;
            return if raw >= 8 { Some((raw - 8) as u32) } else { None };
        }
        i = i + 1;
    }
    assert(!exists|k: int| is_first_keycode(table.level0@, sym, k));
    None
}

/// Bit of the modifier called `name`.
pub fn modifier_bit(table: &KeymapTable, name: &String) -> (r: Option<u32>)
    requires
        table.wf(),
    ensures
        r == (match modifier_index(table.modifiers@, name@) {
            Some(i) => Some(1u32 << (i as u32)),
            None => None,
        }),
{
    let mut i: usize = 0;
    while i < table.modifiers.len()
        invariant
            0 <= i <= table.modifiers@.len(),
            table.wf(),
            forall|j: int| 0 <= j < i ==> (#[trigger] table.modifiers@[j])@ != name@,
        decreases table.modifiers@.len() - i,
    {
        if table.modifiers[i] == *name {
            assert(is_first_modifier(table.modifiers@, name@, i as int));
            let idx = i as u32;
            return Some(1u32 << idx);
        }
        i = i + 1;
    }
    assert(!exists|k: int| is_first_modifier(table.modifiers@, name@, k));
    None
}

fn mask_for(table: &KeymapTable, names: &Vec<String>) -> (r: Result<u32, String>)
    requires
        table.wf(),
    ensures
        match (r, modifier_mask(table.modifiers@, names@)) {
            (Ok(m), Ok(s)) => m == s,
            (Err(e), Err(n)) => e@ == n,
            _ => false,
        },
{
    let mut mask: u32 = 0;
    let mut k: usize = 0;
    while k < names.len()
        invariant
            0 <= k <= names@.len(),
            table.wf(),
            modifier_mask(table.modifiers@, names@.take(k as int)) == Ok::<u32, Seq<char>>(mask),
        decreases names@.len() - k,
    {
        assert(names@.take(k + 1).drop_last() =~= names@.take(k as int));
        assert(names@.take(k + 1).last() == names@[k as int]);
        match modifier_bit(table, &names[k]) {
            None => {
                assert(modifier_mask(table.modifiers@, names@.take(k + 1)) is Err);
                proof {
                    lemma_mask_error_persists(table.modifiers@, names@, k + 1);
                }
                return Err(names[k].clone());
            },
            Some(bit) => {
                mask = mask | bit;
            },
        }
        k = k + 1;
    }
    assert(names@.take(names@.len() as int) =~= names@);
    Ok(mask)
}

/// Once a prefix of the names fails, the whole list fails with the same name.
proof fn lemma_mask_error_persists(mods: Seq<String>, names: Seq<String>, k: int)
    requires
        0 <= k <= names.len(),
        modifier_mask(mods, names.take(k)) is Err,
    ensures
        modifier_mask(mods, names) == modifier_mask(mods, names.take(k)),
    decreases names.len() - k,
{
    if k == names.len() {
        assert(names.take(k) =~= names);
    } else {
        assert(names.take(k + 1).drop_last() =~= names.take(k));
        lemma_mask_error_persists(mods, names, k + 1);
    }
}

proof fn lemma_resolve_error_persists(ops: Seq<KeyOp>, syms: Seq<Vec<u32>>, table: KeymapTable, k: int)
    requires
        0 <= k <= ops.len(),
        syms.len() == ops.len(),
        resolve_ops(ops.take(k), syms.take(k), table) is Err,
    ensures
        resolve_ops(ops, syms, table) == resolve_ops(ops.take(k), syms.take(k), table),
    decreases ops.len() - k,
{
    if k == ops.len() {
        assert(ops.take(k) =~= ops);
        assert(syms.take(k) =~= syms);
    } else {
        assert(ops.take(k + 1).drop_last() =~= ops.take(k));
        assert(syms.take(k + 1).take(k) =~= syms.take(k));
        lemma_resolve_error_persists(ops, syms, table, k + 1);
    }
}

fn resolve_one(op: &KeyOp, syms: &Vec<u32>, table: &KeymapTable) -> (r: Result<ResolvedKeyOp, String>)
    requires
        table.wf(),
    ensures
        match (r, resolve_op(*op, syms@, *table)) {
            (Ok(v), Ok(s)) => v == s,
            (Err(e), Err(m)) => e@ == m,
            _ => false,
        },
{
    match op {
        KeyOp::Key { name, pressed } => {
            let code = match first_symbol_of(syms) {
                None => None,
                Some(sym) => keycode_for(table, sym),
            };
            match code {
                Some(code) => Ok(ResolvedKeyOp::Key { code, pressed: *pressed }),
                None => Err(String::from_str(name.as_str())),
            }
        },
        KeyOp::Mods { names } => match mask_for(table, names) {
            Ok(mask) => Ok(ResolvedKeyOp::Mods { mask }),
            Err(n) => {
                let mut e = String::from_str("unknown modifier ");
                e.append(debug_quoted(n.as_str()).as_str());
                Err(e)
            },
        },
    }
}

/// Resolves every operation of a batch before any event is sent: an unknown
/// key or modifier name rejects the whole batch: an unknown key with its
/// name, an unknown modifier with a message quoting it.
/// `keysyms[i]` holds the keysyms of `key_name_candidates` of the i-th
/// operation's name (ignored for `Mods`).
pub fn resolve_key_ops(ops: &Vec<KeyOp>, keysyms: &Vec<Vec<u32>>, table: &KeymapTable) -> (r: Result<Vec<ResolvedKeyOp>, String>)
    requires
        table.wf(),
        keysyms@.len() == ops@.len(),
    ensures
        match (r, resolve_ops(ops@, keysyms@, *table)) {
            (Ok(v), Ok(s)) => v@ == s,
            (Err(e), Err(m)) => e@ == m,
            _ => false,
        },
{
    let mut done: Vec<ResolvedKeyOp> = Vec::new();
    let mut k: usize = 0;
    while k < ops.len()
        invariant
            0 <= k <= ops@.len(),
            keysyms@.len() == ops@.len(),
            table.wf(),
            resolve_ops(ops@.take(k as int), keysyms@.take(k as int), *table)
                == Ok::<Seq<ResolvedKeyOp>, Seq<char>>(done@),
        decreases ops@.len() - k,
    {
        assert(ops@.take(k + 1).drop_last() =~= ops@.take(k as int));
        assert(keysyms@.take(k + 1).take(k as int) =~= keysyms@.take(k as int));
        assert(ops@.take(k + 1)[k as int] == ops@[k as int]);
        assert(keysyms@.take(k + 1)[k as int] == keysyms@[k as int]);
        match resolve_one(&ops[k], &keysyms[k], table) {
            Err(e) => {
                proof {
                    lemma_resolve_error_persists(ops@, keysyms@, *table, k + 1);
                }
                return Err(e);
            },
            Ok(r) => {
                done.push(r);
            },
        }
        k = k + 1;
    }
    assert(ops@.take(ops@.len() as int) =~= ops@);
    assert(keysyms@.take(ops@.len() as int) =~= keysyms@);
    Ok(done)
}

/// `v` is a keysym that `lookup` can give for a name spelled `name`.
pub open spec fn looked_up<F: Fn(&str) -> u32>(lookup: F, name: Seq<char>, v: u32) -> bool {
    exists|s: &str| s@ == name && call_ensures(lookup, (s,), v)
}

/// `syms` holds, for every operation, the keysyms `lookup` gives for the
/// spellings of its key name, in candidate order (nothing for `Mods`).
pub open spec fn keysyms_by<F: Fn(&str) -> u32>(lookup: F, ops: Seq<KeyOp>, syms: Seq<Vec<u32>>) -> bool {
    &&& syms.len() == ops.len()
    &&& forall|i: int|
        0 <= i < ops.len() ==> match #[trigger] ops[i] {
            KeyOp::Key { name, .. } => syms[i]@.len() == 3 && forall|j: int|
                0 <= j < 3 ==> looked_up(lookup, name_candidates(name@)[j], #[trigger] syms[i]@[j]),
            KeyOp::Mods { .. } => syms[i]@.len() == 0,
        }
}

/// Looks up the keysym of every spelling of every key name of a batch with
/// `lookup` (the keymap library's name-to-keysym function).
pub fn candidate_keysyms<F: Fn(&str) -> u32>(ops: &Vec<KeyOp>, lookup: &F) -> (r: Vec<Vec<u32>>)
    requires
        forall|s: &str| call_requires(*lookup, (s,)),
    ensures
        keysyms_by(*lookup, ops@, r@),
{
    let mut r: Vec<Vec<u32>> = Vec::new();
    let mut k: usize = 0;
    while k < ops.len()
        invariant
            0 <= k <= ops@.len(),
            forall|s: &str| call_requires(*lookup, (s,)),
            keysyms_by(*lookup, ops@.take(k as int), r@),
        decreases ops@.len() - k,
    {
        let mut syms: Vec<u32> = Vec::new();
        match &ops[k] {
            KeyOp::Key { name, .. } => {
                let cands = key_name_candidates(name.as_str());
                let mut j: usize = 0;
                while j < 3
                    invariant
                        0 <= j <= 3,
                        cands@.len() == 3,
                        forall|i: int| 0 <= i < 3 ==> #[trigger] cands@[i]@ == name_candidates(name@)[i],
                        forall|s: &str| call_requires(*lookup, (s,)),
                        syms@.len() == j,
                        forall|i: int|
                            0 <= i < j ==> looked_up(*lookup, name_candidates(name@)[i], #[trigger] syms@[i]),
                    decreases 3 - j,
                {
                    let c: &str = cands[j].as_str();
                    let v = lookup(c);
                    assert(looked_up(*lookup, name_candidates(name@)[j as int], v));
                    syms.push(v);
                    j = j + 1;
                }
            },
            KeyOp::Mods { .. } => {},
        }
        r.push(syms);
        k = k + 1;
        assert forall|i: int| 0 <= i < k implies match #[trigger] ops@.take(k as int)[i] {
            KeyOp::Key { name, .. } => r@[i]@.len() == 3 && forall|j: int|
                0 <= j < 3 ==> looked_up(*lookup, name_candidates(name@)[j], #[trigger] r@[i]@[j]),
            KeyOp::Mods { .. } => r@[i]@.len() == 0,
        } by {
            assert(ops@.take(k as int)[i] == ops@[i]);
            if i < k - 1 {
                assert(ops@.take(k - 1)[i] == ops@[i]);
            }
        }
    }
    assert(ops@.take(ops@.len() as int) =~= ops@);
    r
}

/// Resolves a batch with keysyms looked up by `lookup`: the result is that of
/// `resolve_key_ops` on the keysyms `lookup` gives for the spellings of each
/// key name.
pub fn resolve_key_names<F: Fn(&str) -> u32>(ops: &Vec<KeyOp>, table: &KeymapTable, lookup: F) -> (r: Result<Vec<ResolvedKeyOp>, String>)
    requires
        table.wf(),
        forall|s: &str| call_requires(lookup, (s,)),
    ensures
        exists|syms: Seq<Vec<u32>>|
            keysyms_by(lookup, ops@, syms) && match (r, resolve_ops(ops@, syms, *table)) {
                (Ok(v), Ok(s)) => v@ == s,
                (Err(e), Err(m)) => e@ == m,
                _ => false,
            },
{
    let keysyms = candidate_keysyms(ops, &lookup);
    let r = resolve_key_ops(ops, &keysyms, table);
    assert(keysyms_by(lookup, ops@, keysyms@));
    r
}

} // verus!

verus! {

/// The wire requests for one resolved operation, stamped with time `t`
/// (modifier changes carry no time stamp and do not advance the clock).
pub open spec fn key_requests(op: ResolvedKeyOp, t: u32) -> Seq<KeyRequest> {
    match op {
        ResolvedKeyOp::Key { code, pressed } => seq![KeyRequest::Key { time: t, code, pressed }],
        ResolvedKeyOp::Mods { mask } => seq![KeyRequest::Modifiers { depressed: mask }],
    }
}

/// Releases of every held key, one tick apart, then the modifiers cleared
/// and a flush.
pub open spec fn key_release_requests(held: Seq<u32>, t: u32) -> Seq<KeyRequest> {
    Seq::new(
        held.len(),
        |i: int| KeyRequest::Key { time: ticks(t, (i + 1) as nat), code: held[i], pressed: false },
    ) + seq![KeyRequest::Modifiers { depressed: 0 }, KeyRequest::Flush]
}

/// State of one virtual-keyboard connection: held keys, the depressed
/// modifier mask, the event clock, whether the current batch has dispatched
/// anything, and whether the connection must be replaced.
pub struct Session {
    held: Vec<u32>,
    mods_depressed: u32,
    time_ms: u32,
    sent: bool,
    broken: bool,
}

impl Session {
    #[verifier::type_invariant]
    spec fn held_distinct(self) -> bool {
        self.held@.no_duplicates()
    }

    /// A code is never recorded as held twice, so each held code is
    /// released exactly once.
    pub fn held_codes_distinct(&self)
        ensures
            self.held_keys().no_duplicates(),
    {
        proof {
            use_type_invariant(self);
        }
    }

    pub closed spec fn held_keys(&self) -> Seq<u32> {
        self.held@
    }

    pub closed spec fn depressed(&self) -> u32 {
        self.mods_depressed
    }

    pub closed spec fn clock(&self) -> u32 {
        self.time_ms
    }

    pub closed spec fn batch_sent(&self) -> bool {
        self.sent
    }

    pub closed spec fn is_broken(&self) -> bool {
        self.broken
    }

    /// A fresh connection whose keymap has just been uploaded.
    pub fn new() -> (s: Self)
        ensures
            s.held_keys() == Seq::<u32>::empty(),
            s.depressed() == 0,
            s.clock() == 0,
            !s.batch_sent(),
            !s.is_broken(),
    {
        Session { held: Vec::new(), mods_depressed: 0, time_ms: 0, sent: false, broken: false }
    }

    /// The connection failed and must be replaced.
    pub fn broken(&self) -> (b: bool)
        ensures
            b == self.is_broken(),
    {
        self.broken
    }

    /// Some key or modifier is still held (a dropped session releases them).
    pub fn holds_input(&self) -> (b: bool)
        ensures
            b == (self.held_keys().len() > 0 || self.depressed() != 0),
    {
        self.held.len() > 0 || self.mods_depressed != 0
    }

    fn tick(&mut self) -> (t: u32)
        ensures
            t == ticks(old(self).time_ms, 1),
            t == old(self).time_ms.wrapping_add(1),
            final(self).time_ms == t,
            final(self).held == old(self).held,
            final(self).mods_depressed == old(self).mods_depressed,
            final(self).sent == old(self).sent,
            final(self).broken == old(self).broken,
    {
        proof {
            use_type_invariant(&*self);
        }
        proof {
            reveal_with_fuel(ticks, 2);
        }
        self.time_ms = self.time_ms.wrapping_add(1);
        self.time_ms
    }

    /// Starts a new batch of operations.
    pub fn begin_batch(&mut self)
        ensures
            final(self).held_keys() == old(self).held_keys(),
            final(self).depressed() == old(self).depressed(),
            final(self).clock() == old(self).clock(),
            !final(self).batch_sent(),
            final(self).is_broken() == old(self).is_broken(),
    {
        proof {
            use_type_invariant(&*self);
        }
        self.sent = false;
    }

    /// Best-effort release of every held key and depressed modifier.
    pub fn release_all(&mut self) -> (reqs: Vec<KeyRequest>)
        ensures
            reqs@ == key_release_requests(old(self).held_keys(), old(self).clock()),
            final(self).held_keys() == Seq::<u32>::empty(),
            final(self).depressed() == 0,
            final(self).clock() == ticks(old(self).clock(), old(self).held_keys().len()),
            final(self).batch_sent() == old(self).batch_sent(),
            final(self).is_broken() == old(self).is_broken(),
    {
        proof {
            use_type_invariant(&*self);
        }
        let ghost t0 = self.time_ms;
        let ghost h = self.held@;
        let mut reqs: Vec<KeyRequest> = Vec::new();
        let mut i: usize = 0;
        while i < self.held.len()
            invariant
                0 <= i <= self.held@.len(),
                self.held@ == h,
                self.time_ms == ticks(t0, i as nat),
                self.sent == old(self).sent,
                self.broken == old(self).broken,
                reqs@ == Seq::new(
                    i as nat,
                    |k: int| KeyRequest::Key { time: ticks(t0, (k + 1) as nat), code: h[k], pressed: false },
                ),
            decreases self.held@.len() - i,
        {
            let code = self.held[i];
            let t = self.tick();
            assert(ticks(t0, (i + 1) as nat) == ticks(t0, i as nat).wrapping_add(1));
            reqs.push(KeyRequest::Key { time: t, code, pressed: false });
            i = i + 1;
            assert(reqs@ =~= Seq::new(
                i as nat,
                |k: int| KeyRequest::Key { time: ticks(t0, (k + 1) as nat), code: h[k], pressed: false },
            ));
        }
        self.held = Vec::new();
        self.mods_depressed = 0;
        reqs.push(KeyRequest::Modifiers { depressed: 0 });
        reqs.push(KeyRequest::Flush);
        assert(reqs@ =~= key_release_requests(h, t0));
        reqs
    }

    /// Called before each resolved operation with whether the display
    /// generation is still the one the batch was validated against; when it
    /// has moved on, everything held is released and the batch stops as
    /// `Partial` (or `Nothing` if nothing was dispatched).
    pub fn check_guard(&mut self, current: bool) -> (r: Option<(Vec<KeyRequest>, Delivery)>)
        ensures
            current ==> r is None && final(self).held_keys() == old(self).held_keys()
                && final(self).depressed() == old(self).depressed() && final(self).clock()
                == old(self).clock(),
            !current ==> {
                &&& r is Some
                &&& r.unwrap().0@ == key_release_requests(old(self).held_keys(), old(self).clock())
                &&& r.unwrap().1 == stopped_delivery(old(self).batch_sent())
                &&& final(self).held_keys() == Seq::<u32>::empty()
                &&& final(self).depressed() == 0
                &&& final(self).clock() == ticks(old(self).clock(), old(self).held_keys().len())
            },
            final(self).batch_sent() == old(self).batch_sent(),
            final(self).is_broken() == old(self).is_broken(),
    {
        proof {
            use_type_invariant(&*self);
        }
        if current {
            None
        } else {
            let sent = self.sent;
            let reqs = self.release_all();
            Some((reqs, if sent { Delivery::Partial } else { Delivery::Nothing }))
        }
    }

    /// Dispatches one resolved operation.
    pub fn dispatch(&mut self, op: &ResolvedKeyOp) -> (reqs: Vec<KeyRequest>)
        ensures
            reqs@ == key_requests(*op, ticks(old(self).clock(), 1)),
            match *op {
                ResolvedKeyOp::Key { code, pressed } => {
                    &&& final(self).held_keys() == if pressed {
                        with_code(old(self).held_keys(), code)
                    } else {
                        without_code(old(self).held_keys(), code)
                    }
                    &&& final(self).depressed() == old(self).depressed()
                    &&& final(self).clock() == ticks(old(self).clock(), 1)
                },
                ResolvedKeyOp::Mods { mask } => {
                    &&& final(self).held_keys() == old(self).held_keys()
                    &&& final(self).depressed() == mask
                    &&& final(self).clock() == old(self).clock()
                },
            },
            final(self).batch_sent(),
            final(self).is_broken() == old(self).is_broken(),
    {
        proof {
            use_type_invariant(&*self);
        }
        let mut reqs: Vec<KeyRequest> = Vec::new();
        match op {
            ResolvedKeyOp::Key { code, pressed } => {
                let t = self.tick();
                reqs.push(KeyRequest::Key { time: t, code: *code, pressed: *pressed });
                let mut held: Vec<u32> = Vec::new();
                std::mem::swap(&mut held, &mut self.held);
                if *pressed {
                    insert_code(&mut held, *code);
                } else {
                    remove_code(&mut held, *code);
                }
                self.held = held;
                assert(reqs@ =~= key_requests(*op, ticks(old(self).clock(), 1)));
            },
            ResolvedKeyOp::Mods { mask } => {
                self.mods_depressed = *mask;
                reqs.push(KeyRequest::Modifiers { depressed: *mask });
                assert(reqs@ =~= key_requests(*op, ticks(old(self).clock(), 1)));
            },
        }
        self.sent = true;
        reqs
    }

    /// After the batch's final flush; a failed flush breaks the connection,
    /// releases everything held, and ends the batch as `Partial` (or
    /// `Nothing`).
    pub fn after_flush(&mut self, flushed: bool) -> (r: Option<(Vec<KeyRequest>, Delivery)>)
        ensures
            flushed ==> r is None && final(self).held_keys() == old(self).held_keys()
                && final(self).depressed() == old(self).depressed() && final(self).clock()
                == old(self).clock() && final(self).is_broken() == old(self).is_broken(),
            !flushed ==> {
                &&& r is Some
                &&& r.unwrap().0@ == key_release_requests(old(self).held_keys(), old(self).clock())
                &&& r.unwrap().1 == stopped_delivery(old(self).batch_sent())
                &&& final(self).held_keys() == Seq::<u32>::empty()
                &&& final(self).depressed() == 0
                &&& final(self).is_broken()
            },
            final(self).batch_sent() == old(self).batch_sent(),
    {
        proof {
            use_type_invariant(&*self);
        }
        if flushed {
            None
        } else {
            let sent = self.sent;
            let reqs = self.release_all();
            self.broken = true;
            Some((reqs, if sent { Delivery::Partial } else { Delivery::Nothing }))
        }
    }

    /// After the sync roundtrip: `Completed`, or, when it failed, a broken
    /// connection with everything released and `Unknown`.
    pub fn after_roundtrip(&mut self, synced: bool) -> (r: (Vec<KeyRequest>, Delivery))
        ensures
            synced ==> r.0@ == Seq::<KeyRequest>::empty() && r.1 == Delivery::Completed
                && final(self).held_keys() == old(self).held_keys() && final(self).depressed()
                == old(self).depressed() && final(self).clock() == old(self).clock()
                && final(self).is_broken() == old(self).is_broken(),
            !synced ==> r.0@ == key_release_requests(old(self).held_keys(), old(self).clock())
                && r.1 == Delivery::Unknown && final(self).held_keys() == Seq::<u32>::empty()
                && final(self).depressed() == 0 && final(self).is_broken(),
            final(self).batch_sent() == old(self).batch_sent(),
    {
        proof {
            use_type_invariant(&*self);
        }
        if synced {
            (Vec::new(), Delivery::Completed)
        } else {
            let reqs = self.release_all();
            self.broken = true;
            (reqs, Delivery::Unknown)
        }
    }
}

/// apply() result: Err(name) means `name` resolved to no keycode (an
/// unknown modifier gives a message quoting it) — nothing was sent, treat as
/// a caller error rather than a backend failure.
pub struct Keyboard {
    tx: Sender<(Vec<KeyOp>, Guard, Sender<Result<Delivery, String>>)>,
}

/// The answer the keyboard thread gave, or the timeout's default.
pub open spec fn keyboard_reply_spec(reply: Option<Result<Delivery, String>>) -> Result<Delivery, String> {
    match reply {
        Some(d) => d,
        None => Ok(Delivery::Unknown),
    }
}

/// The answer a caller reports: what the keyboard thread sent back, or
/// `Ok(Unknown)` when nothing came back in time.
pub fn keyboard_reply(reply: Option<Result<Delivery, String>>) -> (r: Result<Delivery, String>)
    ensures
        r == keyboard_reply_spec(reply),
{
    match reply {
        Some(d) => d,
        None => Ok(Delivery::Unknown),
    }
}

/// What `Keyboard::apply` reports: `Ok(Nothing)` when the request could not
/// be handed to the keyboard thread (it is gone, so no event was sent), else
/// the thread's answer, or `Ok(Unknown)` when none came back in time.
pub fn keyboard_outcome(sent: bool, reply: Option<Result<Delivery, String>>) -> (r: Result<Delivery, String>)
    ensures
        !sent ==> r == Ok::<Delivery, String>(Delivery::Nothing),
        sent ==> r == keyboard_reply_spec(reply),
{
    if !sent {
        Ok(Delivery::Nothing)
    } else {
        keyboard_reply(reply)
    }
}

impl Keyboard {
    /// The request queue of the input thread this handle sends to.
    pub closed spec fn requests(&self) -> Sender<(Vec<KeyOp>, Guard, Sender<Result<Delivery, String>>)> {
        self.tx
    }

    /// Wraps the sending end of the keyboard thread's request queue.
    pub fn new(tx: Sender<(Vec<KeyOp>, Guard, Sender<Result<Delivery, String>>)>) -> (h: Self)
        ensures
            h.requests() == tx,
    {
        Keyboard { tx }
    }

    /// Blocks until the key list is delivered or fails. Call from
    /// spawn_blocking. `guard` aborts remaining ops (with releases) when the
    /// display generation has moved on mid-sequence.  Returns `Ok(Nothing)`
    /// when the keyboard thread is gone and `Ok(Unknown)` when it does not
    /// answer within the reply timeout.
    pub fn apply(&self, ops: Vec<KeyOp>, guard: Guard) -> Result<Delivery, String> {
        let (reply, rx) = open_channel::<Result<Delivery, String>>();
        let sent = send_message(&self.tx, (ops, guard, reply));
        let answer = if sent { receive_within(&rx, REPLY_TIMEOUT_SECS) } else { None };
        keyboard_outcome(sent, answer)
    }
}

} // verus!

verus! {

/// A batch resolves only as a whole: it succeeds exactly when every
/// operation resolves, giving one resolved operation per operation in order;
/// otherwise it fails with the message of the first operation that does not
/// resolve — so an unknown key or modifier rejects the batch before any event
/// is sent.
pub proof fn lemma_batch_resolves_all_or_nothing(ops: Seq<KeyOp>, syms: Seq<Vec<u32>>, table: KeymapTable)
    requires
        syms.len() == ops.len(),
    ensures
        resolve_ops(ops, syms, table) is Ok <==> forall|i: int|
            0 <= i < ops.len() ==> #[trigger] resolve_op(ops[i], syms[i]@, table) is Ok,
        resolve_ops(ops, syms, table) matches Ok(rs) ==> rs.len() == ops.len() && forall|i: int|
            0 <= i < ops.len() ==> resolve_op(ops[i], syms[i]@, table) == Ok::<ResolvedKeyOp, Seq<char>>(
                #[trigger] rs[i],
            ),
        resolve_ops(ops, syms, table) matches Err(e) ==> exists|i: int|
            0 <= i < ops.len() && resolve_op(ops[i], syms[i]@, table) == Err::<ResolvedKeyOp, Seq<char>>(e)
                && forall|j: int| 0 <= j < i ==> #[trigger] resolve_op(ops[j], syms[j]@, table) is Ok,
    decreases ops.len(),
{
    if ops.len() > 0 {
        let n = ops.len() - 1;
        let rest = ops.drop_last();
        let srest = syms.take(n);
        lemma_batch_resolves_all_or_nothing(rest, srest, table);
        assert forall|i: int| 0 <= i < n implies rest[i] == ops[i] && srest[i] == syms[i] by {}
        match resolve_ops(rest, srest, table) {
            Err(e) => {
                let i = choose|i: int|
                    0 <= i < rest.len() && resolve_op(rest[i], srest[i]@, table) == Err::<ResolvedKeyOp, Seq<char>>(e)
                        && forall|j: int| 0 <= j < i ==> #[trigger] resolve_op(rest[j], srest[j]@, table) is Ok;
                assert(resolve_op(ops[i], syms[i]@, table) == Err::<ResolvedKeyOp, Seq<char>>(e));
                assert forall|j: int| 0 <= j < i implies #[trigger] resolve_op(ops[j], syms[j]@, table) is Ok by {
                    assert(resolve_op(rest[j], srest[j]@, table) is Ok);
                }
            },
            Ok(done) => {
                assert forall|i: int| 0 <= i < n implies #[trigger] resolve_op(ops[i], syms[i]@, table) is Ok by {
                    assert(resolve_op(rest[i], srest[i]@, table) is Ok);
                }
                match resolve_op(ops[n], syms[n]@, table) {
                    Err(e) => {
                    },
                    Ok(r) => {
                        let rs = done.push(r);
                        assert forall|i: int| 0 <= i < ops.len() implies resolve_op(ops[i], syms[i]@, table)
                            == Ok::<ResolvedKeyOp, Seq<char>>(#[trigger] rs[i]) by {
                            if i < n {
                                assert(resolve_op(rest[i], srest[i]@, table) == Ok::<ResolvedKeyOp, Seq<char>>(done[i]));
                            }
                        }
                    },
                }
            },
        }
    }
}

} // verus!
