//! Fingerprint over everything that affects targeting: the sorted set of
//! active monitors with position, logical extents, scale, and transform.
//! Not sufficient alone (change-and-restore); always paired with generation.
use vstd::prelude::*;
use vstd::relations::{sorted_by, total_ordering};
use crate::monitor::{Monitor, logical_extents};
use crate::text::{dec_text, signed_text, push_decimal, push_signed, is_digit, lemma_dec_text_digits, lemma_signed_text_chars, lemma_signed_text_injective, lemma_dec_text_injective, lemma_split_first, lemma_split_last};

verus! {

/// Lexicographic order on texts by code point — the order of `String`'s
/// `Ord` (UTF-8 byte order agrees with code point order).
pub open spec fn text_le(a: Seq<char>, b: Seq<char>) -> bool
    decreases a.len(),
{
    if a.len() == 0 {
        true
    } else if b.len() == 0 {
        false
    } else if a[0] != b[0] {
        (a[0] as int) < (b[0] as int)
    } else {
        text_le(a.drop_first(), b.drop_first())
    }
}

pub open spec fn text_order() -> spec_fn(Seq<char>, Seq<char>) -> bool {
    |a: Seq<char>, b: Seq<char>| text_le(a, b)
}

proof fn lemma_text_le_reflexive(a: Seq<char>)
    ensures
        text_le(a, a),
    decreases a.len(),
{
    if a.len() > 0 {
        lemma_text_le_reflexive(a.drop_first());
    }
}

proof fn lemma_text_le_antisymmetric(a: Seq<char>, b: Seq<char>)
    requires
        text_le(a, b),
        text_le(b, a),
    ensures
        a == b,
    decreases a.len(),
{
    if a.len() == 0 {
        assert(b.len() == 0);
        assert(a =~= b);
    } else {
        assert(b.len() > 0);
        assert(a[0] == b[0]);
        lemma_text_le_antisymmetric(a.drop_first(), b.drop_first());
        assert(a =~= seq![a[0]] + a.drop_first());
        assert(b =~= seq![b[0]] + b.drop_first());
    }
}

pub proof fn lemma_text_le_transitive(a: Seq<char>, b: Seq<char>, c: Seq<char>)
    requires
        text_le(a, b),
        text_le(b, c),
    ensures
        text_le(a, c),
    decreases a.len(),
{
    if a.len() > 0 && b.len() > 0 && c.len() > 0 {
        if a[0] == b[0] && b[0] == c[0] {
            lemma_text_le_transitive(a.drop_first(), b.drop_first(), c.drop_first());
        }
    }
}

pub proof fn lemma_text_le_total(a: Seq<char>, b: Seq<char>)
    ensures
        text_le(a, b) || text_le(b, a),
    decreases a.len(),
{

    if a.len() > 0 && b.len() > 0 && a[0] == b[0] {
        lemma_text_le_total(a.drop_first(), b.drop_first());
    }
}

/// `text_le` is a total order.
pub proof fn lemma_text_order_total()
    ensures
        total_ordering(text_order()),
{
    assert forall|a: Seq<char>| #[trigger] text_order()(a, a) by {
        lemma_text_le_reflexive(a);
    }
    assert forall|a: Seq<char>, b: Seq<char>|
        #[trigger] text_order()(a, b) && #[trigger] text_order()(b, a) implies a == b by {
        lemma_text_le_antisymmetric(a, b);
    }
    assert forall|a: Seq<char>, b: Seq<char>, c: Seq<char>|
        #[trigger] text_order()(a, b) && #[trigger] text_order()(b, c) implies text_order()(a, c) by {
        lemma_text_le_transitive(a, b, c);
    }
    assert forall|a: Seq<char>, b: Seq<char>|
        #[trigger] text_order()(a, b) || #[trigger] text_order()(b, a) by {
        lemma_text_le_total(a, b);
    }
}

/// Two sequences sorted by a total order with the same elements are equal.
pub proof fn lemma_sorted_unique(a: Seq<Seq<char>>, b: Seq<Seq<char>>)
    requires
        total_ordering(text_order()),
        sorted_by(a, text_order()),
        sorted_by(b, text_order()),
        a.to_multiset() == b.to_multiset(),
    ensures
        a == b,
    decreases a.len(),
{
    broadcast use vstd::seq_lib::group_to_multiset_ensures;

    assert(a.to_multiset().len() == a.len());
    assert(b.to_multiset().len() == b.len());
    if a.len() == 0 {
        assert(b.len() == 0);
        assert(a =~= b);
    } else {
        assert(b.len() == a.len());
        let x = a[0];
        let y = b[0];
        assert(a.to_multiset().count(y) > 0);
        assert(b.to_multiset().count(x) > 0);
        assert(a.contains(y));
        assert(b.contains(x));
        let i = choose|i: int| 0 <= i < a.len() && a[i] == y;
        let j = choose|j: int| 0 <= j < b.len() && b[j] == x;
        if i > 0 {
            assert(text_order()(a[0], a[i]));
        }
        if j > 0 {
            assert(text_order()(b[0], b[j]));
        }
        assert(text_order()(x, y));
        assert(text_order()(y, x));
        assert(x == y);
        assert(a.remove(0) =~= a.drop_first());
        assert(b.remove(0) =~= b.drop_first());
        assert(a.drop_first().to_multiset() == a.to_multiset().remove(x));
        assert(b.drop_first().to_multiset() == b.to_multiset().remove(y));
        assert forall|p: int, q: int| 0 <= p < q < a.drop_first().len() implies
            #[trigger] text_order()(a.drop_first()[p], a.drop_first()[q]) by {
            assert(text_order()(a[p + 1], a[q + 1]));
        }
        assert forall|p: int, q: int| 0 <= p < q < b.drop_first().len() implies
            #[trigger] text_order()(b.drop_first()[p], b.drop_first()[q]) by {
            assert(text_order()(b[p + 1], b[q + 1]));
        }
        lemma_sorted_unique(a.drop_first(), b.drop_first());
        assert(a =~= seq![x] + a.drop_first());
        assert(b =~= seq![y] + b.drop_first());
    }
}

/// The texts of a list of strings.
pub open spec fn texts(v: Seq<String>) -> Seq<Seq<char>> {
    v.map_values(|s: String| s@)
}

/// The text a monitor contributes: `name:x,y,WxH,sSCALE,tTRANSFORM`.
pub open spec fn fingerprint_part(m: Monitor) -> Seq<char> {
    m.name@ + ":"@ + signed_text(m.x as int) + ","@ + signed_text(m.y as int) + ","@ + dec_text(
        logical_extents(m).0 as nat,
    ) + "x"@ + dec_text(logical_extents(m).1 as nat) + ",s"@ + m.scale@ + ",t"@ + dec_text(
        m.transform as nat,
    )
}

/// The parts of the enabled monitors, in list order.
pub open spec fn fingerprint_parts(ms: Seq<Monitor>) -> Seq<Seq<char>>
    decreases ms.len(),
{
    if ms.len() == 0 {
        Seq::empty()
    } else {
        let r = fingerprint_parts(ms.drop_last());
        if ms.last().disabled {
            r
        } else {
            r.push(fingerprint_part(ms.last()))
        }
    }
}

/// What `Hash` of a `Vec<String>` fed to a fresh `DefaultHasher` finishes as.
pub uninterp spec fn text_list_hash(parts: Seq<Seq<char>>) -> u64;

/// The fingerprint: the hash of the sorted parts.
pub open spec fn fingerprint_of(ms: Seq<Monitor>) -> u64 {
    text_list_hash(fingerprint_parts(ms).sort_by(text_order()))
}

/// Hashes the strings with `BuildHasher::hash_one` of a default-built
/// `std::collections::hash_map::DefaultHasher` (the same as `Hash::hash` into
/// `DefaultHasher::new()` followed by `finish`).  That hasher is not seeded
/// per process, so the result is named as a function of the texts.
#[verifier::external_body]
fn hash_texts(parts: &Vec<String>) -> (h: u64)
    ensures
        h == text_list_hash(texts(parts@)),
{
    std::hash::BuildHasher::hash_one(
        &std::hash::BuildHasherDefault::<std::collections::hash_map::DefaultHasher>::default(),
        parts,
    )
}

/// Compares two texts in `text_le` order.
pub fn text_le_exec(a: &str, b: &str) -> (r: bool)
    ensures
        r == text_le(a@, b@),
{
    let na = a.unicode_len();
    let nb = b.unicode_len();
    let mut i: usize = 0;
    assert(a@.skip(0) =~= a@);
    assert(b@.skip(0) =~= b@);
    while i < na && i < nb
        invariant
            0 <= i <= na,
            i <= nb,
            na == a@.len(),
            nb == b@.len(),
            text_le(a@, b@) == text_le(a@.skip(i as int), b@.skip(i as int)),
        decreases na - i,
    {
        let ca = a.get_char(i);
        let cb = b.get_char(i);
        assert(a@.skip(i as int)[0] == ca);
        assert(b@.skip(i as int)[0] == cb);
        if ca != cb {
            return (ca as u32) < (cb as u32);
        }
        assert(a@.skip(i as int).drop_first() =~= a@.skip(i + 1));
        assert(b@.skip(i as int).drop_first() =~= b@.skip(i + 1));
        i = i + 1;
    }
    i == na
}

fn fingerprint_part_exec(m: &Monitor) -> (s: String)
    ensures
        s@ == fingerprint_part(*m),
{
    let (w, h) = m.logical_size();
    let mut s = m.name.clone();
    s.append(":");
    push_signed(&mut s, m.x as i64);
    s.append(",");
    push_signed(&mut s, m.y as i64);
    s.append(",");
    push_decimal(&mut s, w as u64);
    s.append("x");
    push_decimal(&mut s, h as u64);
    s.append(",s");
    s.append(m.scale.as_str());
    s.append(",t");
    push_decimal(&mut s, m.transform as u64);
    s
}

/// Inserts `x` after every element not above it.
fn insert_sorted(v: &mut Vec<String>, x: String)
    requires
        total_ordering(text_order()),
        sorted_by(texts(old(v)@), text_order()),
    ensures
        sorted_by(texts(final(v)@), text_order()),
        texts(final(v)@).to_multiset() == texts(old(v)@).to_multiset().insert(x@),
{
    broadcast use vstd::seq_lib::group_to_multiset_ensures;

    let mut j: usize = 0;
    while j < v.len() && text_le_exec(v[j].as_str(), x.as_str())
        invariant
            0 <= j <= v@.len(),
            v@ == old(v)@,
            forall|k: int| 0 <= k < j ==> text_order()(#[trigger] texts(v@)[k], x@),
        decreases v@.len() - j,
    {
        j = j + 1;
    }
    let ghost before = texts(v@);
    let ghost xv = x@;
    v.insert(j, x);
    assert(texts(v@) =~= before.insert(j as int, xv));
    proof {
        vstd::seq_lib::to_multiset_insert(before, j as int, xv);
        if j < before.len() {
            assert(!text_order()(before[j as int], xv));
        }
        assert forall|p: int, q: int| 0 <= p < q < texts(v@).len() implies
            #[trigger] text_order()(texts(v@)[p], texts(v@)[q]) by {
            let t = texts(v@);
            if q < j {
                assert(t[p] == before[p] && t[q] == before[q]);
            } else if q == j {
                assert(t[p] == before[p]);
            } else if p == j {
                assert(t[q] == before[q - 1]);
                assert(!text_order()(before[j as int], xv));
                assert(text_order()(xv, before[j as int]));
                if q - 1 > j {
                    assert(text_order()(before[j as int], before[q - 1]));
                }
            } else if p < j {
                assert(t[p] == before[p] && t[q] == before[q - 1]);
            } else {
                assert(t[p] == before[p - 1] && t[q] == before[q - 1]);
            }
        }
    }
}

/// Fingerprint over everything that affects targeting: the sorted set of
/// active monitors with position, logical extents, scale, and transform.
pub fn fingerprint(monitors: &[Monitor]) -> (h: u64)
    ensures
        h == fingerprint_of(monitors@),
{
    broadcast use vstd::seq_lib::group_to_multiset_ensures;

    proof {
        lemma_text_order_total();
    }
    let mut parts: Vec<String> = Vec::new();
    let mut i: usize = 0;
    while i < monitors.len()
        invariant
            0 <= i <= monitors@.len(),
            total_ordering(text_order()),
            sorted_by(texts(parts@), text_order()),
            texts(parts@).to_multiset() == fingerprint_parts(monitors@.take(i as int)).to_multiset(),
        decreases monitors@.len() - i,
    {
        let m = &monitors[i];
        assert(monitors@.take(i + 1).drop_last() =~= monitors@.take(i as int));
        assert(monitors@.take(i + 1).last() == monitors@[i as int]);
        if !m.disabled {
            let part = fingerprint_part_exec(m);
            assert(fingerprint_parts(monitors@.take(i + 1)) == fingerprint_parts(
                monitors@.take(i as int),
            ).push(part@));
            proof {
                vstd::seq_lib::to_multiset_build(fingerprint_parts(monitors@.take(i as int)), part@);
            }
            insert_sorted(&mut parts, part);
        } else {
            assert(fingerprint_parts(monitors@.take(i + 1)) == fingerprint_parts(
                monitors@.take(i as int),
            ));
        }
        i = i + 1;
    }
    assert(monitors@.take(monitors@.len() as int) =~= monitors@);
    proof {
        let all = fingerprint_parts(monitors@);
        all.lemma_sort_by_ensures(text_order());
        lemma_sorted_unique(texts(parts@), all.sort_by(text_order()));
    }
    hash_texts(&parts)
}

} // verus!

verus! {

proof fn lemma_parts_of_enabled(ms: Seq<Monitor>)
    ensures
        fingerprint_parts(ms.filter(|m: Monitor| crate::monitor::is_enabled(m))) == fingerprint_parts(ms),
    decreases ms.len(),
{
    let p = |m: Monitor| crate::monitor::is_enabled(m);
    if ms.len() == 0 {
        reveal(Seq::filter);
        assert(ms.filter(p) =~= ms);
    } else {
        let rest = ms.drop_last();
        lemma_parts_of_enabled(rest);
        assert(ms =~= rest.push(ms.last()));
        rest.lemma_filter_push(ms.last(), p);
        let f = ms.filter(p);
        if !ms.last().disabled {
            assert(f == rest.filter(p).push(ms.last()));
            assert(f.drop_last() =~= rest.filter(p));
        } else {
            assert(f == rest.filter(p));
        }
    }
}

proof fn lemma_parts_remove(s: Seq<Monitor>, k: int)
    requires
        0 <= k < s.len(),
    ensures
        fingerprint_parts(s).to_multiset() == if s[k].disabled {
            fingerprint_parts(s.remove(k)).to_multiset()
        } else {
            fingerprint_parts(s.remove(k)).to_multiset().insert(fingerprint_part(s[k]))
        },
    decreases s.len(),
{
    broadcast use vstd::seq_lib::group_to_multiset_ensures;
    broadcast use vstd::multiset::group_multiset_axioms;

    let rest = s.drop_last();
    if k == s.len() - 1 {
        assert(s.remove(k) =~= rest);
        if !s[k].disabled {
            vstd::seq_lib::to_multiset_build(fingerprint_parts(rest), fingerprint_part(s[k]));
        }
    } else {
        lemma_parts_remove(rest, k);
        let r = s.remove(k);
        assert(r.drop_last() =~= rest.remove(k));
        assert(r.last() == s.last());
        assert(rest[k] == s[k]);
        let a = fingerprint_parts(rest.remove(k));
        if !s.last().disabled {
            vstd::seq_lib::to_multiset_build(a, fingerprint_part(s.last()));
            vstd::seq_lib::to_multiset_build(fingerprint_parts(rest), fingerprint_part(s.last()));
        }
        if !s.last().disabled && !s[k].disabled {
            assert(a.to_multiset().insert(fingerprint_part(s[k])).insert(fingerprint_part(s.last()))
                =~= a.to_multiset().insert(fingerprint_part(s.last())).insert(fingerprint_part(s[k])));
        }
    }
}

proof fn lemma_parts_permutation(a: Seq<Monitor>, b: Seq<Monitor>)
    requires
        a.to_multiset() == b.to_multiset(),
    ensures
        fingerprint_parts(a).to_multiset() == fingerprint_parts(b).to_multiset(),
    decreases a.len(),
{
    broadcast use vstd::seq_lib::group_to_multiset_ensures;
    broadcast use vstd::multiset::group_multiset_axioms;

    assert(a.to_multiset().len() == a.len());
    assert(b.to_multiset().len() == b.len());
    if a.len() == 0 {
        assert(b.len() == 0);
        assert(fingerprint_parts(a) =~= fingerprint_parts(b));
    } else {
        let m = a.last();
        let rest = a.drop_last();
        assert(a =~= rest.push(m));
        assert(a.to_multiset() == rest.to_multiset().insert(m));
        assert(b.to_multiset().count(m) > 0);
        assert(b.contains(m));
        let k = choose|k: int| 0 <= k < b.len() && b[k] == m;
        assert(b.remove(k).to_multiset() == b.to_multiset().remove(m));
        assert(rest.to_multiset() =~= b.remove(k).to_multiset());
        lemma_parts_permutation(rest, b.remove(k));
        lemma_parts_remove(b, k);
        if !m.disabled {
            vstd::seq_lib::to_multiset_build(fingerprint_parts(rest), fingerprint_part(m));
        }
    }
}

/// Disabled monitors do not affect the fingerprint: it is the same for a
/// list and for its selectable subset.
pub proof fn lemma_fingerprint_ignores_disabled(ms: Seq<Monitor>)
    ensures
        fingerprint_of(ms.filter(|m: Monitor| crate::monitor::is_enabled(m))) == fingerprint_of(ms),
{
    lemma_parts_of_enabled(ms);
}

/// The order in which the compositor lists its monitors does not affect the
/// fingerprint: two lists with the same monitors have the same fingerprint.
pub proof fn lemma_fingerprint_order_independent(a: Seq<Monitor>, b: Seq<Monitor>)
    requires
        a.to_multiset() == b.to_multiset(),
    ensures
        fingerprint_of(a) == fingerprint_of(b),
{
    lemma_text_order_total();
    lemma_parts_permutation(a, b);
    let pa = fingerprint_parts(a);
    let pb = fingerprint_parts(b);
    pa.lemma_sort_by_ensures(text_order());
    pb.lemma_sort_by_ensures(text_order());
    lemma_sorted_unique(pa.sort_by(text_order()), pb.sort_by(text_order()));
}

/// What a monitor's targeting depends on: name, position, logical
/// extents, scale text and transform.
pub open spec fn targeting_facts(m: Monitor) -> (Seq<char>, i32, i32, (u32, u32), Seq<char>, u8) {
    (m.name@, m.x, m.y, logical_extents(m), m.scale@, m.transform)
}

/// The targeting facts of the enabled monitors, in list order.
pub open spec fn enabled_facts(ms: Seq<Monitor>) -> Seq<(Seq<char>, i32, i32, (u32, u32), Seq<char>, u8)>
    decreases ms.len(),
{
    if ms.len() == 0 {
        Seq::empty()
    } else {
        let r = enabled_facts(ms.drop_last());
        if ms.last().disabled {
            r
        } else {
            r.push(targeting_facts(ms.last()))
        }
    }
}

/// The fingerprint text of a monitor with these targeting facts.
pub open spec fn part_of_facts(f: (Seq<char>, i32, i32, (u32, u32), Seq<char>, u8)) -> Seq<char> {
    f.0 + ":"@ + signed_text(f.1 as int) + ","@ + signed_text(f.2 as int) + ","@ + dec_text(f.3.0 as nat)
        + "x"@ + dec_text(f.3.1 as nat) + ",s"@ + f.4 + ",t"@ + dec_text(f.5 as nat)
}

proof fn lemma_parts_are_facts(ms: Seq<Monitor>)
    ensures
        fingerprint_parts(ms) == enabled_facts(ms).map_values(
            |f: (Seq<char>, i32, i32, (u32, u32), Seq<char>, u8)| part_of_facts(f),
        ),
    decreases ms.len(),
{
    let pf = |f: (Seq<char>, i32, i32, (u32, u32), Seq<char>, u8)| part_of_facts(f);
    if ms.len() == 0 {
        assert(fingerprint_parts(ms) =~= enabled_facts(ms).map_values(pf));
    } else {
        lemma_parts_are_facts(ms.drop_last());
        if !ms.last().disabled {
            assert(fingerprint_part(ms.last()) == part_of_facts(targeting_facts(ms.last())));
            assert(fingerprint_parts(ms) =~= enabled_facts(ms).map_values(pf));
        }
    }
}

/// Mapping two sequences with the same elements gives sequences with the
/// same elements.
proof fn lemma_map_permutation<A, B>(s: Seq<A>, t: Seq<A>, f: spec_fn(A) -> B)
    requires
        s.to_multiset() == t.to_multiset(),
    ensures
        s.map_values(f).to_multiset() == t.map_values(f).to_multiset(),
    decreases s.len(),
{
    broadcast use vstd::seq_lib::group_to_multiset_ensures;
    broadcast use vstd::multiset::group_multiset_axioms;

    assert(s.to_multiset().len() == s.len());
    assert(t.to_multiset().len() == t.len());
    if s.len() == 0 {
        assert(t.len() == 0);
        assert(s.map_values(f) =~= t.map_values(f));
    } else {
        let x = s.last();
        let rest = s.drop_last();
        assert(s =~= rest.push(x));
        assert(s.to_multiset() == rest.to_multiset().insert(x));
        assert(t.to_multiset().count(x) > 0);
        assert(t.contains(x));
        let k = choose|k: int| 0 <= k < t.len() && t[k] == x;
        assert(t.remove(k).to_multiset() == t.to_multiset().remove(x));
        assert(rest.to_multiset() =~= t.remove(k).to_multiset());
        lemma_map_permutation(rest, t.remove(k), f);
        assert(s.map_values(f) =~= rest.map_values(f).push(f(x)));
        vstd::seq_lib::to_multiset_build(rest.map_values(f), f(x));
        let tm = t.map_values(f);
        assert(tm.remove(k) =~= t.remove(k).map_values(f));
        vstd::seq_lib::to_multiset_remove(tm, k);
        assert(tm[k] == f(x));
        assert(tm.to_multiset() =~= tm.remove(k).to_multiset().insert(f(x)));
    }
}

/// The fingerprint depends only on what targeting depends on: two monitor
/// lists whose enabled monitors correspond one to one with equal name,
/// position, logical extents, scale and transform have the same fingerprint,
/// whatever the order, the disabled monitors, the descriptions, ids and
/// physical modes.
pub proof fn lemma_fingerprint_depends_on_targeting_facts(a: Seq<Monitor>, b: Seq<Monitor>)
    requires
        enabled_facts(a).to_multiset() == enabled_facts(b).to_multiset(),
    ensures
        fingerprint_of(a) == fingerprint_of(b),
{
    let pf = |f: (Seq<char>, i32, i32, (u32, u32), Seq<char>, u8)| part_of_facts(f);
    lemma_text_order_total();
    lemma_parts_are_facts(a);
    lemma_parts_are_facts(b);
    lemma_map_permutation(enabled_facts(a), enabled_facts(b), pf);
    let pa = fingerprint_parts(a);
    let pb = fingerprint_parts(b);
    pa.lemma_sort_by_ensures(text_order());
    pb.lemma_sort_by_ensures(text_order());
    lemma_sorted_unique(pa.sort_by(text_order()), pb.sort_by(text_order()));
}

/// A text of digits (and `-`) holds no other character.
proof fn lemma_number_lacks(t: Seq<char>, c: char)
    requires
        forall|k: int| 0 <= k < t.len() ==> is_digit(#[trigger] t[k]) || t[k] == '-',
        !is_digit(c),
        c != '-',
    ensures
        !t.contains(c),
{
    if t.contains(c) {
        let k = choose|k: int| 0 <= k < t.len() && t[k] == c;
        assert(is_digit(t[k]) || t[k] == '-');
    }
}

/// The targeting facts of a monitor, as one tuple.
pub type Facts = (Seq<char>, i32, i32, (u32, u32), Seq<char>, u8);

/// The fingerprint text of a monitor's facts, cut at its separators.
proof fn lemma_part_shape(f: Facts)
    ensures
        part_of_facts(f) == f.0 + seq![':'] + (signed_text(f.1 as int) + seq![','] + (signed_text(f.2 as int)
            + seq![','] + (dec_text(f.3.0 as nat) + seq!['x'] + (dec_text(f.3.1 as nat) + seq![',']
            + ((seq!['s'] + f.4 + seq![',']) + seq!['t'] + dec_text(f.5 as nat)))))),
        forall|k: int| 0 <= k < signed_text(f.1 as int).len() ==> is_digit(#[trigger] signed_text(f.1 as int)[k])
            || signed_text(f.1 as int)[k] == '-',
        forall|k: int| 0 <= k < signed_text(f.2 as int).len() ==> is_digit(#[trigger] signed_text(f.2 as int)[k])
            || signed_text(f.2 as int)[k] == '-',
        forall|k: int| 0 <= k < dec_text(f.3.0 as nat).len() ==> is_digit(#[trigger] dec_text(f.3.0 as nat)[k]),
        forall|k: int| 0 <= k < dec_text(f.3.1 as nat).len() ==> is_digit(#[trigger] dec_text(f.3.1 as nat)[k]),
        forall|k: int| 0 <= k < dec_text(f.5 as nat).len() ==> is_digit(#[trigger] dec_text(f.5 as nat)[k]),
{
    reveal_strlit(":");
    reveal_strlit(",");
    reveal_strlit("x");
    reveal_strlit(",s");
    reveal_strlit(",t");
    assert(part_of_facts(f) =~= f.0 + seq![':'] + (signed_text(f.1 as int) + seq![','] + (signed_text(
        f.2 as int,
    ) + seq![','] + (dec_text(f.3.0 as nat) + seq!['x'] + (dec_text(f.3.1 as nat) + seq![',']
        + ((seq!['s'] + f.4 + seq![',']) + seq!['t'] + dec_text(f.5 as nat)))))));
    lemma_signed_text_chars(f.1 as int);
    lemma_signed_text_chars(f.2 as int);
    lemma_dec_text_digits(f.3.0 as nat);
    lemma_dec_text_digits(f.3.1 as nat);
    lemma_dec_text_digits(f.5 as nat);
}

/// Facts whose name holds no `:` are recovered from their fingerprint text.
proof fn lemma_part_of_facts_injective(g1: Facts, g2: Facts)
    requires
        !g1.0.contains(':'),
        !g2.0.contains(':'),
        part_of_facts(g1) == part_of_facts(g2),
    ensures
        g1 == g2,
{
    lemma_part_shape(g1);
    lemma_part_shape(g2);
    let x1 = signed_text(g1.1 as int);
    let x2 = signed_text(g2.1 as int);
    let y1 = signed_text(g1.2 as int);
    let y2 = signed_text(g2.2 as int);
    let w1 = dec_text(g1.3.0 as nat);
    let w2 = dec_text(g2.3.0 as nat);
    let h1 = dec_text(g1.3.1 as nat);
    let h2 = dec_text(g2.3.1 as nat);
    let t1 = dec_text(g1.5 as nat);
    let t2 = dec_text(g2.5 as nat);
    let s1 = seq!['s'] + g1.4 + seq![','];
    let s2 = seq!['s'] + g2.4 + seq![','];
    let r4a = h1 + seq![','] + (s1 + seq!['t'] + t1);
    let r4b = h2 + seq![','] + (s2 + seq!['t'] + t2);
    let r3a = w1 + seq!['x'] + r4a;
    let r3b = w2 + seq!['x'] + r4b;
    let r2a = y1 + seq![','] + r3a;
    let r2b = y2 + seq![','] + r3b;
    let r1a = x1 + seq![','] + r2a;
    let r1b = x2 + seq![','] + r2b;
    assert(!is_digit(','));
    assert(!is_digit('x'));
    assert(!is_digit('t'));
    lemma_split_first(g1.0, r1a, g2.0, r1b, ':');
    lemma_number_lacks(x1, ',');
    lemma_number_lacks(x2, ',');
    lemma_split_first(x1, r2a, x2, r2b, ',');
    lemma_number_lacks(y1, ',');
    lemma_number_lacks(y2, ',');
    lemma_split_first(y1, r3a, y2, r3b, ',');
    lemma_number_lacks(w1, 'x');
    lemma_number_lacks(w2, 'x');
    lemma_split_first(w1, r4a, w2, r4b, 'x');
    lemma_number_lacks(h1, ',');
    lemma_number_lacks(h2, ',');
    lemma_split_first(h1, s1 + seq!['t'] + t1, h2, s2 + seq!['t'] + t2, ',');
    lemma_number_lacks(t1, 't');
    lemma_number_lacks(t2, 't');
    lemma_split_last(s1, t1, s2, t2, 't');
    assert(s1.subrange(1, s1.len() - 1) =~= g1.4);
    assert(s2.subrange(1, s2.len() - 1) =~= g2.4);
    lemma_signed_text_injective(g1.1 as int, g2.1 as int);
    lemma_signed_text_injective(g1.2 as int, g2.2 as int);
    lemma_dec_text_injective(g1.3.0 as nat, g2.3.0 as nat);
    lemma_dec_text_injective(g1.3.1 as nat, g2.3.1 as nat);
    lemma_dec_text_injective(g1.5 as nat, g2.5 as nat);
}

/// A monitor's fingerprint text determines everything targeting depends on:
/// two monitors (named without `:`, as compositor output names are) with the
/// same text have the same name, position, logical extents, scale and
/// transform — so moving, resizing, rescaling or rotating a monitor changes
/// its text.
pub proof fn lemma_fingerprint_part_determines_facts(m1: Monitor, m2: Monitor)
    requires
        !m1.name@.contains(':'),
        !m2.name@.contains(':'),
        fingerprint_part(m1) == fingerprint_part(m2),
    ensures
        targeting_facts(m1) == targeting_facts(m2),
{
    assert(fingerprint_part(m1) == part_of_facts(targeting_facts(m1)));
    assert(fingerprint_part(m2) == part_of_facts(targeting_facts(m2)));
    lemma_part_of_facts_injective(targeting_facts(m1), targeting_facts(m2));
}

/// No name of the facts holds `:` when no monitor name does.
proof fn lemma_facts_names(ms: Seq<Monitor>)
    requires
        forall|i: int| 0 <= i < ms.len() ==> !(#[trigger] ms[i]).name@.contains(':'),
    ensures
        forall|i: int| 0 <= i < enabled_facts(ms).len() ==> !(#[trigger] enabled_facts(ms)[i]).0.contains(':'),
    decreases ms.len(),
{
    if ms.len() > 0 {
        let rest = ms.drop_last();
        assert forall|i: int| 0 <= i < rest.len() implies !(#[trigger] rest[i]).name@.contains(':') by {
            assert(rest[i] == ms[i]);
        }
        lemma_facts_names(rest);
        assert(ms[ms.len() - 1] == ms.last());
        assert(!ms.last().name@.contains(':'));
        let e = enabled_facts(ms);
        let er = enabled_facts(rest);
        assert forall|i: int| 0 <= i < e.len() implies !(#[trigger] e[i]).0.contains(':') by {
            if i < er.len() {
                assert(e[i] == er[i]);
            } else {
                assert(e[i] == targeting_facts(ms.last()));
            }
        }
    }
}

/// Texts of facts (named without `:`) with the same elements come from
/// facts with the same elements.
proof fn lemma_parts_multiset_injective(s: Seq<Facts>, t: Seq<Facts>)
    requires
        forall|i: int| 0 <= i < s.len() ==> !(#[trigger] s[i]).0.contains(':'),
        forall|i: int| 0 <= i < t.len() ==> !(#[trigger] t[i]).0.contains(':'),
        s.map_values(|f: Facts| part_of_facts(f)).to_multiset() == t.map_values(
            |f: Facts| part_of_facts(f),
        ).to_multiset(),
    ensures
        s.to_multiset() == t.to_multiset(),
    decreases s.len(),
{
    broadcast use vstd::seq_lib::group_to_multiset_ensures;
    broadcast use vstd::multiset::group_multiset_axioms;

    let pf = |f: Facts| part_of_facts(f);
    let sm = s.map_values(pf);
    let tm = t.map_values(pf);
    assert(sm.to_multiset().len() == s.len());
    assert(tm.to_multiset().len() == t.len());
    if s.len() == 0 {
        assert(t.len() == 0);
        assert(s =~= t);
    } else {
        let x = s.last();
        let rest = s.drop_last();
        assert(sm =~= rest.map_values(pf).push(pf(x)));
        vstd::seq_lib::to_multiset_build(rest.map_values(pf), pf(x));
        assert(tm.to_multiset().count(pf(x)) > 0);
        assert(tm.contains(pf(x)));
        let k = choose|k: int| 0 <= k < tm.len() && tm[k] == pf(x);
        assert(s[s.len() - 1] == x);
        lemma_part_of_facts_injective(t[k], x);
        assert(tm.remove(k) =~= t.remove(k).map_values(pf));
        vstd::seq_lib::to_multiset_remove(tm, k);
        assert(rest.map_values(pf).to_multiset() =~= t.remove(k).map_values(pf).to_multiset());
        assert forall|i: int| 0 <= i < rest.len() implies !(#[trigger] rest[i]).0.contains(':') by {
            assert(rest[i] == s[i]);
        }
        assert forall|i: int| 0 <= i < t.remove(k).len() implies !(#[trigger] t.remove(k)[i]).0.contains(':') by {
            if i < k {
                assert(t.remove(k)[i] == t[i]);
            } else {
                assert(t.remove(k)[i] == t[i + 1]);
            }
        }
        lemma_parts_multiset_injective(rest, t.remove(k));
        vstd::seq_lib::to_multiset_remove(t, k);
        assert(s =~= rest.push(x));
        vstd::seq_lib::to_multiset_build(rest, x);
        assert(s.to_multiset() =~= t.to_multiset());
    }
}

/// The fingerprint's input determines the layout: two monitor lists (named
/// without `:`) whose sorted fingerprint texts are equal have enabled
/// monitors that correspond one to one with equal name, position, logical
/// extents, scale and transform.
pub proof fn lemma_fingerprint_parts_determine_layout(a: Seq<Monitor>, b: Seq<Monitor>)
    requires
        forall|i: int| 0 <= i < a.len() ==> !(#[trigger] a[i]).name@.contains(':'),
        forall|i: int| 0 <= i < b.len() ==> !(#[trigger] b[i]).name@.contains(':'),
        fingerprint_parts(a).sort_by(text_order()) == fingerprint_parts(b).sort_by(text_order()),
    ensures
        enabled_facts(a).to_multiset() == enabled_facts(b).to_multiset(),
{
    lemma_text_order_total();
    fingerprint_parts(a).lemma_sort_by_ensures(text_order());
    fingerprint_parts(b).lemma_sort_by_ensures(text_order());
    lemma_parts_are_facts(a);
    lemma_parts_are_facts(b);
    lemma_facts_names(a);
    lemma_facts_names(b);
    lemma_parts_multiset_injective(enabled_facts(a), enabled_facts(b));
}

} // verus!
