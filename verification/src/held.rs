//! Bookkeeping shared by the virtual pointer and keyboard sessions: the set
//! of currently held codes (buttons or keys) and the session's event clock.
use vstd::prelude::*;

verus! {

/// The event clock advanced by `k` one-millisecond ticks, wrapping at 2^32.
pub open spec fn ticks(t: u32, k: nat) -> u32
    decreases k,
{
    if k == 0 {
        t
    } else {
        ticks(t, (k - 1) as nat).wrapping_add(1)
    }
}

/// Codes other than `code`.
pub open spec fn differs_from(code: u32) -> spec_fn(u32) -> bool {
    |c: u32| c != code
}

/// The held codes after `code` is pressed: appended unless already held.
pub open spec fn with_code(held: Seq<u32>, code: u32) -> Seq<u32> {
    if held.contains(code) {
        held
    } else {
        held.push(code)
    }
}

/// The held codes after `code` is released.
pub open spec fn without_code(held: Seq<u32>, code: u32) -> Seq<u32> {
    held.filter(differs_from(code))
}

/// Records a press of `code`.
pub fn insert_code(held: &mut Vec<u32>, code: u32)
    ensures
        final(held)@ == with_code(old(held)@, code),
        old(held)@.no_duplicates() ==> final(held)@.no_duplicates(),
{
    let mut i: usize = 0;
    while i < held.len()
        invariant
            0 <= i <= held@.len(),
            held@ == old(held)@,
            forall|j: int| 0 <= j < i ==> held@[j] != code,
        decreases held@.len() - i,
    {
        if held[i] == code {
            assert(held@.contains(code));
            return;
        }
        i = i + 1;
    }
    assert(!held@.contains(code));
    held.push(code);
    proof {
        if old(held)@.no_duplicates() {
            lemma_with_code_no_duplicates(old(held)@, code);
        }
    }
}

/// Records a release of `code`.
pub fn remove_code(held: &mut Vec<u32>, code: u32)
    ensures
        final(held)@ == without_code(old(held)@, code),
        old(held)@.no_duplicates() ==> final(held)@.no_duplicates(),
{
    broadcast use vstd::seq_lib::group_seq_properties;

    let mut kept: Vec<u32> = Vec::new();
    let mut i: usize = 0;
    while i < held.len()
        invariant
            0 <= i <= held@.len(),
            held@ == old(held)@,
            kept@ == held@.take(i as int).filter(differs_from(code)),
        decreases held@.len() - i,
    {
        let c = held[i];
        assert(held@.take(i + 1) =~= held@.take(i as int).push(c));
        proof { held@.take(i as int).lemma_filter_push(c, differs_from(code)); }
        if c != code {
            kept.push(c);
        }
        i = i + 1;
    }
    assert(held@.take(held@.len() as int) =~= held@);
    proof {
        if held@.no_duplicates() {
            lemma_without_code(held@, code);
        }
    }
    *held = kept;
}

/// Pressing a code never creates a duplicate entry.
pub proof fn lemma_with_code_no_duplicates(held: Seq<u32>, code: u32)
    requires
        held.no_duplicates(),
    ensures
        with_code(held, code).no_duplicates(),
{
}

/// Releasing a code never creates a duplicate entry, and the code is gone.
pub proof fn lemma_without_code(held: Seq<u32>, code: u32)
    requires
        held.no_duplicates(),
    ensures
        without_code(held, code).no_duplicates(),
        !without_code(held, code).contains(code),
        forall|c: u32| c != code ==> (held.contains(c) <==> without_code(held, code).contains(c)),
    decreases held.len(),
{
    broadcast use vstd::seq_lib::group_seq_properties;

    if held.len() > 0 {
        let rest = held.drop_last();
        assert(rest.no_duplicates());
        lemma_without_code(rest, code);
        assert(held =~= rest.push(held.last()));
        rest.lemma_filter_push(held.last(), differs_from(code));
        let f = without_code(held, code);
        if held.last() != code {
            assert(f == without_code(rest, code).push(held.last()));
            assert(!rest.contains(held.last()));
            assert forall|c: u32| c != code implies (held.contains(c) <==> f.contains(c)) by {
                if held.contains(c) {
                    let k = choose|k: int| 0 <= k < held.len() && held[k] == c;
                    if k < rest.len() {
                        assert(rest[k] == c);
                    } else {
                        assert(f[f.len() - 1] == c);
                    }
                }
                if f.contains(c) {
                    let k = choose|k: int| 0 <= k < f.len() && f[k] == c;
                    if k < f.len() - 1 {
                        assert(without_code(rest, code)[k] == c);
                        assert(rest.contains(c));
                        let k2 = choose|k2: int| 0 <= k2 < rest.len() && rest[k2] == c;
                        assert(held[k2] == c);
                    } else {
                        assert(held[held.len() - 1] == c);
                    }
                }
            }
        } else {
            assert(f == without_code(rest, code));
            assert forall|c: u32| c != code implies (held.contains(c) <==> f.contains(c)) by {
                if held.contains(c) {
                    let k = choose|k: int| 0 <= k < held.len() && held[k] == c;
                    assert(k < rest.len());
                    assert(rest[k] == c);
                }
                if f.contains(c) {
                    assert(rest.contains(c));
                    let k2 = choose|k2: int| 0 <= k2 < rest.len() && rest[k2] == c;
                    assert(held[k2] == c);
                }
            }
        }
    } else {
        reveal(Seq::filter);
    }
}

/// Releasing a code that is not held changes nothing.
pub proof fn lemma_release_absent(held: Seq<u32>, code: u32)
    requires
        !held.contains(code),
    ensures
        without_code(held, code) == held,
    decreases held.len(),
{
    if held.len() == 0 {
        reveal(Seq::filter);
        assert(without_code(held, code) =~= held);
    } else {
        let rest = held.drop_last();
        assert(held =~= rest.push(held.last()));
        assert(!rest.contains(code)) by {
            if rest.contains(code) {
                let k = choose|k: int| 0 <= k < rest.len() && rest[k] == code;
                assert(held[k] == code);
            }
        }
        lemma_release_absent(rest, code);
        rest.lemma_filter_push(held.last(), differs_from(code));
        assert(held.last() != code) by {
            assert(held[held.len() - 1] == held.last());
        }
    }
}

/// A press of a code that was not held, followed by its release, leaves the
/// held codes exactly as they were: a click, or the press and release that
/// end a drag, leaves no button or key behind.
pub proof fn lemma_press_release_restores(held: Seq<u32>, code: u32)
    requires
        !held.contains(code),
    ensures
        without_code(with_code(held, code), code) == held,
{
    held.lemma_filter_push(code, differs_from(code));
    lemma_release_absent(held, code);
}

} // verus!
