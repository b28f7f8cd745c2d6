//! Lemmas connecting duplicate-free sequences to the sets of their elements.
//!
//! The registry, the presence set and the reaper's queued set all back a
//! mathematical set by a duplicate-free vector; these lemmas relate the
//! vector operations to the set operations.

use vstd::prelude::*;

verus! {

/// The set of elements of the empty sequence is the empty set.
pub proof fn lemma_empty_to_set<A>()
    ensures
        Seq::<A>::empty().to_set() == Set::<A>::empty(),
{
    assert(Seq::<A>::empty().to_set() =~= Set::<A>::empty());
}

/// Pushing an element onto a sequence inserts it into the element set.
pub proof fn lemma_push_to_set<A>(s: Seq<A>, x: A)
    ensures
        s.push(x).to_set() == s.to_set().insert(x),
{
    s.lemma_push_to_set_commute(x);
    assert(s.push(x).to_set() =~= s.to_set().insert(x));
}

/// Removing position `i` from a duplicate-free sequence removes exactly the
/// element `s[i]` from the element set, and keeps the sequence
/// duplicate-free.
pub proof fn lemma_remove_to_set<A>(s: Seq<A>, i: int)
    requires
        0 <= i < s.len(),
        s.no_duplicates(),
    ensures
        s.remove(i).to_set() == s.to_set().remove(s[i]),
        s.remove(i).no_duplicates(),
{
    let r = s.remove(i);
    assert forall|x: A| r.to_set().contains(x) implies s.to_set().remove(s[i]).contains(x) by {
        let j = choose|j: int| 0 <= j < r.len() && r[j] == x;
        if j < i {
            assert(s[j] == x);
        } else {
            assert(s[j + 1] == x);
        }
        assert(s.contains(x));
    }
    assert forall|x: A| s.to_set().remove(s[i]).contains(x) implies r.to_set().contains(x) by {
        let j = choose|j: int| 0 <= j < s.len() && s[j] == x;
        if j < i {
            assert(r[j] == x);
        } else {
            assert(r[j - 1] == x);
        }
        assert(r.contains(x));
    }
    assert(r.to_set() =~= s.to_set().remove(s[i]));
}

/// A duplicate-free sequence has exactly as many elements as its element set.
pub proof fn lemma_distinct_len<A>(s: Seq<A>)
    requires
        s.no_duplicates(),
    ensures
        s.to_set().len() == s.len(),
        s.to_set().finite(),
{
    s.unique_seq_to_set();
}

} // verus!
