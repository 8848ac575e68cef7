//! Walking a table: the keys come as a sequence without repetition, and a
//! loop has dealt with a prefix of it. These lemmas relate the prefix to the
//! set of keys that it covers.

use vstd::prelude::*;

verus! {

/// The elements that the first `n` places of `keys` hold.
pub open spec fn visited<A>(keys: Seq<A>, n: int) -> Set<A> {
    keys.subrange(0, n).to_set()
}

/// Before the walk starts nothing has been visited.
pub proof fn lemma_visited_none<A>(keys: Seq<A>)
    ensures
        visited(keys, 0) == Set::<A>::empty(),
{
    assert(keys.subrange(0, 0) =~= Seq::<A>::empty());
    assert(visited(keys, 0) =~= Set::<A>::empty());
}

/// One more step of the walk visits one more element, which is new where
/// the sequence repeats nothing.
pub proof fn lemma_visited_step<A>(keys: Seq<A>, n: int)
    requires
        0 <= n < keys.len(),
    ensures
        visited(keys, n + 1) == visited(keys, n).insert(keys[n]),
        keys.no_duplicates() ==> !visited(keys, n).contains(keys[n]),
{
    let shorter = keys.subrange(0, n);
    let longer = keys.subrange(0, n + 1);
    assert forall|x: A| longer.to_set().contains(x) <==> shorter.to_set().insert(
        keys[n],
    ).contains(x) by {
        if longer.to_set().contains(x) {
            let j = choose|j: int| 0 <= j < longer.len() && longer[j] == x;
            if j < n {
                assert(shorter[j] == x);
            }
        }
        if shorter.to_set().contains(x) {
            let j = choose|j: int| 0 <= j < shorter.len() && shorter[j] == x;
            assert(longer[j] == x);
        }
        if x == keys[n] {
            assert(longer[n] == x);
        }
    }
    assert(longer.to_set() =~= shorter.to_set().insert(keys[n]));
    if keys.no_duplicates() && shorter.to_set().contains(keys[n]) {
        let j = choose|j: int| 0 <= j < shorter.len() && shorter[j] == keys[n];
        assert(keys[j] == keys[n]);
    }
}

/// At the end of the walk every element has been visited.
pub proof fn lemma_visited_all<A>(keys: Seq<A>)
    ensures
        visited(keys, keys.len() as int) == keys.to_set(),
{
    assert(keys.subrange(0, keys.len() as int) =~= keys);
}

} // verus!
