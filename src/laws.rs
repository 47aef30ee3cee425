use vstd::prelude::*;

use crate::simple_bitmap::{holds, present_in, union_words, with_index};

verus! {

/// The words after `set` is called on each of `indices` in turn, starting from `words`.
pub open spec fn after_sets(words: Seq<u32>, indices: Seq<u32>) -> Seq<u32>
    decreases indices.len(),
{
    if indices.len() == 0 {
        words
    } else {
        with_index(after_sets(words, indices.drop_last()), indices.last())
    }
}

/// On a fresh bitmap, the indices present after a run of `set` calls are exactly those that
/// were set; in particular an index never set reads as absent.
pub proof fn lemma_fresh_presence(indices: Seq<u32>)
    ensures
        present_in(after_sets(Seq::empty(), indices)) == indices.to_set(),
    decreases indices.len(),
{
    if indices.len() == 0 {
        assert(present_in(Seq::<u32>::empty()) =~= Set::<u32>::empty());
        assert(indices.to_set() =~= Set::<u32>::empty());
    } else {
        let prefix = indices.drop_last();
        lemma_fresh_presence(prefix);
        crate::simple_bitmap::lemma_with_index(after_sets(Seq::empty(), prefix), indices.last());
        assert forall|i: u32| indices.to_set().contains(i) == prefix.to_set().insert(
            indices.last(),
        ).contains(i) by {
            if indices.contains(i) && i != indices.last() {
                let k = choose|k: int| 0 <= k < indices.len() && indices[k] == i;
                assert(prefix[k] == i);
            }
            if prefix.contains(i) {
                let k = choose|k: int| 0 <= k < prefix.len() && prefix[k] == i;
                assert(indices[k] == i);
            }
            if i == indices.last() {
                assert(indices[indices.len() - 1] == i);
            }
        }
        assert(indices.to_set() =~= prefix.to_set().insert(indices.last()));
    }
}

/// An index that was never set on a fresh bitmap reads as absent.
pub proof fn lemma_never_set_is_absent(indices: Seq<u32>, i: u32)
    requires
        !indices.contains(i),
    ensures
        !holds(after_sets(Seq::empty(), indices), i),
{
    lemma_fresh_presence(indices);
    assert(!present_in(after_sets(Seq::empty(), indices)).contains(i));
}

/// Once `index` is set it reads as present, and stays so through any later `set` calls.
pub proof fn lemma_set_index_stays(words: Seq<u32>, index: u32, later: Seq<u32>)
    ensures
        holds(after_sets(with_index(words, index), later), index),
    decreases later.len(),
{
    if later.len() == 0 {
        crate::simple_bitmap::lemma_with_index(words, index);
        assert(present_in(with_index(words, index)).contains(index));
    } else {
        lemma_set_index_stays(words, index, later.drop_last());
        let before = after_sets(with_index(words, index), later.drop_last());
        crate::simple_bitmap::lemma_with_index(before, later.last());
        assert(present_in(before).contains(index));
        assert(present_in(with_index(before, later.last())).contains(index));
    }
}

/// Setting an index a second time leaves the words exactly as the first time did.
pub proof fn lemma_set_idempotent(words: Seq<u32>, index: u32)
    ensures
        with_index(with_index(words, index), index) == with_index(words, index),
{
    crate::simple_bitmap::lemma_with_index(words, index);
    crate::simple_bitmap::lemma_with_index(with_index(words, index), index);
    assert(present_in(with_index(words, index)).contains(index));
}

/// An index is present in a union iff it is present in either operand, whatever their lengths.
pub proof fn lemma_union_presence(a: Seq<u32>, b: Seq<u32>, i: u32)
    ensures
        holds(union_words(a, b), i) == (holds(a, i) || holds(b, i)),
{
    crate::simple_bitmap::lemma_union_words(a, b);
    assert(present_in(union_words(a, b)).contains(i) == present_in(a).union(present_in(b)).contains(i));
}

/// A union with empty storage gives the other operand's words unchanged.
pub proof fn lemma_union_with_empty(a: Seq<u32>)
    ensures
        union_words(a, Seq::empty()) == a,
        union_words(Seq::empty(), a) == a,
{
    assert(union_words(a, Seq::empty()) =~= a);
    assert(union_words(Seq::empty(), a) =~= a);
}

/// The union does not depend on the order of its operands: the words themselves are equal.
pub proof fn lemma_union_commutes(a: Seq<u32>, b: Seq<u32>)
    ensures
        union_words(a, b) == union_words(b, a),
{
    assert forall|k: int| 0 <= k < a.len() && 0 <= k < b.len() implies a[k] | b[k] == b[k] | a[k] by {
        let x = a[k];
        let y = b[k];
        assert(x | y == y | x) by (bit_vector);
    }
    assert(union_words(a, b) =~= union_words(b, a));
}

} // verus!
