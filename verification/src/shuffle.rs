use vstd::prelude::*;
use vstd::seq_lib::group_to_multiset_ensures;
use crate::card::Card;
use crate::deck::deck_valid;

verus! {

/// Relies on rand::random_range on a `Range<usize>`: the thread-local
/// generator draws an index uniformly from `[lo, hi)` without modulo bias;
/// it panics only on an empty range, which the precondition excludes.
/// Nothing more can be promised of a random draw than its bounds.
#[verifier::external_body]
fn random_index_between(lo: usize, hi: usize) -> (r: usize)
    requires
        lo < hi,
    ensures
        lo <= r < hi,
{
    rand::random_range(lo..hi)
}

/// Two updates that exchange the elements at `i` and `j` leave the
/// multiset of a sequence unchanged.
proof fn lemma_swap_preserves_multiset(s: Seq<Card>, i: int, j: int)
    requires
        0 <= i < s.len(),
        0 <= j < s.len(),
    ensures
        s.update(i, s[j]).update(j, s[i]).to_multiset() == s.to_multiset(),
{
    broadcast use group_to_multiset_ensures;

    let s1 = s.update(i, s[j]);
    let s2 = s1.update(j, s[i]);
    assert(s1[j] == s[j]) by {
        if i != j {
            assert(s1[j] == s[j]);
        }
    }
    assert(s1.to_multiset() == s.to_multiset().insert(s[j]).remove(s[i]));
    assert(s2.to_multiset() == s1.to_multiset().insert(s[i]).remove(s1[j]));
    assert(s.to_multiset().contains(s[i]));
    assert(s2.to_multiset() =~= s.to_multiset());
}

/// In-place Fisher-Yates shuffle: for each position from the front, swap it
/// with a uniformly drawn position at or after it. The deck keeps exactly
/// the cards it had - only their order may change.
pub fn shuffle_deck(deck: &mut Vec<Card>)
    requires
        old(deck)@.len() == 52,
    ensures
        final(deck)@.len() == 52,
        final(deck)@.to_multiset() == old(deck)@.to_multiset(),
        deck_valid(old(deck)@) ==> deck_valid(final(deck)@),
{
    for x in 0..51usize
        invariant
            deck@.len() == 52,
            deck@.to_multiset() == old(deck)@.to_multiset(),
    {
        let id2 = random_index_between(x, 52);
        let buffer: Card = deck[id2];
        let front: Card = deck[x];
        proof {
            lemma_swap_preserves_multiset(deck@, id2 as int, x as int);
        }
        deck[id2] = front;
        deck[x] = buffer;
    }
    proof {
        if deck_valid(old(deck)@) {
            lemma_same_multiset_preserves_validity(old(deck)@, deck@);
        }
    }
}

/// A sequence with the same multiset as a valid deck is itself a valid deck.
proof fn lemma_same_multiset_preserves_validity(s1: Seq<Card>, s2: Seq<Card>)
    requires
        deck_valid(s1),
        s2.len() == 52,
        s1.to_multiset() == s2.to_multiset(),
    ensures
        deck_valid(s2),
{
    broadcast use group_to_multiset_ensures;

    assert forall|i: int| 0 <= i < 52 implies #[trigger] s2[i].valid() by {
        assert(s2.contains(s2[i]));
        assert(s2.to_multiset().count(s2[i]) > 0);
        assert(s1.contains(s2[i]));
        let j = choose|j: int| 0 <= j < s1.len() && s1[j] == s2[i];
        assert(s1[j].valid());
    }
}

} // verus!
