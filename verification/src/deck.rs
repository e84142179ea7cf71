use vstd::prelude::*;
use crate::card::Card;

verus! {

/// The card that position `i` of a freshly built deck holds:
/// suit-major, rank-minor order (suit 0 ranks 0..12, suit 1 ranks 0..12, ...).
pub open spec fn canonical_card(i: int) -> Card {
    Card { suit: (i / 13) as u8, rank: (i % 13) as u8 }
}

/// A deck the encoder and shuffle work on: 52 cards, each in range.
pub open spec fn deck_valid(d: Seq<Card>) -> bool {
    &&& d.len() == 52
    &&& forall|i: int| 0 <= i < 52 ==> #[trigger] d[i].valid()
}

/// A deck exactly in the order the factory builds.
pub open spec fn deck_canonical(d: Seq<Card>) -> bool {
    &&& d.len() == 52
    &&& forall|i: int| 0 <= i < 52 ==> #[trigger] d[i] == canonical_card(i)
}

/// Builds one ordered deck of 52 unique (suit, rank) pairs, suit-major.
pub fn make_deck() -> (deck: Vec<Card>)
    ensures
        deck_canonical(deck@),
        deck_valid(deck@),
{
    let mut deck: Vec<Card> = Vec::new();
    let mut suitinc: u8 = 0;
    let mut rankinc: u8 = 0;

    for x in 0..52usize
        invariant
            deck@.len() == x,
            suitinc == x as int / 13,
            rankinc == x as int % 13,
            forall|i: int| 0 <= i < x ==> #[trigger] deck@[i] == canonical_card(i),
    {
        deck.push(Card { suit: suitinc, rank: rankinc });
        rankinc = rankinc + 1;
        if rankinc == 13 {
            rankinc = 0;
            suitinc = suitinc + 1;
        }
    }

    proof {
        assert forall|i: int| 0 <= i < 52 implies #[trigger] deck@[i].valid() by {
            assert(deck@[i] == canonical_card(i));
        }
    }
    deck
}

/// Whether some position of `d` holds the card (s, r).
pub open spec fn holds_pair(d: Seq<Card>, s: u8, r: u8) -> bool {
    exists|i: int| 0 <= i < 52 && d[i] == (Card { suit: s, rank: r })
}

/// Deck completeness: a canonical deck holds every (suit, rank) pair with
/// suit in [0, 4) and rank in [0, 13) exactly once - no duplicate, no omission.
pub proof fn lemma_deck_complete(d: Seq<Card>)
    requires
        deck_canonical(d),
    ensures
        forall|s: u8, r: u8| s < 4 && r < 13 ==> #[trigger] holds_pair(d, s, r),
        forall|i: int, j: int| 0 <= i < 52 && 0 <= j < 52 && d[i] == d[j] ==> i == j,
{
    assert forall|s: u8, r: u8| s < 4 && r < 13 implies #[trigger] holds_pair(d, s, r) by {
        let i = 13 * (s as int) + (r as int);
        assert(i / 13 == s && i % 13 == r) by (nonlinear_arith)
            requires
                s < 4,
                r < 13,
                i == 13 * (s as int) + (r as int),
        ;
        assert(d[i] == canonical_card(i));
        assert(d[i] == (Card { suit: s, rank: r }));
    }
    assert forall|i: int, j: int|
        0 <= i < 52 && 0 <= j < 52 && d[i] == d[j] implies i == j by {
        assert(d[i] == canonical_card(i));
        assert(d[j] == canonical_card(j));
        assert(i == 13 * (i / 13) + i % 13);
        assert(j == 13 * (j / 13) + j % 13);
    }
}

} // verus!
