use vstd::prelude::*;

verus! {

/// One playing card: a suit and a rank, both small unsigned values.
/// A card is a plain value; it carries no identity beyond its fields.
#[derive(Clone, Copy, Debug, PartialEq, Eq, Structural)]
pub struct Card {
    pub suit: u8,
    pub rank: u8,
}

impl Card {
    /// A card the deck model admits: suit below 4, rank below 13.
    pub open spec fn valid(self) -> bool {
        self.suit < 4 && self.rank < 13
    }
}

impl Default for Card {
    fn default() -> (c: Card)
        ensures
            c == (Card { suit: 0u8, rank: 0u8 }),
    {
        Card { suit: 0, rank: 0 }
    }
}

} // verus!
