use deckbench::card::Card;
use deckbench::deck::make_deck;
use deckbench::shuffle::shuffle_deck;

#[test]
fn make_deck_is_canonical() {
    let deck = make_deck();
    assert_eq!(deck.len(), 52);
    assert_eq!(deck[0], Card { suit: 0, rank: 0 });
    assert_eq!(deck[1], Card { suit: 0, rank: 1 });
    assert_eq!(deck[12], Card { suit: 0, rank: 12 });
    assert_eq!(deck[13], Card { suit: 1, rank: 0 });
    assert_eq!(deck[26], Card { suit: 2, rank: 0 });
    assert_eq!(deck[51], Card { suit: 3, rank: 12 });
}

#[test]
fn make_deck_is_complete() {
    let deck = make_deck();
    let mut seen = [0u32; 52];
    for c in &deck {
        assert!(c.suit < 4 && c.rank < 13);
        seen[(c.suit as usize) * 13 + c.rank as usize] += 1;
    }
    for count in seen.iter() {
        assert_eq!(*count, 1);
    }
}

#[test]
fn shuffle_is_a_permutation() {
    let mut deck = make_deck();
    for _ in 0..100 {
        shuffle_deck(&mut deck);
        assert_eq!(deck.len(), 52);
        let mut seen = [0u32; 52];
        for c in &deck {
            assert!(c.suit < 4 && c.rank < 13);
            seen[(c.suit as usize) * 13 + c.rank as usize] += 1;
        }
        for count in seen.iter() {
            assert_eq!(*count, 1);
        }
    }
}

#[test]
fn shuffle_positions_look_uniform() {
    // Each card should land on each position about rounds / 52 times.
    // 52_000 rounds put the expected count at 1000 with a standard
    // deviation near 31; the bounds below sit roughly nine deviations out.
    let rounds = 52_000u32;
    let mut counts = vec![0u32; 52 * 52];
    let mut deck = make_deck();
    for _ in 0..rounds {
        shuffle_deck(&mut deck);
        for (pos, c) in deck.iter().enumerate() {
            counts[pos * 52 + (c.suit as usize) * 13 + c.rank as usize] += 1;
        }
    }
    for &n in counts.iter() {
        assert!(
            (700..=1300).contains(&n),
            "occurrence count {} outside statistical tolerance",
            n
        );
    }
}
