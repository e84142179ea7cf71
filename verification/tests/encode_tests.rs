use deckbench::deck::make_deck;
use deckbench::encode::make_deck_hash;
use deckbench::runner::{clear_buffer, new_buffer};
use deckbench::shuffle::shuffle_deck;

const CANONICAL_HASH: &str =
    "0081301085712089b27050244d54655d58a66d2c188a23599a279aaa2b0fc7f24cd7f68de7face";

#[test]
fn canonical_deck_golden_fingerprint() {
    let deck = make_deck();
    let mut buffer = new_buffer();
    let hash = make_deck_hash(&deck, &mut buffer);
    assert_eq!(hash.len(), 78);
    assert_eq!(hash.as_str(), CANONICAL_HASH);
}

#[test]
fn encoding_is_deterministic() {
    let mut deck = make_deck();
    shuffle_deck(&mut deck);
    let mut buffer = new_buffer();
    let first = make_deck_hash(&deck, &mut buffer);
    clear_buffer(&mut buffer);
    let second = make_deck_hash(&deck, &mut buffer);
    assert_eq!(first, second);
}

#[test]
fn encoding_distinguishes_decks() {
    let deck1 = make_deck();
    let mut deck2 = make_deck();
    deck2.swap(0, 1);
    let mut buffer = new_buffer();
    let hash1 = make_deck_hash(&deck1, &mut buffer);
    clear_buffer(&mut buffer);
    let hash2 = make_deck_hash(&deck2, &mut buffer);
    assert_ne!(hash1, hash2);
}

#[test]
fn stale_buffer_corrupts_encoding() {
    // Encode one order, then encode another into the same buffer without
    // clearing it: the stale bits survive the OR-combining and the result
    // differs from a clean encoding of the second order.
    let canonical = make_deck();
    let mut other = make_deck();
    other.swap(0, 1);

    let mut buffer = new_buffer();
    let _ = make_deck_hash(&other, &mut buffer);
    let dirty = make_deck_hash(&canonical, &mut buffer);
    assert_ne!(dirty.as_str(), CANONICAL_HASH);
}

#[test]
fn fingerprint_is_lowercase_hex() {
    let mut deck = make_deck();
    shuffle_deck(&mut deck);
    let mut buffer = new_buffer();
    let hash = make_deck_hash(&deck, &mut buffer);
    assert_eq!(hash.len(), 78);
    for ch in hash.chars() {
        assert!(ch.is_ascii_hexdigit() && !ch.is_ascii_uppercase());
    }
}
