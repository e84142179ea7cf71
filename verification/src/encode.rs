use vstd::prelude::*;
use crate::card::Card;
use crate::deck::deck_valid;

verus! {

/// The 6-bit code one card packs to: the suit in the two low bits,
/// the rank in the four bits above them.
pub open spec fn card_code(c: Card) -> u8 {
    c.suit | (c.rank << 2u8)
}

/// Byte `k` of the 39-byte packed form of a 52-card deck. Card codes are
/// laid down least-significant-bit first, six bits each, so every three
/// bytes hold exactly four cards.
pub open spec fn enc_byte(d: Seq<Card>, k: int) -> u8 {
    let m = k / 3;
    if k % 3 == 0 {
        card_code(d[4 * m]) | (card_code(d[4 * m + 1]) << 6u8)
    } else if k % 3 == 1 {
        (card_code(d[4 * m + 1]) >> 2u8) | (card_code(d[4 * m + 2]) << 4u8)
    } else {
        (card_code(d[4 * m + 2]) >> 4u8) | (card_code(d[4 * m + 3]) << 2u8)
    }
}

/// The full 39-byte packed form of a deck.
pub open spec fn enc_bytes(d: Seq<Card>) -> Seq<u8> {
    Seq::new(39, |k: int| enc_byte(d, k))
}

/// The lowercase hexadecimal digit for a value below 16.
pub open spec fn hex_digit(n: u8) -> char {
    if n == 0 { '0' } else if n == 1 { '1' } else if n == 2 { '2' }
    else if n == 3 { '3' } else if n == 4 { '4' } else if n == 5 { '5' }
    else if n == 6 { '6' } else if n == 7 { '7' } else if n == 8 { '8' }
    else if n == 9 { '9' } else if n == 10 { 'a' } else if n == 11 { 'b' }
    else if n == 12 { 'c' } else if n == 13 { 'd' } else if n == 14 { 'e' }
    else { 'f' }
}

/// Lowercase hexadecimal text of a byte sequence: two digits per byte,
/// high nibble first.
pub open spec fn hex_of(bytes: Seq<u8>) -> Seq<char> {
    Seq::new(
        bytes.len() * 2,
        |i: int|
            if i % 2 == 0 {
                hex_digit(bytes[i / 2] >> 4u8)
            } else {
                hex_digit(bytes[i / 2] & 15u8)
            },
    )
}

/// The fingerprint of a deck: the hexadecimal text of its packed bytes.
pub open spec fn deck_hash(d: Seq<Card>) -> Seq<char> {
    hex_of(enc_bytes(d))
}

/// A buffer with every byte zero, as the encoder expects it.
pub open spec fn all_zero(b: Seq<u8>) -> bool {
    forall|k: int| 0 <= k < b.len() ==> b[k] == 0
}

/// Relies on hex::encode: lowercase hexadecimal over the table
/// "0123456789abcdef", two digits per byte with the high nibble first,
/// so exactly twice as many characters as input bytes.
#[verifier::external_body]
fn hex_encode(bytes: &Vec<u8>) -> (r: String)
    ensures
        r@ == hex_of(bytes@),
{
    hex::encode(bytes.as_slice())
}

/// Which byte the encoder's cursor stands on after `x` cards.
spec fn cursor_byte(x: int) -> int {
    3 * (x / 4) + if x % 4 <= 1 { 0int } else if x % 4 == 2 { 1int } else { 2int }
}

/// Which bit of that byte the cursor stands on after `x` cards.
spec fn cursor_bit(x: int) -> int {
    if x % 4 == 0 { 0int } else if x % 4 == 1 { 6int } else if x % 4 == 2 { 4int } else { 2int }
}

/// What the encoder has placed so far in its current, still incomplete
/// byte after `x` cards (meaningful only when x % 4 != 0).
spec fn partial_byte(d: Seq<Card>, x: int) -> u8 {
    if x % 4 == 1 {
        card_code(d[x - 1])
    } else if x % 4 == 2 {
        card_code(d[x - 1]) >> 2u8
    } else {
        card_code(d[x - 1]) >> 4u8
    }
}

proof fn lemma_div3(m: int)
    by (nonlinear_arith)
    ensures
        (3 * m) / 3 == m,
        (3 * m) % 3 == 0,
        (3 * m + 1) / 3 == m,
        (3 * m + 1) % 3 == 1,
        (3 * m + 2) / 3 == m,
        (3 * m + 2) % 3 == 2,
{
}

proof fn lemma_div4(m: int)
    by (nonlinear_arith)
    ensures
        (4 * m) / 4 == m,
        (4 * m) % 4 == 0,
        (4 * m + 1) / 4 == m,
        (4 * m + 1) % 4 == 1,
        (4 * m + 2) / 4 == m,
        (4 * m + 2) % 4 == 2,
        (4 * m + 3) / 4 == m,
        (4 * m + 3) % 4 == 3,
        (4 * m + 4) / 4 == m + 1,
        (4 * m + 4) % 4 == 0,
{
}

proof fn lemma_pack0(b: u8, s: u8, r: u8, c: u8)
    by (bit_vector)
    requires
        s < 4,
        r < 13,
        c == (s | (r << 2u8)),
    ensures
        ((b | (s << 0u8)) | (r << 2u8)) == (b | c),
{
}

proof fn lemma_pack1(b0: u8, b1: u8, p: u8, s: u8, r: u8, c: u8)
    by (bit_vector)
    requires
        s < 4,
        r < 13,
        c == (s | (r << 2u8)),
    ensures
        ((b0 | p) | (s << 6u8)) == (b0 | (p | (c << 6u8))),
        (b1 | (r >> 0u8)) == (b1 | (c >> 2u8)),
{
}

proof fn lemma_pack2(b0: u8, b1: u8, p: u8, s: u8, r: u8, c: u8)
    by (bit_vector)
    requires
        s < 4,
        r < 13,
        c == (s | (r << 2u8)),
    ensures
        (((b0 | p) | (s << 4u8)) | (r << 6u8)) == (b0 | (p | (c << 4u8))),
        (b1 | (r >> 2u8)) == (b1 | (c >> 4u8)),
{
}

proof fn lemma_pack3(b0: u8, p: u8, s: u8, r: u8, c: u8)
    by (bit_vector)
    requires
        s < 4,
        r < 13,
        c == (s | (r << 2u8)),
    ensures
        (((b0 | p) | (s << 2u8)) | (r << 4u8)) == (b0 | (p | (c << 2u8))),
{
}

/// Packs the deck's order into the 39-byte buffer, six bits per card,
/// least-significant-bit first, and renders the buffer as lowercase
/// hexadecimal. The encoder only OR-combines bits into the buffer, so
/// each final byte is the OR of its initial value and the packed byte;
/// on a zeroed buffer the result is exactly the deck's fingerprint.
pub fn make_deck_hash(deck: &Vec<Card>, bytebuffer: &mut Vec<u8>) -> (hash: String)
    requires
        deck_valid(deck@),
        old(bytebuffer)@.len() == 39,
    ensures
        final(bytebuffer)@.len() == 39,
        forall|k: int|
            0 <= k < 39 ==> final(bytebuffer)@[k] == (old(bytebuffer)@[k] | enc_byte(deck@, k)),
        hash@ == hex_of(final(bytebuffer)@),
        all_zero(old(bytebuffer)@) ==> hash@ == deck_hash(deck@),
{
    let ghost init = old(bytebuffer)@;
    let mut bitshifter: u8 = 0;
    let mut byteshifter: usize = 0;

    for x in 0..52usize
        invariant
            deck_valid(deck@),
            init == old(bytebuffer)@,
            bytebuffer@.len() == 39,
            byteshifter as int == cursor_byte(x as int),
            bitshifter as int == cursor_bit(x as int),
            forall|k: int|
                0 <= k < byteshifter as int ==> bytebuffer@[k] == (init[k] | enc_byte(deck@, k)),
            x as int % 4 != 0 ==> byteshifter < 39 && bytebuffer@[byteshifter as int] == (init[
                byteshifter as int
            ] | partial_byte(deck@, x as int)),
            forall|k: int| (byteshifter as int) < k < 39 ==> bytebuffer@[k] == init[k],
            x as int % 4 == 0 && byteshifter < 39 ==> bytebuffer@[byteshifter as int] == init[
                byteshifter as int
            ],
    {
        let ghost xi = x as int;
        let ghost m = xi / 4;
        let ghost j = xi % 4;
        let ghost d = deck@;
        let ghost code = card_code(d[xi]);
        proof {
            lemma_div4(m);
            lemma_div3(m);
            assert(xi == 4 * m + j);
        }

        let suit = deck[x].suit;
        let rank = deck[x].rank;

        let b0 = bytebuffer[byteshifter];
        bytebuffer[byteshifter] = b0 | (suit << bitshifter);
        bitshifter = bitshifter + 2;
        if bitshifter <= 4 {
            let b1 = bytebuffer[byteshifter];
            bytebuffer[byteshifter] = b1 | (rank << bitshifter);
            bitshifter = bitshifter + 4;
        } else {
            if bitshifter < 8 {
                let b1 = bytebuffer[byteshifter];
                bytebuffer[byteshifter] = b1 | (rank << bitshifter);
            }
            let b2 = bytebuffer[byteshifter + 1];
            bytebuffer[byteshifter + 1] = b2 | (rank >> (8 - bitshifter));
            bitshifter = bitshifter + 4;
        }
        if bitshifter >= 8 {
            bitshifter = bitshifter - 8;
            byteshifter = byteshifter + 1;
        }

        proof {
            assert(d[xi].valid());
            if j == 0 {
                lemma_pack0(init[3 * m], suit, rank, code);
                assert(bytebuffer@[3 * m] == (init[3 * m] | partial_byte(d, xi + 1)));
            } else if j == 1 {
                lemma_pack1(init[3 * m], init[3 * m + 1], partial_byte(d, xi), suit, rank, code);
                assert(bytebuffer@[3 * m] == (init[3 * m] | enc_byte(d, 3 * m)));
                assert(bytebuffer@[3 * m + 1] == (init[3 * m + 1] | partial_byte(d, xi + 1)));
            } else if j == 2 {
                lemma_pack2(
                    init[3 * m + 1],
                    init[3 * m + 2],
                    partial_byte(d, xi),
                    suit,
                    rank,
                    code,
                );
                assert(bytebuffer@[3 * m + 1] == (init[3 * m + 1] | enc_byte(d, 3 * m + 1)));
                assert(bytebuffer@[3 * m + 2] == (init[3 * m + 2] | partial_byte(d, xi + 1)));
            } else {
                lemma_pack3(init[3 * m + 2], partial_byte(d, xi), suit, rank, code);
                assert(bytebuffer@[3 * m + 2] == (init[3 * m + 2] | enc_byte(d, 3 * m + 2)));
            }
        }
    }

    proof {
        assert(byteshifter as int == cursor_byte(52) == 39);
    }
    let hash = hex_encode(bytebuffer);
    proof {
        if all_zero(init) {
            assert forall|k: int| 0 <= k < 39 implies bytebuffer@[k] == enc_byte(deck@, k) by {
                let e = enc_byte(deck@, k);
                assert((0u8 | e) == e) by (bit_vector);
            }
            assert(bytebuffer@ =~= enc_bytes(deck@));
        }
    }
    hash
}

/// Reads card `i`'s 6-bit code back out of a packed byte sequence.
pub open spec fn recover_code(bytes: Seq<u8>, i: int) -> u8 {
    let m = i / 4;
    if i % 4 == 0 {
        bytes[3 * m] & 63u8
    } else if i % 4 == 1 {
        (bytes[3 * m] >> 6u8) | ((bytes[3 * m + 1] & 15u8) << 2u8)
    } else if i % 4 == 2 {
        (bytes[3 * m + 1] >> 4u8) | ((bytes[3 * m + 2] & 3u8) << 4u8)
    } else {
        bytes[3 * m + 2] >> 2u8
    }
}

proof fn lemma_card_code_fields(s: u8, r: u8)
    by (bit_vector)
    requires
        s < 4,
        r < 13,
    ensures
        (s | (r << 2u8)) < 64,
        ((s | (r << 2u8)) & 3u8) == s,
        ((s | (r << 2u8)) >> 2u8) == r,
{
}

proof fn lemma_unpack(b0: u8, b1: u8, b2: u8, c0: u8, c1: u8, c2: u8, c3: u8)
    by (bit_vector)
    requires
        c0 < 64,
        c1 < 64,
        c2 < 64,
        c3 < 64,
        b0 == (c0 | (c1 << 6u8)),
        b1 == ((c1 >> 2u8) | (c2 << 4u8)),
        b2 == ((c2 >> 4u8) | (c3 << 2u8)),
    ensures
        (b0 & 63u8) == c0,
        ((b0 >> 6u8) | ((b1 & 15u8) << 2u8)) == c1,
        ((b1 >> 4u8) | ((b2 & 3u8) << 4u8)) == c2,
        (b2 >> 2u8) == c3,
{
}

/// The packing loses nothing: card `i`'s code can be read back out of
/// the packed bytes of any valid deck.
pub proof fn lemma_code_recoverable(d: Seq<Card>, i: int)
    requires
        deck_valid(d),
        0 <= i < 52,
    ensures
        recover_code(enc_bytes(d), i) == card_code(d[i]),
{
    let m = i / 4;
    lemma_div4(m);
    lemma_div3(m);
    assert(0 <= m <= 12);
    assert(d[4 * m].valid() && d[4 * m + 1].valid() && d[4 * m + 2].valid() && d[4 * m
        + 3].valid());
    let c0 = card_code(d[4 * m]);
    let c1 = card_code(d[4 * m + 1]);
    let c2 = card_code(d[4 * m + 2]);
    let c3 = card_code(d[4 * m + 3]);
    lemma_card_code_fields(d[4 * m].suit, d[4 * m].rank);
    lemma_card_code_fields(d[4 * m + 1].suit, d[4 * m + 1].rank);
    lemma_card_code_fields(d[4 * m + 2].suit, d[4 * m + 2].rank);
    lemma_card_code_fields(d[4 * m + 3].suit, d[4 * m + 3].rank);
    lemma_unpack(enc_byte(d, 3 * m), enc_byte(d, 3 * m + 1), enc_byte(d, 3 * m + 2), c0, c1, c2, c3);
}

proof fn lemma_hex_digit_injective(a: u8, b: u8)
    requires
        a < 16,
        b < 16,
        hex_digit(a) == hex_digit(b),
    ensures
        a == b,
{
}

proof fn lemma_byte_from_nibbles(a: u8, b: u8)
    by (bit_vector)
    requires
        (a >> 4u8) == (b >> 4u8),
        (a & 15u8) == (b & 15u8),
    ensures
        a == b,
        (a >> 4u8) < 16,
        (a & 15u8) < 16,
{
}

/// Bytes with equal hexadecimal text are equal byte for byte.
proof fn lemma_hex_injective(x: Seq<u8>, y: Seq<u8>)
    requires
        x.len() == y.len(),
        hex_of(x) == hex_of(y),
    ensures
        x =~= y,
{
    assert forall|k: int| 0 <= k < x.len() implies x[k] == y[k] by {
        assert(hex_of(x)[2 * k] == hex_of(y)[2 * k]);
        assert(hex_of(x)[2 * k + 1] == hex_of(y)[2 * k + 1]);
        assert((2 * k) % 2 == 0 && (2 * k) / 2 == k) by (nonlinear_arith);
        assert((2 * k + 1) % 2 == 1 && (2 * k + 1) / 2 == k) by (nonlinear_arith);
        let xb = x[k];
        let yb = y[k];
        assert(hex_of(x)[2 * k] == hex_digit(xb >> 4u8));
        assert(hex_of(y)[2 * k] == hex_digit(yb >> 4u8));
        assert(hex_of(x)[2 * k + 1] == hex_digit(xb & 15u8));
        assert(hex_of(y)[2 * k + 1] == hex_digit(yb & 15u8));
        assert((xb >> 4u8) < 16 && (xb & 15u8) < 16) by (bit_vector);
        assert((yb >> 4u8) < 16 && (yb & 15u8) < 16) by (bit_vector);
        lemma_hex_digit_injective(xb >> 4u8, yb >> 4u8);
        lemma_hex_digit_injective(xb & 15u8, yb & 15u8);
        lemma_byte_from_nibbles(xb, yb);
    }
}

/// Encoding injectivity: decks that differ in at least one position have
/// different fingerprints.
pub proof fn lemma_hash_injective(d1: Seq<Card>, d2: Seq<Card>)
    requires
        deck_valid(d1),
        deck_valid(d2),
        d1 != d2,
    ensures
        deck_hash(d1) != deck_hash(d2),
{
    if deck_hash(d1) == deck_hash(d2) {
        lemma_hex_injective(enc_bytes(d1), enc_bytes(d2));
        assert forall|i: int| 0 <= i < 52 implies d1[i] == d2[i] by {
            assert(d1[i].valid() && d2[i].valid());
            lemma_code_recoverable(d1, i);
            lemma_code_recoverable(d2, i);
            assert(card_code(d1[i]) == card_code(d2[i]));
            lemma_card_code_fields(d1[i].suit, d1[i].rank);
            lemma_card_code_fields(d2[i].suit, d2[i].rank);
        }
        assert(d1 =~= d2);
    }
}

/// Why the per-iteration buffer reset matters: the encoder only ever
/// OR-combines bits, so a stale bit that the fresh encoding does not set
/// survives and corrupts the rendered text. Any stale buffer that sets
/// such a bit yields a hash different from the clean one.
pub proof fn lemma_buffer_reset_needed(d: Seq<Card>, stale: Seq<u8>)
    requires
        deck_valid(d),
        stale.len() == 39,
        exists|k: int|
            0 <= k < 39 && (#[trigger] stale[k] | enc_byte(d, k)) != enc_byte(d, k),
    ensures
        hex_of(Seq::new(39, |k: int| stale[k] | enc_byte(d, k))) != deck_hash(d),
{
    let dirty = Seq::new(39, |k: int| stale[k] | enc_byte(d, k));
    if hex_of(dirty) == deck_hash(d) {
        lemma_hex_injective(dirty, enc_bytes(d));
        let k0 = choose|k: int|
            0 <= k < 39 && (#[trigger] stale[k] | enc_byte(d, k)) != enc_byte(d, k);
        assert(dirty[k0] == enc_bytes(d)[k0]);
    }
}

} // verus!
