//! Binary codec for [`Guess`] values and the comparator that orders them.
//!
//! A guess is stored as 20 bytes: the nonce in 4 big-endian bytes followed by
//! the player identifier in 16 big-endian bytes. Putting the nonce first makes
//! the lexicographic order on encodings — the order the store keeps its rows
//! in — coincide with ordering guesses by nonce (ties broken by player).

use vstd::prelude::*;

use crate::types::Guess;

verus! {

/// 256 raised to the power `n`.
pub open spec fn pow256(n: nat) -> nat
    decreases n,
{
    if n == 0 {
        1
    } else {
        256 * pow256((n - 1) as nat)
    }
}

/// The number a byte string denotes when read as a big-endian numeral.
pub open spec fn be_num(s: Seq<u8>) -> nat
    decreases s.len(),
{
    if s.len() == 0 {
        0
    } else {
        (s[0] as nat) * pow256((s.len() - 1) as nat) + be_num(s.skip(1))
    }
}

/// Strict lexicographic order on byte strings, the order std gives `&[u8]`:
/// a proper prefix comes before every extension of it.
pub open spec fn lex_lt(a: Seq<u8>, b: Seq<u8>) -> bool
    decreases a.len(),
{
    if b.len() == 0 {
        false
    } else if a.len() == 0 {
        true
    } else if a[0] != b[0] {
        a[0] < b[0]
    } else {
        lex_lt(a.skip(1), b.skip(1))
    }
}

/// The 4 big-endian bytes of a 32-bit value.
pub open spec fn be4(n: u32) -> Seq<u8> {
    seq![(n >> 24) as u8, (n >> 16) as u8, (n >> 8) as u8, n as u8]
}

/// The 8 big-endian bytes of a 64-bit value.
pub open spec fn be8(n: u64) -> Seq<u8> {
    seq![
        (n >> 56) as u8,
        (n >> 48) as u8,
        (n >> 40) as u8,
        (n >> 32) as u8,
        (n >> 24) as u8,
        (n >> 16) as u8,
        (n >> 8) as u8,
        n as u8,
    ]
}

/// The stored form of a guess: nonce first, then the player identifier.
pub open spec fn spec_encode_guess(g: Guess) -> Seq<u8> {
    be4(g.nonce) + be8((g.player >> 64) as u64) + be8(g.player as u64)
}

/// The guess a 20-byte string denotes; anything of another length is invalid.
pub open spec fn spec_decode_guess(s: Seq<u8>) -> Option<Guess> {
    if s.len() == 20 {
        Some(
            Guess {
                player: be_num(s.subrange(4, 20)) as u128,
                nonce: be_num(s.subrange(0, 4)) as u32,
            },
        )
    } else {
        None
    }
}

/// A guess read as one number: the nonce in the high 32 bits, the player below.
pub open spec fn guess_num(g: Guess) -> nat {
    (g.nonce as nat) * pow256(16) + (g.player as nat)
}

/// The order encodings are stored in: by nonce, ties broken by player.
pub open spec fn guess_lt(a: Guess, b: Guess) -> bool {
    a.nonce < b.nonce || (a.nonce == b.nonce && a.player < b.player)
}

/// The small powers of 256 the codec works with, written out.
pub proof fn lemma_pow256_values()
    ensures
        pow256(0) == 1,
        pow256(1) == 0x100,
        pow256(2) == 0x1_0000,
        pow256(3) == 0x100_0000,
        pow256(4) == 0x1_0000_0000,
        pow256(5) == 0x100_0000_0000,
        pow256(6) == 0x1_0000_0000_0000,
        pow256(7) == 0x100_0000_0000_0000,
        pow256(8) == 0x1_0000_0000_0000_0000,
        pow256(16) == 0x1_0000_0000_0000_0000 * 0x1_0000_0000_0000_0000,
{
    assert(pow256(0) == 1);
    assert(pow256(1) == 256 * pow256(0));
    assert(pow256(2) == 256 * pow256(1));
    assert(pow256(3) == 256 * pow256(2));
    assert(pow256(4) == 256 * pow256(3));
    assert(pow256(5) == 256 * pow256(4));
    assert(pow256(6) == 256 * pow256(5));
    assert(pow256(7) == 256 * pow256(6));
    assert(pow256(8) == 256 * pow256(7));
    lemma_pow256_add(8, 8);
    assert(pow256(16) == pow256(8) * pow256(8));
}

pub proof fn lemma_pow256_add(m: nat, n: nat)
    ensures
        pow256(m + n) == pow256(m) * pow256(n),
    decreases m,
{
    if m == 0 {
        assert(pow256(0) == 1);
    } else {
        lemma_pow256_add((m - 1) as nat, n);
        assert((m - 1) + n == (m + n - 1) as nat);
        assert(pow256(m + n) == 256 * (pow256((m - 1) as nat) * pow256(n)));
        assert(256 * (pow256((m - 1) as nat) * pow256(n)) == (256 * pow256((m - 1) as nat))
            * pow256(n)) by (nonlinear_arith);
    }
}

/// A byte string of length `n` denotes a number below `256^n`.
pub proof fn lemma_be_num_bound(s: Seq<u8>)
    ensures
        be_num(s) < pow256(s.len()),
    decreases s.len(),
{
    if s.len() == 0 {
        assert(pow256(0) == 1);
    } else {
        let p = pow256((s.len() - 1) as nat);
        lemma_be_num_bound(s.skip(1));
        assert((s[0] as nat) * p <= 255 * p) by (nonlinear_arith)
            requires
                (s[0] as nat) <= 255,
                p >= 0,
        ;
        assert(255 * p + p == 256 * p);
    }
}

/// Big-endian reading splits over concatenation.
pub proof fn lemma_be_num_concat(a: Seq<u8>, b: Seq<u8>)
    ensures
        be_num(a + b) == be_num(a) * pow256(b.len()) + be_num(b),
    decreases a.len(),
{
    if a.len() == 0 {
        assert(a + b =~= b);
        assert(be_num(a) == 0);
    } else {
        assert((a + b).skip(1) =~= a.skip(1) + b);
        lemma_be_num_concat(a.skip(1), b);
        lemma_pow256_add((a.len() - 1) as nat, b.len());
        let d = a[0] as nat;
        let r = be_num(a.skip(1));
        let p1 = pow256((a.len() - 1) as nat);
        let p2 = pow256(b.len());
        assert(be_num(a) == d * p1 + r);
        assert((a + b)[0] == a[0]);
        assert(be_num(a + b) == ((a + b)[0] as nat) * pow256(((a + b).len() - 1) as nat) + be_num(
            (a + b).skip(1),
        ));
        assert(pow256(((a + b).len() - 1) as nat) == p1 * p2);
        assert(be_num(a + b) == d * (p1 * p2) + (r * p2 + be_num(b)));
        assert(d * (p1 * p2) + r * p2 == (d * p1 + r) * p2) by (nonlinear_arith);
    }
}

/// On equal lengths, the lexicographic order is the numeric order.
pub proof fn lemma_lex_iff_num(a: Seq<u8>, b: Seq<u8>)
    requires
        a.len() == b.len(),
    ensures
        lex_lt(a, b) <==> be_num(a) < be_num(b),
    decreases a.len(),
{
    if a.len() != 0 {
        let p = pow256((a.len() - 1) as nat);
        lemma_lex_iff_num(a.skip(1), b.skip(1));
        lemma_be_num_bound(a.skip(1));
        lemma_be_num_bound(b.skip(1));
        if a[0] != b[0] {
            let (lo, hi) = if a[0] < b[0] {
                (a[0] as nat, b[0] as nat)
            } else {
                (b[0] as nat, a[0] as nat)
            };
            assert(lo * p + p <= hi * p) by (nonlinear_arith)
                requires
                    lo + 1 <= hi,
                    p >= 0,
            ;
        }
    }
}

/// Equal numbers read from equal-length byte strings mean equal strings.
pub proof fn lemma_be_num_inj(a: Seq<u8>, b: Seq<u8>)
    requires
        a.len() == b.len(),
        be_num(a) == be_num(b),
    ensures
        a == b,
    decreases a.len(),
{
    if a.len() == 0 {
        assert(a =~= b);
    } else {
        lemma_lex_iff_num(a, b);
        lemma_lex_iff_num(b, a);
        let p = pow256((a.len() - 1) as nat);
        lemma_be_num_bound(a.skip(1));
        lemma_be_num_bound(b.skip(1));
        assert(a[0] == b[0]) by (nonlinear_arith)
            requires
                (a[0] as nat) * p + be_num(a.skip(1)) == (b[0] as nat) * p + be_num(b.skip(1)),
                be_num(a.skip(1)) < p,
                be_num(b.skip(1)) < p,
        ;
        lemma_be_num_inj(a.skip(1), b.skip(1));
        assert forall|i: int| 0 <= i < a.len() implies a[i] == b[i] by {
            if i > 0 {
                assert(a.skip(1)[i - 1] == a[i]);
                assert(b.skip(1)[i - 1] == b[i]);
            }
        }
        assert(a =~= b);
    }
}

/// The 4 big-endian bytes of `n` denote `n`.
pub proof fn lemma_be4_num(n: u32)
    ensures
        be_num(be4(n)) == n,
{
    lemma_be_num_seq4(be4(n));
    assert(be_num4((n >> 24) as u8, (n >> 16) as u8, (n >> 8) as u8, n as u8) == n)
        by (bit_vector);
}

/// The 8 big-endian bytes of `n` denote `n`.
pub proof fn lemma_be8_num(n: u64)
    ensures
        be_num(be8(n)) == n,
{
    lemma_be_num_seq8(be8(n));
    assert(be_num8(
        (n >> 56) as u8,
        (n >> 48) as u8,
        (n >> 40) as u8,
        (n >> 32) as u8,
        (n >> 24) as u8,
        (n >> 16) as u8,
        (n >> 8) as u8,
        n as u8,
    ) == n) by (bit_vector);
}

/// Splitting a 128-bit player identifier into two 64-bit halves loses nothing.
pub proof fn lemma_player_split(p: u128)
    ensures
        (((p >> 64) as u64) as nat) * 0x1_0000_0000_0000_0000 + ((p as u64) as nat) == p,
{
    assert((((p >> 64) as u64) as nat) * 0x1_0000_0000_0000_0000 + ((p as u64) as nat) == p)
        by (bit_vector);
}

/// An encoded guess, read as a big-endian numeral, is the guess's number.
pub proof fn lemma_encode_num(g: Guess)
    ensures
        be_num(spec_encode_guess(g)) == guess_num(g),
        spec_encode_guess(g).len() == 20,
{
    let hi = (g.player >> 64) as u64;
    let lo = g.player as u64;
    let tail = be8(hi) + be8(lo);
    assert(spec_encode_guess(g) =~= be4(g.nonce) + tail);
    lemma_be_num_concat(be8(hi), be8(lo));
    lemma_be_num_concat(be4(g.nonce), tail);
    lemma_be4_num(g.nonce);
    lemma_be8_num(hi);
    lemma_be8_num(lo);
    lemma_player_split(g.player);
    lemma_pow256_values();
    lemma_pow256_add(8, 8);
    assert(be_num(tail) == (hi as nat) * pow256(8) + (lo as nat));
    assert(be_num(spec_encode_guess(g)) == (g.nonce as nat) * pow256(16) + be_num(tail));
}

/// A valid 20-byte row, read as a numeral, is the number of the guess it decodes to.
pub proof fn lemma_decode_num(s: Seq<u8>)
    requires
        s.len() == 20,
    ensures
        spec_decode_guess(s) matches Some(g) && guess_num(g) == be_num(s),
{
    let head = s.subrange(0, 4);
    let tail = s.subrange(4, 20);
    assert(s =~= head + tail);
    lemma_be_num_concat(head, tail);
    lemma_be_num_bound(head);
    lemma_be_num_bound(tail);
    lemma_pow256_values();
    let g = spec_decode_guess(s)->0;
    assert(g.nonce as nat == be_num(head));
    assert(g.player as nat == be_num(tail));
}

/// Comparing guesses by (nonce, player) is comparing their numbers.
pub proof fn lemma_guess_num_order(a: Guess, b: Guess)
    ensures
        guess_lt(a, b) <==> guess_num(a) < guess_num(b),
        a == b <==> guess_num(a) == guess_num(b),
{
    lemma_pow256_values();
    let p16 = pow256(16);
    assert((a.nonce as nat) * p16 + (a.player as nat) < (b.nonce as nat) * p16 + (b.player as nat)
        <==> (a.nonce < b.nonce || (a.nonce == b.nonce && a.player < b.player)))
        by (nonlinear_arith)
        requires
            (a.player as nat) < p16,
            (b.player as nat) < p16,
            p16 > 0,
    ;
    assert((a.nonce as nat) * p16 + (a.player as nat) == (b.nonce as nat) * p16 + (b.player as nat)
        <==> (a.nonce == b.nonce && a.player == b.player)) by (nonlinear_arith)
        requires
            (a.player as nat) < p16,
            (b.player as nat) < p16,
            p16 > 0,
    ;
}

/// Law: decoding an encoded guess returns the original guess.
pub proof fn lemma_guess_round_trip(g: Guess)
    ensures
        spec_decode_guess(spec_encode_guess(g)) == Some(g),
{
    let s = spec_encode_guess(g);
    lemma_encode_num(g);
    lemma_decode_num(s);
    let d = spec_decode_guess(s)->0;
    lemma_guess_num_order(d, g);
}

/// The encoding keeps the guess order: row order is guess order.
pub proof fn lemma_encode_order(a: Guess, b: Guess)
    ensures
        lex_lt(spec_encode_guess(a), spec_encode_guess(b)) <==> guess_lt(a, b),
        spec_encode_guess(a) == spec_encode_guess(b) <==> a == b,
{
    lemma_encode_num(a);
    lemma_encode_num(b);
    lemma_lex_iff_num(spec_encode_guess(a), spec_encode_guess(b));
    lemma_guess_num_order(a, b);
    if be_num(spec_encode_guess(a)) == be_num(spec_encode_guess(b)) {
        lemma_be_num_inj(spec_encode_guess(a), spec_encode_guess(b));
    }
}

/// Encode a guess into its 20-byte stored form.
pub fn encode_guess(g: &Guess) -> (r: Vec<u8>)
    ensures
        r@ == spec_encode_guess(*g),
{
    let hi: u64 = (g.player >> 64) as u64;
    let lo: u64 = g.player as u64;
    let mut r: Vec<u8> = Vec::new();
    r.push((g.nonce >> 24) as u8);
    r.push((g.nonce >> 16) as u8);
    r.push((g.nonce >> 8) as u8);
    r.push(g.nonce as u8);
    r.push((hi >> 56) as u8);
    r.push((hi >> 48) as u8);
    r.push((hi >> 40) as u8);
    r.push((hi >> 32) as u8);
    r.push((hi >> 24) as u8);
    r.push((hi >> 16) as u8);
    r.push((hi >> 8) as u8);
    r.push(hi as u8);
    r.push((lo >> 56) as u8);
    r.push((lo >> 48) as u8);
    r.push((lo >> 40) as u8);
    r.push((lo >> 32) as u8);
    r.push((lo >> 24) as u8);
    r.push((lo >> 16) as u8);
    r.push((lo >> 8) as u8);
    r.push(lo as u8);
    proof {
        assert(r@ =~= spec_encode_guess(*g));
    }
    r
}

/// Decode a stored row back into a guess; rows of the wrong length are invalid.
pub fn decode_guess(bytes: &[u8]) -> (r: Option<Guess>)
    ensures
        r == spec_decode_guess(bytes@),
{
    if bytes.len() != 20 {
        return None;
    }
    let nonce: u32 = ((bytes[0] as u32) << 24) | ((bytes[1] as u32) << 16) | ((bytes[2] as u32)
        << 8) | (bytes[3] as u32);
    let hi: u64 = ((bytes[4] as u64) << 56) | ((bytes[5] as u64) << 48) | ((bytes[6] as u64) << 40)
        | ((bytes[7] as u64) << 32) | ((bytes[8] as u64) << 24) | ((bytes[9] as u64) << 16) | ((
    bytes[10] as u64) << 8) | (bytes[11] as u64);
    let lo: u64 = ((bytes[12] as u64) << 56) | ((bytes[13] as u64) << 48) | ((bytes[14] as u64)
        << 40) | ((bytes[15] as u64) << 32) | ((bytes[16] as u64) << 24) | ((bytes[17] as u64)
        << 16) | ((bytes[18] as u64) << 8) | (bytes[19] as u64);
    let player: u128 = ((hi as u128) << 64) | (lo as u128);
    proof {
        let s = bytes@;
        lemma_or4(s[0], s[1], s[2], s[3], nonce);
        lemma_or8(s[4], s[5], s[6], s[7], s[8], s[9], s[10], s[11], hi);
        lemma_or8(s[12], s[13], s[14], s[15], s[16], s[17], s[18], s[19], lo);
        lemma_or_halves(hi, lo, player);
        lemma_subrange_num(s);
        lemma_be_num_bound(s.subrange(0, 4));
        lemma_be_num_bound(s.subrange(4, 20));
        lemma_pow256_values();
    }
    Some(Guess { player, nonce })
}

/// Shifting four bytes into a 32-bit word builds their big-endian numeral.
proof fn lemma_or4(b0: u8, b1: u8, b2: u8, b3: u8, v: u32)
    requires
        v == ((b0 as u32) << 24) | ((b1 as u32) << 16) | ((b2 as u32) << 8) | (b3 as u32),
    ensures
        v as nat == be_num4(b0, b1, b2, b3),
{
    assert(v as nat == be_num4(b0, b1, b2, b3)) by (bit_vector)
        requires
            v == ((b0 as u32) << 24) | ((b1 as u32) << 16) | ((b2 as u32) << 8) | (b3 as u32),
    ;
}

/// Shifting eight bytes into a 64-bit word builds their big-endian numeral.
proof fn lemma_or8(b0: u8, b1: u8, b2: u8, b3: u8, b4: u8, b5: u8, b6: u8, b7: u8, v: u64)
    requires
        v == ((b0 as u64) << 56) | ((b1 as u64) << 48) | ((b2 as u64) << 40) | ((b3 as u64) << 32)
            | ((b4 as u64) << 24) | ((b5 as u64) << 16) | ((b6 as u64) << 8) | (b7 as u64),
    ensures
        v as nat == be_num8(b0, b1, b2, b3, b4, b5, b6, b7),
{
    assert(v as nat == be_num8(b0, b1, b2, b3, b4, b5, b6, b7)) by (bit_vector)
        requires
            v == ((b0 as u64) << 56) | ((b1 as u64) << 48) | ((b2 as u64) << 40) | ((b3 as u64)
                << 32) | ((b4 as u64) << 24) | ((b5 as u64) << 16) | ((b6 as u64) << 8) | (
            b7 as u64),
    ;
}

/// Joining the two 64-bit halves rebuilds the 128-bit player identifier.
proof fn lemma_or_halves(hi: u64, lo: u64, p: u128)
    requires
        p == ((hi as u128) << 64) | (lo as u128),
    ensures
        p as nat == (hi as nat) * 0x1_0000_0000_0000_0000 + (lo as nat),
{
    assert(p as nat == (hi as nat) * 0x1_0000_0000_0000_0000 + (lo as nat)) by (bit_vector)
        requires
            p == ((hi as u128) << 64) | (lo as u128),
    ;
}

/// The numeral of 4 explicit bytes, written out.
pub open spec fn be_num4(b0: u8, b1: u8, b2: u8, b3: u8) -> nat {
    (b0 as nat) * 0x100_0000 + (b1 as nat) * 0x1_0000 + (b2 as nat) * 0x100 + (b3 as nat)
}

/// The numeral of 8 explicit bytes, written out.
pub open spec fn be_num8(b0: u8, b1: u8, b2: u8, b3: u8, b4: u8, b5: u8, b6: u8, b7: u8) -> nat {
    (b0 as nat) * 0x100_0000_0000_0000 + (b1 as nat) * 0x1_0000_0000_0000 + (b2 as nat)
        * 0x100_0000_0000 + (b3 as nat) * 0x1_0000_0000 + (b4 as nat) * 0x100_0000 + (b5 as nat)
        * 0x1_0000 + (b6 as nat) * 0x100 + (b7 as nat)
}

/// Reading a 20-byte row in pieces: the nonce prefix, the two player halves.
proof fn lemma_subrange_num(s: Seq<u8>)
    requires
        s.len() == 20,
    ensures
        be_num(s.subrange(0, 4)) == be_num4(s[0], s[1], s[2], s[3]),
        be_num(s.subrange(4, 20)) == be_num8(s[4], s[5], s[6], s[7], s[8], s[9], s[10], s[11])
            * 0x1_0000_0000_0000_0000 + be_num8(
            s[12],
            s[13],
            s[14],
            s[15],
            s[16],
            s[17],
            s[18],
            s[19],
        ),
{
    lemma_be_num_seq4(s.subrange(0, 4));
    let mid = s.subrange(4, 12);
    let tail = s.subrange(12, 20);
    assert(s.subrange(4, 20) =~= mid + tail);
    lemma_be_num_concat(mid, tail);
    lemma_be_num_seq8(mid);
    lemma_be_num_seq8(tail);
    lemma_pow256_values();
}

/// Unfolding `be_num` over a 4-byte string.
proof fn lemma_be_num_seq4(s: Seq<u8>)
    requires
        s.len() == 4,
    ensures
        be_num(s) == be_num4(s[0], s[1], s[2], s[3]),
{
    let s1 = s.subrange(1, 4);
    let s2 = s.subrange(2, 4);
    let s3 = s.subrange(3, 4);
    assert(s.skip(1) =~= s1);
    assert(s1.skip(1) =~= s2);
    assert(s2.skip(1) =~= s3);
    assert(s3.skip(1) =~= Seq::<u8>::empty());
    lemma_pow256_values();
    assert(be_num(Seq::<u8>::empty()) == 0);
    assert(be_num(s3) == (s3[0] as nat) * pow256(0) + be_num(s3.skip(1)));
    assert(be_num(s2) == (s2[0] as nat) * pow256(1) + be_num(s2.skip(1)));
    assert(be_num(s1) == (s1[0] as nat) * pow256(2) + be_num(s1.skip(1)));
    assert(be_num(s) == (s[0] as nat) * pow256(3) + be_num(s.skip(1)));
}

/// Unfolding `be_num` over an 8-byte string.
proof fn lemma_be_num_seq8(s: Seq<u8>)
    requires
        s.len() == 8,
    ensures
        be_num(s) == be_num8(s[0], s[1], s[2], s[3], s[4], s[5], s[6], s[7]),
{
    let s1 = s.subrange(1, 8);
    let s2 = s.subrange(2, 8);
    let s3 = s.subrange(3, 8);
    let s4 = s.subrange(4, 8);
    let s5 = s.subrange(5, 8);
    let s6 = s.subrange(6, 8);
    let s7 = s.subrange(7, 8);
    assert(s.skip(1) =~= s1);
    assert(s1.skip(1) =~= s2);
    assert(s2.skip(1) =~= s3);
    assert(s3.skip(1) =~= s4);
    assert(s4.skip(1) =~= s5);
    assert(s5.skip(1) =~= s6);
    assert(s6.skip(1) =~= s7);
    assert(s7.skip(1) =~= Seq::<u8>::empty());
    lemma_pow256_values();
    assert(be_num(Seq::<u8>::empty()) == 0);
    assert(be_num(s7) == (s7[0] as nat) * pow256(0) + be_num(s7.skip(1)));
    assert(be_num(s6) == (s6[0] as nat) * pow256(1) + be_num(s6.skip(1)));
    assert(be_num(s5) == (s5[0] as nat) * pow256(2) + be_num(s5.skip(1)));
    assert(be_num(s4) == (s4[0] as nat) * pow256(3) + be_num(s4.skip(1)));
    assert(be_num(s3) == (s3[0] as nat) * pow256(4) + be_num(s3.skip(1)));
    assert(be_num(s2) == (s2[0] as nat) * pow256(5) + be_num(s2.skip(1)));
    assert(be_num(s1) == (s1[0] as nat) * pow256(6) + be_num(s1.skip(1)));
    assert(be_num(s) == (s[0] as nat) * pow256(7) + be_num(s.skip(1)));
}

/// Order two guesses by their nonce field alone, the value order of the store.
pub fn compare_guesses(a: &Guess, b: &Guess) -> (r: core::cmp::Ordering)
    ensures
        r is Less <==> a.nonce < b.nonce,
        r is Equal <==> a.nonce == b.nonce,
        r is Greater <==> a.nonce > b.nonce,
{
    if a.nonce < b.nonce {
        core::cmp::Ordering::Less
    } else if a.nonce == b.nonce {
        core::cmp::Ordering::Equal
    } else {
        core::cmp::Ordering::Greater
    }
}

} // verus!
