//! The mathematical model of the wire format.
//!
//! Every encoded value is a sequence of 1 to 10 bytes. Each byte carries 7
//! payload bits in its low bits; its high bit is the continuation flag (set
//! means more bytes follow). Payload groups come least-significant first.
//! The spec functions here define the canonical encoding of a 64-bit wire
//! value, the number of bytes it occupies, what a byte sequence decodes to,
//! and the zigzag map between signed and unsigned 64-bit values.

use vstd::prelude::*;

verus! {

use vstd::arithmetic::div_mod::lemma_fundamental_div_mod;
use vstd::arithmetic::mul::lemma_mul_inequality;
use vstd::arithmetic::power2::lemma2_to64;
use vstd::arithmetic::power2::lemma2_to64_rest;
use vstd::arithmetic::power2::lemma_pow2_adds;
use vstd::arithmetic::power2::pow2;

/// The exact number of bytes the canonical encoding of `v` occupies:
/// one byte per 7-bit group of significant bits, and one byte for zero.
pub open spec fn required_space_spec(v: u64) -> nat
    decreases v,
{
    if v < 128 {
        1
    } else {
        1 + required_space_spec((v / 128) as u64)
    }
}

/// The canonical encoding of the 64-bit wire value `v`: the low 7 bits of
/// each remaining group, with the continuation bit set on every byte but
/// the last.
pub open spec fn encode_spec(v: u64) -> Seq<u8>
    decreases v,
{
    if v < 128 {
        seq![v as u8]
    } else {
        seq![(v % 128 + 128) as u8] + encode_spec((v / 128) as u64)
    }
}

/// What a byte sequence decodes to, scanning from index `i` with the payload
/// of the bytes before `i` accumulated in `acc`. A byte below 128 ends the
/// value; a 10th byte must be 0 or 1, since 9 groups already cover 63 bits
/// and only one more bit fits in 64. Running out of bytes first is a failure.
pub open spec fn decode_from(s: Seq<u8>, i: nat, acc: int) -> Option<(u64, usize)>
    decreases s.len() - i,
{
    if i >= s.len() {
        None
    } else {
        let b = s[i as int];
        if i >= 9 {
            if b < 2 {
                Some((((acc + b * pow2(63)) as u64), 10usize))
            } else {
                None
            }
        } else if b < 128 {
            Some((((acc + b * pow2((7 * i) as nat)) as u64), (i + 1) as usize))
        } else {
            decode_from(s, i + 1, acc + (b - 128) * pow2((7 * i) as nat))
        }
    }
}

/// What a byte sequence decodes to as a 64-bit wire value, together with the
/// number of bytes consumed; `None` on truncated or overflowing input.
pub open spec fn decode_spec(s: Seq<u8>) -> Option<(u64, usize)> {
    decode_from(s, 0, 0)
}

/// The zigzag map from signed to unsigned 64-bit values: 0, -1, 1, -2, 2, ...
/// become 0, 1, 2, 3, 4, ..., so small magnitudes of either sign are small.
pub open spec fn zigzag_spec(v: i64) -> u64 {
    if v >= 0 {
        (2 * v) as u64
    } else {
        (-2 * v - 1) as u64
    }
}

/// The inverse of the zigzag map: even values come from non-negative
/// integers, odd values from negative ones.
pub open spec fn unzigzag_spec(w: u64) -> i64 {
    if w % 2 == 0 {
        (w / 2) as i64
    } else {
        (-1 - w / 2) as i64
    }
}

/// The zigzag map is undone exactly by its inverse, for every signed value.
pub proof fn lemma_zigzag_roundtrip(v: i64)
    ensures
        unzigzag_spec(zigzag_spec(v)) == v,
{
}

/// An encoding never exceeds 10 bytes and never is empty.
pub proof fn lemma_required_space_bounds(v: u64)
    ensures
        1 <= required_space_spec(v) <= 10,
{
    lemma2_to64();
    lemma2_to64_rest();
    lemma_pow2_adds(63, 7);
    assert(v < pow2(70));
    lemma_required_space_le(v, 10);
}

/// A value below `pow2(7 * k)` needs at most `k` bytes.
proof fn lemma_required_space_le(v: u64, k: nat)
    requires
        1 <= k,
        v < pow2((7 * k) as nat),
    ensures
        required_space_spec(v) <= k,
    decreases k,
{
    if v >= 128 {
        lemma2_to64();
        if k == 1 {
            assert(false);
        } else {
            lemma_pow2_adds(7, (7 * (k - 1)) as nat);
            assert(v < 128 * pow2((7 * (k - 1)) as nat));
            assert(v / 128 < pow2((7 * (k - 1)) as nat));
            lemma_required_space_le((v / 128) as u64, (k - 1) as nat);
        }
    }
}

/// Canonical minimality: the encoding of `v` occupies exactly
/// `required_space_spec(v)` bytes, with no redundant trailing bytes.
pub proof fn lemma_encode_len(v: u64)
    ensures
        encode_spec(v).len() == required_space_spec(v),
    decreases v,
{
    if v >= 128 {
        lemma_encode_len((v / 128) as u64);
    }
}

/// Scanning a canonical encoding placed at index `i` consumes exactly its
/// bytes and adds its value, scaled to the current group position, to the
/// payload accumulated so far.
proof fn lemma_decode_from_encode(s: Seq<u8>, i: nat, acc: int, v: u64)
    requires
        i + required_space_spec(v) <= 10,
        i + required_space_spec(v) <= s.len(),
        s.subrange(i as int, (i + required_space_spec(v)) as int) == encode_spec(v),
        0 <= acc < pow2((7 * i) as nat),
        acc + v * pow2((7 * i) as nat) < pow2(64),
    ensures
        decode_from(s, i, acc) == Some((
            ((acc + v * pow2((7 * i) as nat)) as u64),
            ((i + required_space_spec(v)) as usize),
        )),
    decreases v,
{
    lemma_encode_len(v);
    lemma2_to64();
    lemma2_to64_rest();
    let b = s[i as int];
    assert(b == encode_spec(v)[0]);
    if v < 128 {
        assert(b == v as u8);
        if i >= 9 {
            assert(i == 9);
            assert(7 * i == 63);
            assert(pow2(64) == 2 * pow2(63)) by {
                lemma_pow2_adds(63, 1);
            }
            assert(v < 2) by {
                if v >= 2 {
                    lemma_mul_inequality(2, v as int, pow2(63) as int);
                    assert(false);
                }
            }
        }
    } else {
        assert(b == (v % 128 + 128) as u8);
        assert(b >= 128);
        let rest = (v / 128) as u64;
        assert(required_space_spec(v) == 1 + required_space_spec(rest));
        assert(required_space_spec(rest) >= 1);
        assert(i < 9);
        let acc2 = acc + (b - 128) * pow2((7 * i) as nat);
        assert(b - 128 == v % 128);
        assert(encode_spec(v) == seq![(v % 128 + 128) as u8] + encode_spec(rest));
        lemma_encode_len(rest);
        let tail = s.subrange((i + 1) as int, ((i + 1) + required_space_spec(rest)) as int);
        assert forall|j: int| 0 <= j < required_space_spec(rest) implies tail[j] == encode_spec(
            rest,
        )[j] by {
            assert(encode_spec(rest)[j] == encode_spec(v)[j + 1]);
            assert(encode_spec(v)[j + 1] == s.subrange(
                i as int,
                (i + required_space_spec(v)) as int,
            )[j + 1]);
        }
        assert(tail =~= encode_spec(rest));
        assert(pow2((7 * (i + 1)) as nat) == 128 * pow2((7 * i) as nat)) by {
            lemma_pow2_adds((7 * i) as nat, 7);
        }
        assert(acc2 < pow2((7 * (i + 1)) as nat)) by {
            lemma_mul_inequality((b - 128) as int, 127, pow2((7 * i) as nat) as int);
        }
        assert(acc2 + rest * pow2((7 * (i + 1)) as nat) == acc + v * pow2((7 * i) as nat)) by {
            lemma_fundamental_div_mod(v as int, 128);
            assert((128 * (v / 128) + v % 128) * pow2((7 * i) as nat) == (v % 128) * pow2(
                (7 * i) as nat,
            ) + (v / 128) * (128 * pow2((7 * i) as nat))) by (nonlinear_arith);
        }
        lemma_decode_from_encode(s, i + 1, acc2, rest);
    }
}

/// Round trip at the wire level: the canonical encoding of any 64-bit wire
/// value, followed by arbitrary further bytes, decodes back to that value,
/// consuming exactly the encoding's bytes.
pub proof fn lemma_round_trip_wire(v: u64, rest: Seq<u8>)
    ensures
        required_space_spec(v) <= 10,
        decode_spec(encode_spec(v) + rest) == Some((
            v,
            required_space_spec(v) as usize,
        )),
{
    let s = encode_spec(v) + rest;
    lemma_encode_len(v);
    lemma_required_space_bounds(v);
    lemma2_to64();
    assert(s.subrange(0, required_space_spec(v) as int) =~= encode_spec(v));
    assert(v * pow2(0) == v);
    lemma_decode_from_encode(s, 0, 0, v);
}

/// A byte sequence with no terminator fails to decode: if every byte has the
/// continuation bit set — in particular if the sequence is empty — decoding
/// yields `None`, whatever the length.
pub proof fn lemma_unterminated_decode_fails(s: Seq<u8>)
    requires
        forall|j: int| 0 <= j < s.len() ==> s[j] >= 128,
    ensures
        decode_spec(s) is None,
{
    lemma_decode_from_unterminated(s, 0, 0);
}

proof fn lemma_decode_from_unterminated(s: Seq<u8>, i: nat, acc: int)
    requires
        forall|j: int| i <= j < s.len() ==> s[j] >= 128,
    ensures
        decode_from(s, i, acc) is None,
    decreases s.len() - i,
{
    if i < s.len() && i < 9 {
        lemma_decode_from_unterminated(
            s,
            i + 1,
            acc + (s[i as int] - 128) * pow2((7 * i) as nat),
        );
    }
}

} // verus!
