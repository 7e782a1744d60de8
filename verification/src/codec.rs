//! The executable codec: the `VarInt` trait and the zigzag transform.

use vstd::prelude::*;

verus! {

use crate::model::decode_from;
use crate::model::decode_spec;
use crate::model::encode_spec;
use crate::model::lemma_encode_len;
use crate::model::lemma_required_space_bounds;
use crate::model::lemma_zigzag_roundtrip;
use crate::model::required_space_spec;
use crate::model::unzigzag_spec;
use crate::model::zigzag_spec;
use vstd::arithmetic::mul::lemma_mul_inequality;
use vstd::arithmetic::power2::lemma2_to64;
use vstd::arithmetic::power2::lemma2_to64_rest;
use vstd::arithmetic::power2::lemma_pow2_adds;
use vstd::arithmetic::power2::lemma_pow2_strictly_increases;
use vstd::arithmetic::power2::pow2;

/// Varint (variable length integer) encoding: 7 payload bits per byte, the
/// high bit of each byte a continuation flag, least-significant group first.
/// Signed types go through the zigzag transform.
///
/// All widths share one wire format: a value encodes through its 64-bit
/// `wire` image, and a byte sequence decodes to a width exactly when the
/// decoded 64-bit wire value `fits` that width.
pub trait VarInt: Sized + Copy {
    /// The 64-bit wire value this value encodes as.
    spec fn wire(self) -> u64;

    /// Whether a decoded 64-bit wire value is representable at this width.
    spec fn fits(w: u64) -> bool;

    /// The value of this width that a fitting wire value stands for.
    spec fn of_wire(w: u64) -> Self;

    /// The wire image of a value always fits its own width and maps back to
    /// the value itself.
    proof fn lemma_wire(self)
        ensures
            Self::fits(self.wire()),
            Self::of_wire(self.wire()) == self,
    ;

    /// Returns the number of bytes this number needs in its encoded form,
    /// which varies with the value: between 1 and 10.
    fn required_space(self) -> (n: usize)
        ensures
            n == required_space_spec(self.wire()),
    ;

    /// Decode a value from the slice. Returns the value and the number of
    /// bytes read, so several consecutive values can be read from one big
    /// slice; bytes past the terminating byte are never inspected. Returns
    /// `None` when the input is truncated, when the wire value overflows 64
    /// bits, and when it does not fit this width.
    fn decode_var(src: &[u8]) -> (r: Option<(Self, usize)>)
        ensures
            (match decode_spec(src@) {
                Some((w, len)) => if Self::fits(w) {
                    r == Some((Self::of_wire(w), len))
                } else {
                    r is None
                },
                None => r is None,
            }),
    ;

    /// Encode a value into the slice, which must be at least
    /// `required_space()` bytes long. Writes the canonical encoding at the
    /// front, leaves the rest untouched, and returns the number of bytes
    /// written.
    fn encode_var(self, dst: &mut [u8]) -> (n: usize)
        requires
            old(dst)@.len() >= required_space_spec(self.wire()),
        ensures
            n == required_space_spec(self.wire()),
            final(dst)@.len() == old(dst)@.len(),
            final(dst)@.subrange(0, n as int) == encode_spec(self.wire()),
            forall|j: int| n <= j < final(dst)@.len() ==> final(dst)@[j] == old(dst)@[j],
    ;

    /// Helper: encode a value and return the encoded form as a `Vec`.
    fn encode_var_vec(self) -> (v: Vec<u8>)
        ensures
            v@ == encode_spec(self.wire()),
    {
        let n = self.required_space();
        let mut buf: Vec<u8> = vec![0u8; n];
        self.encode_var(buf.as_mut_slice());
        proof {
            assert(buf@ =~= buf@.subrange(0, n as int));
        }
        buf
    }
}

impl VarInt for u64 {
    open spec fn wire(self) -> u64 {
        self
    }

    open spec fn fits(w: u64) -> bool {
        true
    }

    open spec fn of_wire(w: u64) -> Self {
        w
    }

    proof fn lemma_wire(self) {
    }

    fn required_space(self) -> (n: usize) {
        proof {
            lemma_required_space_bounds(self);
        }
        let mut v: u64 = self;
        let mut n: usize = 1;
        while v >= 128
            invariant
                required_space_spec(self) <= 10,
                required_space_spec(self) == n - 1 + required_space_spec(v),
                1 <= n,
            decreases v,
        {
            v = v / 128;
            n = n + 1;
        }
        n
    }

    fn decode_var(src: &[u8]) -> (r: Option<(Self, usize)>) {
        proof {
            lemma2_to64();
            lemma2_to64_rest();
        }
        let mut result: u64 = 0;
        let mut mul: u64 = 1;
        let mut i: usize = 0;
        while i < src.len()
            invariant
                i <= src@.len(),
                i <= 9,
                mul == pow2((7 * i) as nat),
                result < mul,
                decode_spec(src@) == decode_from(src@, i as nat, result as int),
            decreases src@.len() - i,
        {
            let b = src[i];
            proof {
                lemma2_to64();
                lemma2_to64_rest();
                if i < 9 {
                    lemma_pow2_adds((7 * i) as nat, 7);
                    if 7 * i < 56 {
                        lemma_pow2_strictly_increases((7 * i) as nat, 56);
                    }
                    assert(mul <= pow2(56));
                }
            }
            if i == 9 {
                if b < 2 {
                    return Some((result + (b as u64) * mul, 10));
                } else {
                    return None;
                }
            } else if b < 128 {
                proof {
                    assert((b as int) * (mul as int) <= 127 * (mul as int)) by {
                        lemma_mul_inequality(b as int, 127, mul as int);
                    }
                }
                return Some((result + (b as u64) * mul, i + 1));
            } else {
                proof {
                    assert((b - 128) * (mul as int) <= 127 * (mul as int)) by {
                        lemma_mul_inequality((b - 128) as int, 127, mul as int);
                    }
                }
                result = result + ((b - 128) as u64) * mul;
                mul = mul * 128;
                i = i + 1;
            }
        }
        None
    }

    fn encode_var(self, dst: &mut [u8]) -> (n: usize) {
        proof {
            lemma_required_space_bounds(self);
            lemma_encode_len(self);
            assert(encode_spec(self) =~= dst@.subrange(0, 0) + encode_spec(self));
        }
        let mut v: u64 = self;
        let mut i: usize = 0;
        while v >= 128
            invariant
                dst@.len() == old(dst)@.len(),
                old(dst)@.len() >= required_space_spec(self),
                required_space_spec(self) == i + required_space_spec(v),
                encode_spec(self) == dst@.subrange(0, i as int) + encode_spec(v),
                forall|j: int| #![trigger dst@[j]] i <= j < dst@.len() ==> dst@[j] == old(
                    dst,
                )@[j],
            decreases v,
        {
            proof {
                assert(required_space_spec(v) == 1 + required_space_spec((v / 128) as u64));
                assert(required_space_spec((v / 128) as u64) >= 1);
            }
            let b: u8 = ((v % 128) as u8) + 128;
            let ghost pre = dst@;
            dst[i] = b;
            proof {
                assert(dst@ == pre.update(i as int, b));
                assert(dst@.subrange(0, (i + 1) as int) =~= pre.subrange(0, i as int).push(b));
                assert(encode_spec(v) == seq![b] + encode_spec((v / 128) as u64));
                assert(encode_spec(self) =~= dst@.subrange(0, (i + 1) as int) + encode_spec(
                    (v / 128) as u64,
                ));
            }
            v = v / 128;
            i = i + 1;
        }
        let ghost pre = dst@;
        dst[i] = v as u8;
        proof {
            assert(dst@ == pre.update(i as int, v as u8));
            assert(dst@.subrange(0, (i + 1) as int) =~= pre.subrange(0, i as int).push(v as u8));
            assert(encode_spec(v) =~= seq![v as u8]);
            assert(dst@.subrange(0, (i + 1) as int) =~= encode_spec(self));
        }
        i + 1
    }
}

impl VarInt for i64 {
    open spec fn wire(self) -> u64 {
        zigzag_spec(self)
    }

    open spec fn fits(w: u64) -> bool {
        true
    }

    open spec fn of_wire(w: u64) -> Self {
        unzigzag_spec(w)
    }

    proof fn lemma_wire(self) {
        lemma_zigzag_roundtrip(self);
    }

    fn required_space(self) -> (n: usize) {
        zigzag_encode(self).required_space()
    }

    fn decode_var(src: &[u8]) -> (r: Option<(Self, usize)>) {
        match u64::decode_var(src) {
            Some((w, len)) => Some((zigzag_decode(w), len)),
            None => None,
        }
    }

    fn encode_var(self, dst: &mut [u8]) -> (n: usize) {
        zigzag_encode(self).encode_var(dst)
    }
}

/// Maps a signed value to the unsigned wire value that encodes it:
/// 0, -1, 1, -2, 2, ... become 0, 1, 2, 3, 4, ...
pub fn zigzag_encode(from: i64) -> (r: u64)
    ensures
        r == zigzag_spec(from),
{
    if from >= 0 {
        (from as u64) * 2
    } else {
        let m = -(from + 1);
        (m as u64) * 2 + 1
    }
}

/// Maps an unsigned wire value back to the signed value it stands for;
/// the inverse of `zigzag_encode`.
pub fn zigzag_decode(from: u64) -> (r: i64)
    ensures
        r == unzigzag_spec(from),
{
    let h = from / 2;
    if from % 2 == 0 {
        h as i64
    } else {
        -(h as i64) - 1
    }
}

impl VarInt for u8 {
    open spec fn wire(self) -> u64 {
        self as u64
    }

    open spec fn fits(w: u64) -> bool {
        w <= u8::MAX as u64
    }

    open spec fn of_wire(w: u64) -> Self {
        w as u8
    }

    proof fn lemma_wire(self) {
    }

    fn required_space(self) -> (n: usize) {
        (self as u64).required_space()
    }

    fn decode_var(src: &[u8]) -> (r: Option<(Self, usize)>) {
        match u64::decode_var(src) {
            Some((w, len)) => if w > u8::MAX as u64 {
                None
            } else {
                Some((w as u8, len))
            },
            None => None,
        }
    }

    fn encode_var(self, dst: &mut [u8]) -> (n: usize) {
        (self as u64).encode_var(dst)
    }
}

impl VarInt for u16 {
    open spec fn wire(self) -> u64 {
        self as u64
    }

    open spec fn fits(w: u64) -> bool {
        w <= u16::MAX as u64
    }

    open spec fn of_wire(w: u64) -> Self {
        w as u16
    }

    proof fn lemma_wire(self) {
    }

    fn required_space(self) -> (n: usize) {
        (self as u64).required_space()
    }

    fn decode_var(src: &[u8]) -> (r: Option<(Self, usize)>) {
        match u64::decode_var(src) {
            Some((w, len)) => if w > u16::MAX as u64 {
                None
            } else {
                Some((w as u16, len))
            },
            None => None,
        }
    }

    fn encode_var(self, dst: &mut [u8]) -> (n: usize) {
        (self as u64).encode_var(dst)
    }
}

impl VarInt for u32 {
    open spec fn wire(self) -> u64 {
        self as u64
    }

    open spec fn fits(w: u64) -> bool {
        w <= u32::MAX as u64
    }

    open spec fn of_wire(w: u64) -> Self {
        w as u32
    }

    proof fn lemma_wire(self) {
    }

    fn required_space(self) -> (n: usize) {
        (self as u64).required_space()
    }

    fn decode_var(src: &[u8]) -> (r: Option<(Self, usize)>) {
        match u64::decode_var(src) {
            Some((w, len)) => if w > u32::MAX as u64 {
                None
            } else {
                Some((w as u32, len))
            },
            None => None,
        }
    }

    fn encode_var(self, dst: &mut [u8]) -> (n: usize) {
        (self as u64).encode_var(dst)
    }
}

impl VarInt for usize {
    open spec fn wire(self) -> u64 {
        self as u64
    }

    open spec fn fits(w: u64) -> bool {
        w <= usize::MAX as u64
    }

    open spec fn of_wire(w: u64) -> Self {
        w as usize
    }

    proof fn lemma_wire(self) {
    }

    fn required_space(self) -> (n: usize) {
        (self as u64).required_space()
    }

    fn decode_var(src: &[u8]) -> (r: Option<(Self, usize)>) {
        match u64::decode_var(src) {
            Some((w, len)) => if w > usize::MAX as u64 {
                None
            } else {
                Some((w as usize, len))
            },
            None => None,
        }
    }

    fn encode_var(self, dst: &mut [u8]) -> (n: usize) {
        (self as u64).encode_var(dst)
    }
}

impl VarInt for i8 {
    open spec fn wire(self) -> u64 {
        zigzag_spec(self as i64)
    }

    open spec fn fits(w: u64) -> bool {
        i8::MIN as i64 <= unzigzag_spec(w) <= i8::MAX as i64
    }

    open spec fn of_wire(w: u64) -> Self {
        unzigzag_spec(w) as i8
    }

    proof fn lemma_wire(self) {
        lemma_zigzag_roundtrip(self as i64);
    }

    fn required_space(self) -> (n: usize) {
        (self as i64).required_space()
    }

    fn decode_var(src: &[u8]) -> (r: Option<(Self, usize)>) {
        match i64::decode_var(src) {
            Some((v, len)) => if v > i8::MAX as i64 || v < i8::MIN as i64 {
                None
            } else {
                Some((v as i8, len))
            },
            None => None,
        }
    }

    fn encode_var(self, dst: &mut [u8]) -> (n: usize) {
        (self as i64).encode_var(dst)
    }
}

impl VarInt for i16 {
    open spec fn wire(self) -> u64 {
        zigzag_spec(self as i64)
    }

    open spec fn fits(w: u64) -> bool {
        i16::MIN as i64 <= unzigzag_spec(w) <= i16::MAX as i64
    }

    open spec fn of_wire(w: u64) -> Self {
        unzigzag_spec(w) as i16
    }

    proof fn lemma_wire(self) {
        lemma_zigzag_roundtrip(self as i64);
    }

    fn required_space(self) -> (n: usize) {
        (self as i64).required_space()
    }

    fn decode_var(src: &[u8]) -> (r: Option<(Self, usize)>) {
        match i64::decode_var(src) {
            Some((v, len)) => if v > i16::MAX as i64 || v < i16::MIN as i64 {
                None
            } else {
                Some((v as i16, len))
            },
            None => None,
        }
    }

    fn encode_var(self, dst: &mut [u8]) -> (n: usize) {
        (self as i64).encode_var(dst)
    }
}

impl VarInt for i32 {
    open spec fn wire(self) -> u64 {
        zigzag_spec(self as i64)
    }

    open spec fn fits(w: u64) -> bool {
        i32::MIN as i64 <= unzigzag_spec(w) <= i32::MAX as i64
    }

    open spec fn of_wire(w: u64) -> Self {
        unzigzag_spec(w) as i32
    }

    proof fn lemma_wire(self) {
        lemma_zigzag_roundtrip(self as i64);
    }

    fn required_space(self) -> (n: usize) {
        (self as i64).required_space()
    }

    fn decode_var(src: &[u8]) -> (r: Option<(Self, usize)>) {
        match i64::decode_var(src) {
            Some((v, len)) => if v > i32::MAX as i64 || v < i32::MIN as i64 {
                None
            } else {
                Some((v as i32, len))
            },
            None => None,
        }
    }

    fn encode_var(self, dst: &mut [u8]) -> (n: usize) {
        (self as i64).encode_var(dst)
    }
}

impl VarInt for isize {
    open spec fn wire(self) -> u64 {
        zigzag_spec(self as i64)
    }

    open spec fn fits(w: u64) -> bool {
        isize::MIN as i64 <= unzigzag_spec(w) <= isize::MAX as i64
    }

    open spec fn of_wire(w: u64) -> Self {
        unzigzag_spec(w) as isize
    }

    proof fn lemma_wire(self) {
        lemma_zigzag_roundtrip(self as i64);
    }

    fn required_space(self) -> (n: usize) {
        (self as i64).required_space()
    }

    fn decode_var(src: &[u8]) -> (r: Option<(Self, usize)>) {
        match i64::decode_var(src) {
            Some((v, len)) => if v > isize::MAX as i64 || v < isize::MIN as i64 {
                None
            } else {
                Some((v as isize, len))
            },
            None => None,
        }
    }

    fn encode_var(self, dst: &mut [u8]) -> (n: usize) {
        (self as i64).encode_var(dst)
    }
}

/// Round trip, for every representable value of every supported width: the
/// canonical encoding of `v`'s wire image, followed by any further bytes,
/// decodes back to exactly `v`'s wire image, consuming exactly the
/// encoding's length — and that wire value fits `v`'s width and maps back
/// to `v`. Together with the contracts of `encode_var` and `decode_var`,
/// this says `decode_var` on what `encode_var` wrote returns `Some((v, n))`
/// with `n` the encoded length.
pub proof fn lemma_round_trip<T: VarInt>(v: T, rest: Seq<u8>)
    ensures
        decode_spec(encode_spec(v.wire()) + rest) == Some((
            v.wire(),
            required_space_spec(v.wire()) as usize,
        )),
        T::fits(v.wire()),
        T::of_wire(v.wire()) == v,
{
    crate::model::lemma_round_trip_wire(v.wire(), rest);
    v.lemma_wire();
}

} // verus!
