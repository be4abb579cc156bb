//! Pure specifications of the integer encodings the buffer speaks, together
//! with proofs that each decode inverts its encode.
//!
//! All encodings are described as functions from mathematical integers to
//! byte sequences (`Seq<u8>`) and back.  The buffer methods in
//! [`crate::encodings`] state their contracts in terms of these functions.

use vstd::arithmetic::div_mod::lemma_div_denominator;
use vstd::arithmetic::div_mod::lemma_fundamental_div_mod;
use vstd::arithmetic::div_mod::lemma_multiply_divide_lt;
use vstd::prelude::*;

verus! {

/// 256 raised to the `n`th power: how many values a run of `n` bytes can hold.
pub open spec fn pow256(n: nat) -> int
    decreases n,
{
    if n == 0 {
        1
    } else {
        256 * pow256((n - 1) as nat)
    }
}

/// The concrete powers of 256 up to the eight bytes of a `u64`.
pub proof fn lemma_pow256_vals()
    ensures
        pow256(0) == 1,
        pow256(1) == 0x100,
        pow256(2) == 0x10000,
        pow256(3) == 0x1000000,
        pow256(4) == 0x100000000,
        pow256(5) == 0x10000000000,
        pow256(6) == 0x1000000000000,
        pow256(7) == 0x100000000000000,
        pow256(8) == 0x10000000000000000,
{
    reveal_with_fuel(pow256, 10);
}

/// Powers of 256 only grow with the exponent.
pub proof fn lemma_pow256_le(a: nat, b: nat)
    requires
        a <= b,
    ensures
        pow256(a) <= pow256(b),
    decreases b,
{
    if a < b {
        lemma_pow256_le(a, (b - 1) as nat);
        lemma_pow256_positive((b - 1) as nat);
    }
}

/// The big-endian encoding of `v` in exactly `w` bytes, most significant
/// byte first.
pub open spec fn be_bytes(v: int, w: nat) -> Seq<u8>
    recommends
        0 <= v < pow256(w),
    decreases w,
{
    if w == 0 {
        Seq::empty()
    } else {
        be_bytes(v / 256, (w - 1) as nat).push((v % 256) as u8)
    }
}

/// The one-byte big-endian encoding, written out.
pub proof fn lemma_be_bytes_1(v: int)
    requires
        0 <= v < 0x100,
    ensures
        be_bytes(v, 1) =~= seq![v as u8],
{
    reveal_with_fuel(be_bytes, 3);
}

/// The two-byte big-endian encoding, written out.
pub proof fn lemma_be_bytes_2(v: int)
    requires
        0 <= v < 0x10000,
    ensures
        be_bytes(v, 2) =~= seq![(v / 0x100) as u8, (v % 0x100) as u8],
{
    reveal_with_fuel(be_bytes, 4);
    assert(v / 0x100 < 0x100);
    assert((v / 0x100) % 0x100 == v / 0x100);
}

/// The integer a big-endian byte run denotes.
pub open spec fn be_val(b: Seq<u8>) -> int
    decreases b.len(),
{
    if b.len() == 0 {
        0
    } else {
        256 * be_val(b.drop_last()) + b.last()
    }
}

/// The little-endian encoding of `v` in exactly `w` bytes, least
/// significant byte first.
pub open spec fn le_bytes(v: int, w: nat) -> Seq<u8>
    recommends
        0 <= v < pow256(w),
    decreases w,
{
    if w == 0 {
        Seq::empty()
    } else {
        seq![(v % 256) as u8] + le_bytes(v / 256, (w - 1) as nat)
    }
}

/// The integer a little-endian byte run denotes.
pub open spec fn le_val(b: Seq<u8>) -> int
    decreases b.len(),
{
    if b.len() == 0 {
        0
    } else {
        b.first() + 256 * le_val(b.drop_first())
    }
}

pub proof fn lemma_be_bytes_len(v: int, w: nat)
    ensures
        be_bytes(v, w).len() == w,
    decreases w,
{
    if w > 0 {
        lemma_be_bytes_len(v / 256, (w - 1) as nat);
    }
}

pub proof fn lemma_le_bytes_len(v: int, w: nat)
    ensures
        le_bytes(v, w).len() == w,
    decreases w,
{
    if w > 0 {
        lemma_le_bytes_len(v / 256, (w - 1) as nat);
    }
}

pub proof fn lemma_pow256_positive(n: nat)
    ensures
        pow256(n) >= 1,
    decreases n,
{
    if n > 0 {
        lemma_pow256_positive((n - 1) as nat);
    }
}

/// The value a byte run denotes is bounded by the width of the run.
pub proof fn lemma_be_val_bound(b: Seq<u8>)
    ensures
        0 <= be_val(b) < pow256(b.len()),
    decreases b.len(),
{
    if b.len() == 0 {
    } else {
        lemma_be_val_bound(b.drop_last());
    }
}

pub proof fn lemma_le_val_bound(b: Seq<u8>)
    ensures
        0 <= le_val(b) < pow256(b.len()),
    decreases b.len(),
{
    if b.len() == 0 {
    } else {
        lemma_le_val_bound(b.drop_first());
    }
}

/// Big-endian decode inverts big-endian encode on every value that fits
/// in the given width.
pub proof fn lemma_be_round_trip(v: int, w: nat)
    requires
        0 <= v < pow256(w),
    ensures
        be_val(be_bytes(v, w)) == v,
    decreases w,
{
    if w == 0 {
    } else {
        let q = v / 256;
        let r = v % 256;
        lemma_fundamental_div_mod(v, 256);
        if v > 0 {
            lemma_multiply_divide_lt(v, 256, pow256((w - 1) as nat));
        }
        lemma_be_round_trip(q, (w - 1) as nat);
        let b = be_bytes(v, w);
        lemma_be_bytes_len(q, (w - 1) as nat);
        assert(b.drop_last() =~= be_bytes(q, (w - 1) as nat));
        assert(b.last() == (r as u8));
    }
}

/// Little-endian decode inverts little-endian encode on every value that
/// fits in the given width.
pub proof fn lemma_le_round_trip(v: int, w: nat)
    requires
        0 <= v < pow256(w),
    ensures
        le_val(le_bytes(v, w)) == v,
    decreases w,
{
    if w == 0 {
    } else {
        let q = v / 256;
        let r = v % 256;
        lemma_fundamental_div_mod(v, 256);
        if v > 0 {
            lemma_multiply_divide_lt(v, 256, pow256((w - 1) as nat));
        }
        lemma_le_round_trip(q, (w - 1) as nat);
        let b = le_bytes(v, w);
        lemma_le_bytes_len(q, (w - 1) as nat);
        assert(b.first() == (r as u8));
        assert(b.drop_first() =~= le_bytes(q, (w - 1) as nat));
    }
}

/// The unsigned byte that carries the same bit pattern as a signed byte.
pub open spec fn i8_bits(v: i8) -> u8 {
    (if v >= 0 {
        v as int
    } else {
        v as int + 0x100
    }) as u8
}

/// The signed byte that carries the same bit pattern as an unsigned byte.
pub open spec fn u8_as_i8(b: u8) -> i8 {
    if b < 0x80 {
        b as i8
    } else {
        (b as int - 0x100) as i8
    }
}

pub open spec fn i16_bits(v: i16) -> u16 {
    (if v >= 0 {
        v as int
    } else {
        v as int + 0x10000
    }) as u16
}

pub open spec fn u16_as_i16(b: u16) -> i16 {
    if b < 0x8000 {
        b as i16
    } else {
        (b as int - 0x10000) as i16
    }
}

pub open spec fn i32_bits(v: i32) -> u32 {
    (if v >= 0 {
        v as int
    } else {
        v as int + 0x100000000
    }) as u32
}

pub open spec fn u32_as_i32(b: u32) -> i32 {
    if b < 0x80000000 {
        b as i32
    } else {
        (b as int - 0x100000000) as i32
    }
}

pub open spec fn i64_bits(v: i64) -> u64 {
    (if v >= 0 {
        v as int
    } else {
        v as int + 0x10000000000000000
    }) as u64
}

pub open spec fn u64_as_i64(b: u64) -> i64 {
    if b < 0x8000000000000000 {
        b as i64
    } else {
        (b as int - 0x10000000000000000) as i64
    }
}

/// Reinterpreting a signed value as unsigned and back is the identity,
/// at every width, and so is the other direction.
pub proof fn lemma_bits_reinterpret_round_trip(a: i8, b: i16, c: i32, d: i64, e: u8, f: u16, g: u32, h: u64)
    ensures
        u8_as_i8(i8_bits(a)) == a,
        u16_as_i16(i16_bits(b)) == b,
        u32_as_i32(i32_bits(c)) == c,
        u64_as_i64(i64_bits(d)) == d,
        i8_bits(u8_as_i8(e)) == e,
        i16_bits(u16_as_i16(f)) == f,
        i32_bits(u32_as_i32(g)) == g,
        i64_bits(u64_as_i64(h)) == h,
{
}

/// The two's-complement negation of a byte, the `neg` obfuscation.
pub open spec fn neg_byte(b: u8) -> u8 {
    if b == 0 {
        0
    } else {
        (0x100 - b) as u8
    }
}

/// A byte shifted by 128, wrapping.  The `add` (+128) and `sub` (-128)
/// obfuscations coincide: they are the same map modulo 256.
pub open spec fn shift128(b: u8) -> u8 {
    if b < 0x80 {
        (b + 0x80) as u8
    } else {
        (b - 0x80) as u8
    }
}

/// Each obfuscation is its own inverse: `neg` twice, or a +128 shift
/// followed by the matching -128 shift, gives back every byte 0 to 255.
pub proof fn lemma_obfuscation_round_trip(b: u8)
    ensures
        neg_byte(neg_byte(b)) == b,
        shift128(shift128(b)) == b,
{
}

/// The "smart" variable-width encoding: one byte for small values, two
/// big-endian bytes carrying the value plus 32768 (wrapping) otherwise.
/// The encoder takes the one-byte form up to and including 128.
pub open spec fn smart_bytes(v: u16) -> Seq<u8> {
    if v > 128 {
        be_bytes((v + 0x8000) % 0x10000, 2)
    } else {
        seq![v as u8]
    }
}

/// How many bytes the decoder consumes, decided by the top bit of the
/// first byte.
pub open spec fn smart_width(first: u8) -> nat {
    if first >= 0x80 {
        2
    } else {
        1
    }
}

/// What the decoder makes of the bytes at hand: the first byte itself,
/// or two big-endian bytes minus 32768 (wrapping).
pub open spec fn smart_val(b: Seq<u8>) -> int
    recommends
        b.len() >= 1,
        b.len() >= smart_width(b[0]),
{
    if b[0] >= 0x80 {
        (be_val(b.subrange(0, 2)) + 0x8000) % 0x10000
    } else {
        b[0] as int
    }
}

/// The smart encoding round-trips on the values whose encoded form the
/// decoder maps back: everything below 32768 except the boundary value
/// 128, whose one-byte form the decoder mistakes for a two-byte form.
pub proof fn lemma_smart_round_trip(v: u16)
    requires
        v < 0x8000,
        v != 128,
    ensures
        smart_bytes(v).len() == smart_width(smart_bytes(v)[0]),
        smart_val(smart_bytes(v)) == v,
{
    if v > 128 {
        let enc = (v + 0x8000) % 0x10000;
        assert(enc == v + 0x8000);
        lemma_be_bytes_2(enc as int);
        let b = smart_bytes(v);
        assert(b[0] == enc / 0x100);
        assert(b[0] >= 0x80);
        assert(b.subrange(0, 2) =~= b);
        lemma_pow256_vals();
        lemma_be_round_trip(enc as int, 2);
        assert((enc + 0x8000) % 0x10000 == v);
    } else {
        assert(smart_bytes(v)[0] == v as u8);
    }
}

/// The three-byte big-endian "medium" encoding of the low 24 bits.
pub open spec fn medium_bytes(v: u32) -> Seq<u8> {
    be_bytes(v as int % 0x1000000, 3)
}

/// A medium round-trips onto the value reduced to its low 24 bits.
pub proof fn lemma_medium_round_trip(v: u32)
    ensures
        be_val(medium_bytes(v)) == v as int % 0x1000000,
{
    lemma_pow256_vals();
    lemma_be_round_trip(v as int % 0x1000000, 3);
}

/// The protocol's "mixed-endian" 32-bit order: calling the little-endian
/// bytes of `v` b0 (low) to b3 (high), the wire order is b2, b3, b0, b1.
pub open spec fn me32_bytes(v: u32) -> Seq<u8> {
    seq![
        ((v as int / 0x10000) % 0x100) as u8,
        ((v as int / 0x1000000) % 0x100) as u8,
        ((v as int) % 0x100) as u8,
        ((v as int / 0x100) % 0x100) as u8,
    ]
}

/// The value mixed-endian bytes denote.
pub open spec fn me32_val(b: Seq<u8>) -> int
    recommends
        b.len() == 4,
{
    b[0] * 0x10000 + b[1] * 0x1000000 + b[2] + b[3] * 0x100
}

/// The reverse mixed-endian order: b1, b0, b3, b2.
pub open spec fn mer32_bytes(v: u32) -> Seq<u8> {
    seq![
        ((v as int / 0x100) % 0x100) as u8,
        ((v as int) % 0x100) as u8,
        ((v as int / 0x1000000) % 0x100) as u8,
        ((v as int / 0x10000) % 0x100) as u8,
    ]
}

/// The value reverse mixed-endian bytes denote.
pub open spec fn mer32_val(b: Seq<u8>) -> int
    recommends
        b.len() == 4,
{
    b[0] * 0x100 + b[1] + b[2] * 0x1000000 + b[3] * 0x10000
}

/// A 32-bit value is the weighted sum of its four bytes.
proof fn lemma_u32_byte_sum(v: u32)
    by (bit_vector)
    ensures
        ((v as int) % 0x100) + (((v as int) / 0x100) % 0x100) * 0x100 + (((v as int) / 0x10000)
            % 0x100) * 0x10000 + ((v as int) / 0x1000000) * 0x1000000 == v as int,
        ((v as int) / 0x1000000) % 0x100 == (v as int) / 0x1000000,
{
}

/// Both mixed-endian orders round-trip every 32-bit value.
pub proof fn lemma_me32_round_trip(v: u32)
    ensures
        me32_val(me32_bytes(v)) == v,
        mer32_val(mer32_bytes(v)) == v,
{
    lemma_u32_byte_sum(v);
}

/// The little-endian 16-bit "add" variant: the +128 shift lands on the
/// low byte only.
pub open spec fn le16_add_bytes(v: u16) -> Seq<u8> {
    seq![shift128((v % 0x100) as u8), (v / 0x100) as u8]
}

/// Its decoding: undo the shift on the low byte, then read little-endian.
pub open spec fn le16_add_val(b: Seq<u8>) -> int
    recommends
        b.len() == 2,
{
    shift128(b[0]) + 0x100 * b[1]
}

/// The shifted little-endian 16-bit form round-trips every value.
pub proof fn lemma_le16_add_round_trip(v: u16)
    ensures
        le16_add_val(le16_add_bytes(v)) == v,
{
    lemma_fundamental_div_mod(v as int, 0x100);
}

/// Big-endian encoding, executed: the recursion mirrors [`be_bytes`].
pub fn be_encode(v: u64, w: u8) -> (r: Vec<u8>)
    ensures
        r@ == be_bytes(v as int, w as nat),
        r@.len() == w,
    decreases w,
{
    proof {
        lemma_be_bytes_len(v as int, w as nat);
    }
    if w == 0 {
        Vec::new()
    } else {
        let mut r = be_encode(v / 256, w - 1);
        r.push((v % 256) as u8);
        r
    }
}

/// Little-endian encoding, executed: the recursion mirrors [`le_bytes`].
pub fn le_encode(v: u64, w: u8) -> (r: Vec<u8>)
    ensures
        r@ == le_bytes(v as int, w as nat),
        r@.len() == w,
    decreases w,
{
    proof {
        lemma_le_bytes_len(v as int, w as nat);
    }
    if w == 0 {
        Vec::new()
    } else {
        let mut r = le_encode(v / 256, w - 1);
        r.insert(0, (v % 256) as u8);
        proof {
            assert(r@ =~= seq![((v as int) % 256) as u8] + le_bytes(v as int / 256, (w - 1) as nat));
        }
        r
    }
}

/// Big-endian decoding, executed: a Horner evaluation from the most
/// significant byte down.
pub fn be_decode(b: &[u8]) -> (r: u64)
    requires
        b@.len() <= 8,
    ensures
        r == be_val(b@),
{
    let mut acc: u64 = 0;
    let mut i: usize = 0;
    while i < b.len()
        invariant
            0 <= i <= b@.len() <= 8,
            acc == be_val(b@.take(i as int)),
        decreases b@.len() - i,
    {
        proof {
            lemma_be_val_bound(b@.take(i as int));
            lemma_pow256_le((i as nat), 7);
            lemma_pow256_vals();
            assert(b@.take(i as int + 1).drop_last() =~= b@.take(i as int));
        }
        acc = acc * 256 + (b[i] as u64);
        i = i + 1;
    }
    proof {
        assert(b@.take(b@.len() as int) =~= b@);
    }
    acc
}

/// Little-endian decoding, executed: a Horner evaluation from the last
/// byte down to the first.
pub fn le_decode(b: &[u8]) -> (r: u64)
    requires
        b@.len() <= 8,
    ensures
        r == le_val(b@),
{
    let mut acc: u64 = 0;
    let mut i: usize = b.len();
    while i > 0
        invariant
            0 <= i <= b@.len() <= 8,
            acc == le_val(b@.skip(i as int)),
        decreases i,
    {
        proof {
            lemma_le_val_bound(b@.skip(i as int));
            lemma_pow256_le(((b@.len() - i) as nat), 7);
            lemma_pow256_vals();
            assert(b@.skip(i as int - 1).drop_first() =~= b@.skip(i as int));
            assert(b@.skip(i as int - 1).first() == b@[i - 1]);
        }
        acc = acc * 256 + (b[i - 1] as u64);
        i = i - 1;
    }
    proof {
        assert(b@.skip(0) =~= b@);
    }
    acc
}

/// The unsigned byte with a signed byte's bit pattern, executed.
pub fn i8_to_byte(v: i8) -> (b: u8)
    ensures
        b == i8_bits(v),
{
    if v >= 0 {
        v as u8
    } else {
        ((v as i16) + 0x100) as u8
    }
}

/// The signed byte with an unsigned byte's bit pattern, executed.
pub fn byte_to_i8(b: u8) -> (v: i8)
    ensures
        v == u8_as_i8(b),
{
    if b < 0x80 {
        b as i8
    } else {
        ((b as i16) - 0x100) as i8
    }
}

pub fn i16_to_u16(v: i16) -> (b: u16)
    ensures
        b == i16_bits(v),
{
    if v >= 0 {
        v as u16
    } else {
        ((v as i32) + 0x10000) as u16
    }
}

pub fn u16_to_i16(b: u16) -> (v: i16)
    ensures
        v == u16_as_i16(b),
{
    if b < 0x8000 {
        b as i16
    } else {
        ((b as i32) - 0x10000) as i16
    }
}

pub fn i32_to_u32(v: i32) -> (b: u32)
    ensures
        b == i32_bits(v),
{
    if v >= 0 {
        v as u32
    } else {
        ((v as i64) + 0x100000000) as u32
    }
}

pub fn u32_to_i32(b: u32) -> (v: i32)
    ensures
        v == u32_as_i32(b),
{
    if b < 0x80000000 {
        b as i32
    } else {
        ((b as i64) - 0x100000000) as i32
    }
}

pub fn i64_to_u64(v: i64) -> (b: u64)
    ensures
        b == i64_bits(v),
{
    if v >= 0 {
        v as u64
    } else {
        ((v as i128) + 0x10000000000000000) as u64
    }
}

pub fn u64_to_i64(b: u64) -> (v: i64)
    ensures
        v == u64_as_i64(b),
{
    if b < 0x8000000000000000 {
        b as i64
    } else {
        ((b as i128) - 0x10000000000000000) as i64
    }
}

/// The `neg` obfuscation, executed.
pub fn neg_of(b: u8) -> (r: u8)
    ensures
        r == neg_byte(b),
{
    if b == 0 {
        0
    } else {
        255 - b + 1
    }
}

/// The wrapping 128 shift, executed.
pub fn shift128_of(b: u8) -> (r: u8)
    ensures
        r == shift128(b),
{
    if b < 0x80 {
        b + 0x80
    } else {
        b - 0x80
    }
}

} // verus!
