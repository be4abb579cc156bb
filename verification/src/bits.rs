//! Pure specifications of the bit-level codec: how single bits are
//! addressed inside bytes (most significant bit first), what an `n`-bit
//! field denotes, and the proof that reading back a written field yields
//! the value, reduced modulo the field width.

use vstd::arithmetic::div_mod::lemma_breakdown;
use vstd::arithmetic::power2::lemma2_to64;
use vstd::arithmetic::power2::lemma_pow2_pos;
use vstd::arithmetic::power2::lemma_pow2_unfold;
use vstd::arithmetic::power2::pow2;
use vstd::prelude::*;

verus! {

/// The `k`th least significant bit of a byte.
pub open spec fn bit8(b: u8, k: u8) -> bool
    recommends
        k < 8,
{
    (b >> k) & 1 == 1
}

/// The `k`th least significant bit of a 64-bit value.
pub open spec fn bit_of(v: u64, k: u64) -> bool
    recommends
        k < 64,
{
    (v >> k) & 1 == 1
}

/// The bit at absolute bit index `i` of a byte run, counting bits within
/// each byte from the most significant end: index 0 is the top bit of
/// byte 0.
pub open spec fn bit_at(data: Seq<u8>, i: int) -> bool
    recommends
        0 <= i < data.len() * 8,
{
    bit8(data[i / 8], (7 - i % 8) as u8)
}

/// The bits of `v` as an `n`-bit field, most significant bit of the field
/// first.
pub open spec fn bits_of_val(v: u64, n: nat) -> Seq<bool> {
    Seq::new(n, |i: int| bit_of(v, (n - 1 - i) as u64))
}

/// The run of `n` bits found at absolute bit index `start`.
pub open spec fn bits_at(data: Seq<u8>, start: int, n: nat) -> Seq<bool> {
    Seq::new(n, |i: int| bit_at(data, start + i))
}

/// The value an ordered run of bits denotes, first bit most significant.
pub open spec fn bits_to_val(s: Seq<bool>) -> int
    decreases s.len(),
{
    if s.len() == 0 {
        0
    } else {
        2 * bits_to_val(s.drop_last()) + if s.last() {
            1int
        } else {
            0int
        }
    }
}

/// A run of `n` bits denotes a value below two to the `n`.
pub proof fn lemma_bits_to_val_bound(s: Seq<bool>)
    ensures
        0 <= bits_to_val(s) < pow2(s.len()),
    decreases s.len(),
{
    if s.len() == 0 {
        lemma2_to64();
    } else {
        lemma_bits_to_val_bound(s.drop_last());
        lemma_pow2_unfold(s.len());
    }
}

/// Shifting a value right by one drops its lowest bit and renumbers the
/// rest.
proof fn lemma_bit_of_half(v: u64, k: u64)
    by (bit_vector)
    requires
        k < 63,
    ensures
        ((v >> (k + 1)) & 1 == 1) == (((v / 2) >> k) & 1 == 1),
{
}

/// The lowest bit of a value is its parity.
proof fn lemma_bit_of_parity(v: u64)
    by (bit_vector)
    ensures
        ((v >> 0u64) & 1 == 1) == (v % 2 == 1),
{
}

/// Reading an `n`-bit field written from `v`, most significant bit first,
/// yields `v` reduced modulo two to the `n`.
pub proof fn lemma_bits_field_round_trip(v: u64, n: nat)
    requires
        n <= 64,
    ensures
        bits_to_val(bits_of_val(v, n)) == (v as int) % (pow2(n) as int),
    decreases n,
{
    if n == 0 {
        lemma2_to64();
        assert(v % 1 == 0) by (nonlinear_arith);
    } else {
        let s = bits_of_val(v, n);
        assert forall|i: int| 0 <= i < n - 1 implies s[i] == bits_of_val(v / 2, (n - 1) as nat)[i] by {
            lemma_bit_of_half(v, (n - 2 - i) as u64);
        }
        assert(s.drop_last() =~= bits_of_val(v / 2, (n - 1) as nat));
        lemma_bits_field_round_trip(v / 2, (n - 1) as nat);
        lemma_bit_of_parity(v);
        lemma_pow2_pos((n - 1) as nat);
        lemma_pow2_unfold(n);
        lemma_breakdown(v as int, 2, pow2((n - 1) as nat) as int);
        assert(s.last() == bit_of(v, 0));
        assert(bits_to_val(s) == 2 * (((v / 2) as int) % (pow2((n - 1) as nat) as int)) + ((v as int) % 2));
    }
}

/// Or-ing a single mask bit into a byte sets exactly that bit and leaves
/// every other bit alone.
pub proof fn lemma_bit8_or_mask(b: u8, k: u8, m: u8)
    by (bit_vector)
    requires
        k < 8,
        m < 8,
    ensures
        (((b | (128u8 >> k)) >> m) & 1 == 1) == ((m == 7 - k) || ((b >> m) & 1 == 1)),
{
}

/// A zero byte has no bit set.
pub proof fn lemma_bit8_zero(m: u8)
    by (bit_vector)
    requires
        m < 8,
    ensures
        ((0u8 >> m) & 1) != 1,
{
}

} // verus!
