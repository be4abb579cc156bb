//! The three string framings the buffer speaks — length-prefixed,
//! NUL-terminated, and NUL-bookended — specified over vstd's UTF-8 model,
//! with proofs that each decode recovers the encoded text, and the spec of
//! the hexadecimal dump.

use crate::codec::be_bytes;
use crate::codec::be_val;
use crate::codec::lemma_be_bytes_len;
use crate::codec::lemma_be_round_trip;
use crate::codec::lemma_pow256_vals;
use vstd::prelude::*;
use vstd::utf8::encode_utf8;
use vstd::utf8::encode_utf8_decode_utf8;
use vstd::utf8::encode_utf8_valid_utf8;
use vstd::utf8::decode_utf8;
use vstd::utf8::valid_utf8;

verus! {

/// The length-prefixed framing: a four-byte big-endian count of the
/// UTF-8 bytes (the count taken modulo two to the 32), then the bytes,
/// with no terminator.
pub open spec fn str_frame(s: Seq<char>) -> Seq<u8> {
    be_bytes(encode_utf8(s).len() as int % 0x100000000, 4) + encode_utf8(s)
}

/// The NUL-terminated framing: the UTF-8 bytes, then one zero byte.
pub open spec fn ntstr_frame(s: Seq<char>) -> Seq<u8> {
    encode_utf8(s) + seq![0u8]
}

/// The NUL-bookended framing: one zero byte, the UTF-8 bytes, then one
/// more zero byte.
pub open spec fn dntstr_frame(s: Seq<char>) -> Seq<u8> {
    seq![0u8] + encode_utf8(s) + seq![0u8]
}

/// The index of the first zero byte at or after `from`, or the length of
/// the data when there is none.
pub open spec fn nul_scan(data: Seq<u8>, from: int) -> int
    recommends
        0 <= from <= data.len(),
    decreases data.len() - from,
{
    if from >= data.len() {
        data.len() as int
    } else if data[from] == 0 {
        from
    } else {
        nul_scan(data, from + 1)
    }
}

/// Where the scan stops: at or after its start, no later than the end,
/// on a zero byte if not at the end, with nothing but nonzero bytes
/// passed over.
pub proof fn lemma_nul_scan_range(data: Seq<u8>, from: int)
    requires
        0 <= from <= data.len(),
    ensures
        from <= nul_scan(data, from) <= data.len(),
        nul_scan(data, from) < data.len() ==> data[nul_scan(data, from)] == 0,
        forall|j: int| from <= j < nul_scan(data, from) ==> data[j] != 0,
    decreases data.len() - from,
{
    if from < data.len() && data[from] != 0 {
        lemma_nul_scan_range(data, from + 1);
    }
}

/// The scan finds exactly the first zero: a position holding zero,
/// preceded only by nonzero bytes, is where it stops.
pub proof fn lemma_nul_scan_is(data: Seq<u8>, from: int, k: int)
    requires
        0 <= from <= k <= data.len(),
        k < data.len() ==> data[k] == 0,
        k == data.len() || data[k] == 0,
        forall|j: int| from <= j < k ==> data[j] != 0,
    ensures
        nul_scan(data, from) == k,
    decreases k - from,
{
    if from < k {
        lemma_nul_scan_is(data, from + 1, k);
    }
}

/// The length-prefixed frame round-trips: its first four bytes decode to
/// the byte count, the rest are exactly the UTF-8 bytes, and those decode
/// back to the text.  Holds for every text whose byte count fits the
/// four-byte prefix.
pub proof fn lemma_str_frame_round_trip(s: Seq<char>)
    requires
        encode_utf8(s).len() < 0x100000000,
    ensures
        str_frame(s).len() == 4 + encode_utf8(s).len(),
        be_val(str_frame(s).subrange(0, 4)) == encode_utf8(s).len(),
        str_frame(s).subrange(4, str_frame(s).len() as int) =~= encode_utf8(s),
        valid_utf8(encode_utf8(s)),
        decode_utf8(encode_utf8(s)) == s,
{
    let n = encode_utf8(s).len() as int;
    assert(n % 0x100000000 == n);
    lemma_be_bytes_len(n, 4);
    assert(str_frame(s).subrange(0, 4) =~= be_bytes(n, 4));
    lemma_pow256_vals();
    lemma_be_round_trip(n, 4);
    encode_utf8_valid_utf8(s);
    encode_utf8_decode_utf8(s);
}

/// The NUL-terminated frame round-trips: scanning from the start stops
/// exactly at the terminator, the bytes before it are the UTF-8 bytes,
/// and those decode back to the text.  Holds for every text whose UTF-8
/// bytes contain no zero byte.
pub proof fn lemma_ntstr_frame_round_trip(s: Seq<char>)
    requires
        forall|i: int| 0 <= i < encode_utf8(s).len() ==> encode_utf8(s)[i] != 0,
    ensures
        ntstr_frame(s).len() == encode_utf8(s).len() + 1,
        nul_scan(ntstr_frame(s), 0) == encode_utf8(s).len(),
        ntstr_frame(s).subrange(0, encode_utf8(s).len() as int) =~= encode_utf8(s),
        valid_utf8(encode_utf8(s)),
        decode_utf8(encode_utf8(s)) == s,
{
    let b = ntstr_frame(s);
    let n = encode_utf8(s).len() as int;
    assert(b[n] == 0);
    lemma_nul_scan_is(b, 0, n);
    encode_utf8_valid_utf8(s);
    encode_utf8_decode_utf8(s);
}

/// The NUL-bookended frame round-trips: it opens with a zero byte,
/// scanning from just past it stops at the closing zero, the bytes
/// between are the UTF-8 bytes, and those decode back to the text.
/// Holds for every text whose UTF-8 bytes contain no zero byte.
pub proof fn lemma_dntstr_frame_round_trip(s: Seq<char>)
    requires
        forall|i: int| 0 <= i < encode_utf8(s).len() ==> encode_utf8(s)[i] != 0,
    ensures
        dntstr_frame(s).len() == encode_utf8(s).len() + 2,
        dntstr_frame(s)[0] == 0,
        nul_scan(dntstr_frame(s), 1) == 1 + encode_utf8(s).len(),
        dntstr_frame(s).subrange(1, 1 + encode_utf8(s).len() as int) =~= encode_utf8(s),
        valid_utf8(encode_utf8(s)),
        decode_utf8(encode_utf8(s)) == s,
{
    let b = dntstr_frame(s);
    let n = encode_utf8(s).len() as int;
    assert(b[1 + n] == 0);
    lemma_nul_scan_is(b, 1, 1 + n);
    encode_utf8_valid_utf8(s);
    encode_utf8_decode_utf8(s);
}

/// Relies on `String::from_utf8`: it succeeds exactly on bytes that form
/// valid UTF-8, and the resulting string's UTF-8 bytes are the input
/// bytes unchanged.
#[verifier::external_body]
pub(crate) fn string_from_utf8(bytes: Vec<u8>) -> (r: Option<String>)
    ensures
        r is Some <==> valid_utf8(bytes@),
        r matches Some(s) ==> encode_utf8(s@) == bytes@,
{
    String::from_utf8(bytes).ok()
}

/// The character a hexadecimal digit prints as.
pub open spec fn hex_char(n: int) -> char
    recommends
        0 <= n < 16,
{
    if n == 0 {
        '0'
    } else if n == 1 {
        '1'
    } else if n == 2 {
        '2'
    } else if n == 3 {
        '3'
    } else if n == 4 {
        '4'
    } else if n == 5 {
        '5'
    } else if n == 6 {
        '6'
    } else if n == 7 {
        '7'
    } else if n == 8 {
        '8'
    } else if n == 9 {
        '9'
    } else if n == 10 {
        'a'
    } else if n == 11 {
        'b'
    } else if n == 12 {
        'c'
    } else if n == 13 {
        'd'
    } else if n == 14 {
        'e'
    } else {
        'f'
    }
}

/// One byte of the dump: `0x` then two hexadecimal digits.
pub open spec fn hex_entry(b: u8) -> Seq<char> {
    seq!['0', 'x', hex_char(b as int / 16), hex_char(b as int % 16)]
}

/// The whole dump: one entry per byte, separated by single spaces.
pub open spec fn hex_dump(data: Seq<u8>) -> Seq<char>
    decreases data.len(),
{
    if data.len() == 0 {
        Seq::empty()
    } else if data.len() == 1 {
        hex_entry(data[0])
    } else {
        hex_entry(data[0]) + seq![' '] + hex_dump(data.drop_first())
    }
}

/// Growing the dumped data by one byte appends a separator (after the
/// first byte) and that byte's entry.
pub proof fn lemma_hex_dump_push(data: Seq<u8>, b: u8)
    ensures
        data.len() == 0 ==> hex_dump(data.push(b)) =~= hex_entry(b),
        data.len() > 0 ==> hex_dump(data.push(b)) =~= hex_dump(data) + seq![' '] + hex_entry(b),
    decreases data.len(),
{
    let p = data.push(b);
    if data.len() == 0 {
        assert(p.len() == 1);
        assert(p[0] == b);
        assert(hex_dump(p) =~= hex_entry(b));
    } else if data.len() == 1 {
        assert(p.drop_first() =~= seq![b]);
        assert(hex_dump(seq![b]) =~= hex_entry(b));
        assert(hex_dump(p) =~= hex_entry(data[0]) + seq![' '] + hex_entry(b));
        assert(hex_dump(data) + seq![' '] + hex_entry(b) =~= hex_entry(data[0]) + seq![' ']
            + hex_entry(b));
    } else {
        lemma_hex_dump_push(data.drop_first(), b);
        assert(p.drop_first() =~= data.drop_first().push(b));
        assert(hex_dump(p) =~= hex_entry(data[0]) + seq![' '] + hex_dump(data.drop_first().push(b)));
        assert(hex_dump(data) + seq![' '] + hex_entry(b) =~= hex_entry(data[0]) + seq![' '] + (
        hex_dump(data.drop_first()) + seq![' '] + hex_entry(b)));
    }
}

} // verus!
