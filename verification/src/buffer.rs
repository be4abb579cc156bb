//! The buffer itself: storage, the two byte cursors with their bit
//! sub-cursors, raw byte and bit transfer, and the two-pass packet frame.
//!
//! Every public operation is specified against [`BufView`], the
//! mathematical image of a buffer: its bytes as a `Seq<u8>`, the cursor
//! positions as naturals, the header kind, and whether the frame has been
//! finalized.

use crate::codec::be_bytes;
use crate::codec::be_val;
use crate::codec::lemma_pow256_vals;
use crate::bits::lemma_bit8_or_mask;
use crate::bits::lemma_bit8_zero;
use crate::codec::lemma_be_bytes_len;
use crate::codec::lemma_be_round_trip;
use vstd::prelude::*;

verus! {

/// How a framed buffer reserves room for its length field.
#[derive(Clone, Copy, Debug, PartialEq, Eq)]
pub enum PacketHeader {
    /// No length field: the payload follows the opcode directly.
    NORMAL,
    /// A two-byte big-endian length field.
    SHORT,
    /// A one-byte length field.
    BYTE,
}

/// Why a buffer operation was refused.  Failed calls leave the buffer
/// exactly as it was (apart from the bit flush that begins every
/// byte-level read).
#[derive(Clone, Copy, Debug, PartialEq, Eq)]
pub enum BufferError {
    /// A read asked for more bytes or bits than remain unread.
    InsufficientData,
    /// Bytes that were supposed to hold text do not form valid UTF-8.
    DecodeError,
    /// A resize asked for less than the current length; storage never
    /// shrinks.
    InvalidResize,
    /// `finish` was called again, or on a buffer whose frame cannot hold
    /// the payload written so far.
    FramingMisuse,
}

/// The mathematical image of a [`DataBuffer`].
#[verifier::ext_equal]
pub ghost struct BufView {
    /// Every byte of storage.
    pub data: Seq<u8>,
    /// The write cursor, as a byte index.
    pub wpos: nat,
    /// The read cursor, as a byte index.
    pub rpos: nat,
    /// Position within the byte currently being bit-written, 0 to 7.
    pub wbit: nat,
    /// Position within the byte currently being bit-read, 0 to 7.
    pub rbit: nat,
    /// The header kind fixed at construction.
    pub header: PacketHeader,
    /// Whether the single permitted `finish` has already run.
    pub finished: bool,
}

impl BufView {
    /// The invariant every buffer maintains: cursors stay inside storage,
    /// bit offsets stay below 8, and a nonzero bit offset means the byte
    /// being filled or consumed actually exists.
    pub open spec fn inv(self) -> bool {
        &&& self.data.len() <= usize::MAX
        &&& self.wpos <= self.data.len()
        &&& self.rpos <= self.data.len()
        &&& self.wbit < 8
        &&& self.rbit < 8
        &&& (self.wbit > 0 ==> self.wpos < self.data.len())
        &&& (self.rbit > 0 ==> self.rpos < self.data.len())
    }

    /// The write cursor as an absolute bit index.
    pub open spec fn wbitpos(self) -> int {
        self.wpos * 8 + self.wbit as int
    }

    /// The read cursor as an absolute bit index.
    pub open spec fn rbitpos(self) -> int {
        self.rpos * 8 + self.rbit as int
    }

    pub open spec fn with_rpos(self, rpos: nat) -> BufView {
        BufView { rpos, ..self }
    }

    pub open spec fn with_wpos(self, wpos: nat) -> BufView {
        BufView { wpos, ..self }
    }

    pub open spec fn with_data(self, data: Seq<u8>) -> BufView {
        BufView { data, ..self }
    }
}

/// A fresh, empty view with the given header kind.
pub open spec fn empty_view(header: PacketHeader) -> BufView {
    BufView {
        data: Seq::empty(),
        wpos: 0,
        rpos: 0,
        wbit: 0,
        rbit: 0,
        header,
        finished: false,
    }
}

/// Discarding pending bit state: a cursor whose bit offset is nonzero
/// advances past the partial byte, and the offset returns to zero.  Every
/// byte-level operation does this first.
pub open spec fn spec_flush(v: BufView) -> BufView {
    BufView {
        wpos: if v.wbit > 0 {
            (v.wpos + 1) as nat
        } else {
            v.wpos
        },
        rpos: if v.rbit > 0 {
            (v.rpos + 1) as nat
        } else {
            v.rpos
        },
        wbit: 0,
        rbit: 0,
        ..v
    }
}

/// `data` with `bytes` laid over it starting at `pos`, extended exactly as
/// far as the write reaches.  Storage never shrinks.
pub open spec fn spec_overwrite(data: Seq<u8>, pos: int, bytes: Seq<u8>) -> Seq<u8>
    recommends
        0 <= pos <= data.len(),
{
    Seq::new(
        if data.len() >= pos + bytes.len() {
            data.len()
        } else {
            (pos + bytes.len()) as nat
        },
        |i: int|
            if pos <= i < pos + bytes.len() {
                bytes[i - pos]
            } else if 0 <= i < data.len() {
                data[i]
            } else {
                0u8
            },
    )
}

/// What any byte-level write does: flush pending bits, lay the bytes down
/// at the write cursor, and advance the cursor past them.
pub open spec fn spec_write(v: BufView, bytes: Seq<u8>) -> BufView {
    let f = spec_flush(v);
    BufView {
        data: spec_overwrite(f.data, f.wpos as int, bytes),
        wpos: (f.wpos + bytes.len()) as nat,
        ..f
    }
}

/// Room in the storage for `n` more bytes at the write cursor without the
/// byte index leaving `usize`.
pub open spec fn has_room(v: BufView, n: nat) -> bool {
    spec_flush(v).wpos + n <= usize::MAX
}

/// The bit of `b` selected counting from the most significant end: bit 0
/// is the topmost bit.
pub open spec fn msb_mask(k: nat) -> u8
    recommends
        k < 8,
{
    128u8 >> (k as u8)
}

/// What `write_bit` does: make sure the byte under the write cursor
/// exists, set the selected bit if asked (a clear bit is left alone, never
/// cleared), and advance the bit cursor.
pub open spec fn spec_write_bit(v: BufView, bit: bool) -> BufView {
    let grown = if v.wpos < v.data.len() {
        v.data
    } else {
        v.data.push(0u8)
    };
    let b0 = grown[v.wpos as int];
    let b1 = if bit {
        b0 | msb_mask(v.wbit)
    } else {
        b0
    };
    BufView {
        data: grown.update(v.wpos as int, b1),
        wpos: if v.wbit == 7 {
            (v.wpos + 1) as nat
        } else {
            v.wpos
        },
        wbit: if v.wbit == 7 {
            0nat
        } else {
            (v.wbit + 1) as nat
        },
        ..v
    }
}

/// `n` single-bit writes taking the bits of `value` from bit `n - 1` down
/// to bit 0: the most significant bit of the field goes first.
pub open spec fn spec_write_bits(v: BufView, value: u64, n: nat) -> BufView
    decreases n,
{
    if n == 0 {
        v
    } else {
        spec_write_bits(
            spec_write_bit(v, crate::bits::bit_of(value, (n - 1) as u64)),
            value,
            (n - 1) as nat,
        )
    }
}

/// How many placeholder bytes each header kind reserves.
pub open spec fn header_width(h: PacketHeader) -> nat {
    match h {
        PacketHeader::NORMAL => 0,
        PacketHeader::BYTE => 1,
        PacketHeader::SHORT => 2,
    }
}

/// The largest payload size the header kind can record.  A headerless
/// frame records nothing, so nothing bounds it.
pub open spec fn header_max(h: PacketHeader) -> int {
    match h {
        PacketHeader::NORMAL => usize::MAX as int,
        PacketHeader::BYTE => 255,
        PacketHeader::SHORT => 65535,
    }
}

/// The placeholder bytes written at construction of a framed buffer.
pub open spec fn placeholder_bytes(h: PacketHeader) -> Seq<u8> {
    match h {
        PacketHeader::NORMAL => Seq::empty(),
        PacketHeader::BYTE => seq![255u8],
        PacketHeader::SHORT => seq![255u8, 255u8],
    }
}

/// The view of a freshly framed buffer: the opcode byte, then the
/// placeholder, with the write cursor past both.
pub open spec fn spec_create(opcode: u8, h: PacketHeader) -> BufView {
    BufView {
        data: seq![opcode] + placeholder_bytes(h),
        wpos: 1 + header_width(h),
        rpos: 0,
        wbit: 0,
        rbit: 0,
        header: h,
        finished: false,
    }
}

/// When `finish` is allowed to patch the frame: it has not run before,
/// at least the opcode and placeholder plus one payload byte have been
/// written, and the payload size fits the header's width.
pub open spec fn finish_ok(v: BufView) -> bool {
    let w = header_width(v.header);
    &&& !v.finished
    &&& v.wpos > 1 + w
    &&& v.wpos - 1 - w <= header_max(v.header)
}

/// What a permitted `finish` does: the payload size, measured from the
/// write cursor, is patched over the placeholder at its width; both
/// cursors rewind (the write cursor to just past the patched field, the
/// read cursor to the start) and the buffer is marked finished.
pub open spec fn spec_finish(v: BufView) -> BufView {
    let w = header_width(v.header);
    let payload = v.wpos - 1 - w;
    BufView {
        data: spec_overwrite(v.data, 1, be_bytes(payload, w)),
        wpos: 1 + w,
        rpos: 0,
        wbit: 0,
        rbit: 0,
        header: v.header,
        finished: true,
    }
}

/// A data buffer: a growable byte store with independent read and write
/// cursors, each carrying a bit-level sub-cursor, plus the header kind
/// chosen at construction for two-pass packet framing.
pub struct DataBuffer {
    data: Vec<u8>,
    wpos: usize,
    rpos: usize,
    rbit: u8,
    wbit: u8,
    header: PacketHeader,
    finished: bool,
}

impl View for DataBuffer {
    type V = BufView;

    closed spec fn view(&self) -> BufView {
        BufView {
            data: self.data@,
            wpos: self.wpos as nat,
            rpos: self.rpos as nat,
            wbit: self.wbit as nat,
            rbit: self.rbit as nat,
            header: self.header,
            finished: self.finished,
        }
    }
}

impl DataBuffer {
    /// Construct a new, empty buffer with no frame.
    pub fn new() -> (r: DataBuffer)
        ensures
            r@ == empty_view(PacketHeader::NORMAL),
            r@.inv(),
    {
        let r = DataBuffer {
            data: Vec::new(),
            wpos: 0,
            rpos: 0,
            rbit: 0,
            wbit: 0,
            header: PacketHeader::NORMAL,
            finished: false,
        };
        proof {
            assert(r@ =~= empty_view(PacketHeader::NORMAL));
        }
        r
    }

    /// Construct a buffer holding a copy of `bytes`, write cursor past
    /// them, read cursor at the start.
    pub fn from_bytes(bytes: &[u8]) -> (r: DataBuffer)
        ensures
            r@ == spec_write(empty_view(PacketHeader::NORMAL), bytes@),
            r@.inv(),
    {
        let n = bytes.len();
        proof {
            assert(bytes@.len() == n);
        }
        let mut buffer = DataBuffer::new();
        buffer.write_bytes(bytes);
        buffer
    }

    /// Take ownership of an existing byte vector and use it as this
    /// buffer's storage, avoiding a copy.  Both cursors start at 0.
    pub fn with_vec(bytes: Vec<u8>) -> (r: DataBuffer)
        ensures
            r@ == empty_view(PacketHeader::NORMAL).with_data(bytes@),
            r@.inv(),
    {
        let n = bytes.len();
        proof {
            assert(bytes@.len() == n);
        }
        let r = DataBuffer {
            data: bytes,
            wpos: 0,
            rpos: 0,
            rbit: 0,
            wbit: 0,
            header: PacketHeader::NORMAL,
            finished: false,
        };
        proof {
            assert(r@ =~= empty_view(PacketHeader::NORMAL).with_data(r@.data));
        }
        r
    }

    /// The storage size in bytes.
    pub fn len(&self) -> (r: usize)
        ensures
            r == self@.data.len(),
    {
        self.data.len()
    }

    /// Drop all stored bytes and return every cursor to the start.  The
    /// header kind and the finished mark are untouched.
    pub fn clear(&mut self)
        ensures
            final(self)@ == (BufView {
                data: Seq::empty(),
                wpos: 0,
                rpos: 0,
                wbit: 0,
                rbit: 0,
                header: old(self)@.header,
                finished: old(self)@.finished,
            }),
            final(self)@.inv(),
    {
        self.data.clear();
        self.wpos = 0;
        self.rpos = 0;
        self.wbit = 0;
        self.rbit = 0;
        proof {
            assert(self@ =~= (BufView {
                data: Seq::empty(),
                wpos: 0,
                rpos: 0,
                wbit: 0,
                rbit: 0,
                header: old(self)@.header,
                finished: old(self)@.finished,
            }));
        }
    }

    /// Grow the storage to `size` bytes, zero-filling the new tail.  A
    /// `size` below the current length is refused: storage never shrinks.
    pub fn resize(&mut self, size: usize) -> (r: Result<(), BufferError>)
        requires
            old(self)@.inv(),
        ensures
            final(self)@.inv(),
            size >= old(self)@.data.len() ==> r == Ok::<(), BufferError>(()) && final(self)@
                == old(self)@.with_data(
                old(self)@.data + Seq::new((size - old(self)@.data.len()) as nat, |i: int| 0u8),
            ),
            size < old(self)@.data.len() ==> r == Err::<(), BufferError>(
                BufferError::InvalidResize,
            ) && final(self)@ == old(self)@,
    {
        if size < self.data.len() {
            Err(BufferError::InvalidResize)
        } else {
            self.grow_to(size);
            Ok(())
        }
    }

    /// Zero-extend the storage to `size` bytes; a no-op when it is already
    /// that long.
    fn grow_to(&mut self, size: usize)
        requires
            old(self)@.inv(),
            size >= old(self)@.data.len(),
        ensures
            final(self)@ == old(self)@.with_data(
                old(self)@.data + Seq::new((size - old(self)@.data.len()) as nat, |i: int| 0u8),
            ),
            final(self)@.inv(),
    {
        while self.data.len() < size
            invariant
                old(self)@.inv(),
                self.data.len() <= size,
                old(self)@.data.len() <= self.data.len(),
                self@ == old(self)@.with_data(
                    old(self)@.data + Seq::new(
                        (self.data@.len() - old(self)@.data.len()) as nat,
                        |i: int| 0u8,
                    ),
                ),
            decreases size - self.data.len(),
        {
            self.data.push(0);
            proof {
                assert(self@.data =~= old(self)@.data + Seq::new(
                    (self@.data.len() - old(self)@.data.len()) as nat,
                    |i: int| 0u8,
                ));
                assert(self@ =~= old(self)@.with_data(self@.data));
            }
        }
    }

    /// Discard any pending bit state: a partly written or partly read byte
    /// is left behind and the matching byte cursor moves past it.  Every
    /// byte-level operation does this implicitly first.
    pub fn flush_bit(&mut self)
        requires
            old(self)@.inv(),
        ensures
            final(self)@ == spec_flush(old(self)@),
            final(self)@.inv(),
    {
        if self.rbit > 0 {
            self.rbit = 0;
            self.rpos = self.rpos + 1;
        }
        if self.wbit > 0 {
            self.wbit = 0;
            self.wpos = self.wpos + 1;
        }
        proof {
            assert(self@ =~= spec_flush(old(self)@));
        }
    }

    /// Append or overwrite `bytes` at the write cursor, zero-extending
    /// storage exactly as far as the write reaches.
    pub fn write_bytes(&mut self, bytes: &[u8])
        requires
            old(self)@.inv(),
            has_room(old(self)@, bytes@.len()),
        ensures
            final(self)@ == spec_write(old(self)@, bytes@),
            final(self)@.inv(),
    {
        self.flush_bit();
        let ghost f = spec_flush(old(self)@);
        let n = bytes.len();
        let end = self.wpos + n;
        if end > self.data.len() {
            self.grow_to(end);
        }
        proof {
            assert(self@.data.len() == spec_overwrite(f.data, f.wpos as int, bytes@).len());
        }
        let ghost mid = self@;
        let mut i: usize = 0;
        while i < n
            invariant
                0 <= i <= n,
                n == bytes@.len(),
                mid.inv(),
                mid.wpos + n <= mid.data.len(),
                self@ == mid.with_data(self@.data).with_wpos((mid.wpos + i) as nat),
                self.wpos == mid.wpos + i,
                self@.data.len() == mid.data.len(),
                forall|j: int|
                    0 <= j < mid.data.len() && !(mid.wpos <= j < mid.wpos + i) ==> self@.data[j]
                        == mid.data[j],
                forall|j: int|
                    mid.wpos <= j < mid.wpos + i ==> self@.data[j] == bytes@[j - mid.wpos],
            decreases n - i,
        {
            self.data.set(self.wpos, bytes[i]);
            self.wpos = self.wpos + 1;
            i = i + 1;
        }
        proof {
            let target = spec_overwrite(f.data, f.wpos as int, bytes@);
            assert(self@.data.len() == mid.data.len());
            assert(mid.data.len() == target.len());
            assert forall|k: int| 0 <= k < target.len() implies self@.data[k] == target[k] by {
                if f.wpos <= k < f.wpos + n {
                    assert(self@.data[k] == bytes@[k - f.wpos]);
                } else if 0 <= k < f.data.len() {
                    assert(mid.data[k] == f.data[k]);
                    assert(self@.data[k] == mid.data[k]);
                } else {
                    assert(mid.data[k] == 0);
                }
            }
            assert(self@.data =~= target);
            assert(self@ =~= spec_write(old(self)@, bytes@));
        }
    }

    /// Append one byte at the write cursor.
    pub fn write_u8(&mut self, val: u8)
        requires
            old(self)@.inv(),
            has_room(old(self)@, 1),
        ensures
            final(self)@ == spec_write(old(self)@, seq![val]),
            final(self)@.inv(),
    {
        let mut b: Vec<u8> = Vec::new();
        b.push(val);
        proof {
            assert(b@ =~= seq![val]);
        }
        self.write_bytes(b.as_slice());
    }

    /// Read `size` raw bytes at the read cursor.  If fewer remain, nothing
    /// but the implicit bit flush happens and `InsufficientData` comes
    /// back.
    pub fn read_bytes(&mut self, size: usize) -> (r: Result<Vec<u8>, BufferError>)
        requires
            old(self)@.inv(),
        ensures
            final(self)@.inv(),
            ({
                let f = spec_flush(old(self)@);
                if f.rpos + size <= f.data.len() {
                    &&& r matches Ok(b) && b@ == f.data.subrange(f.rpos as int, f.rpos + size)
                    &&& final(self)@ == f.with_rpos((f.rpos + size) as nat)
                } else {
                    &&& r == Err::<Vec<u8>, BufferError>(BufferError::InsufficientData)
                    &&& final(self)@ == f
                }
            }),
    {
        self.flush_bit();
        let ghost f = spec_flush(old(self)@);
        if size > self.data.len() - self.rpos {
            return Err(BufferError::InsufficientData);
        }
        let mut out: Vec<u8> = Vec::new();
        let mut i: usize = 0;
        while i < size
            invariant
                0 <= i <= size,
                self@ == f,
                f.inv(),
                f.rpos + size <= f.data.len(),
                out@ =~= f.data.subrange(f.rpos as int, f.rpos + i),
            decreases size - i,
        {
            out.push(self.data[self.rpos + i]);
            proof {
                assert(out@ =~= f.data.subrange(f.rpos as int, f.rpos + i + 1));
            }
            i = i + 1;
        }
        self.rpos = self.rpos + size;
        proof {
            assert(self@ =~= f.with_rpos((f.rpos + size) as nat));
        }
        Ok(out)
    }

    /// Read one byte at the read cursor.
    pub fn read_u8(&mut self) -> (r: Result<u8, BufferError>)
        requires
            old(self)@.inv(),
        ensures
            final(self)@.inv(),
            ({
                let f = spec_flush(old(self)@);
                if f.rpos < f.data.len() {
                    &&& r == Ok::<u8, BufferError>(f.data[f.rpos as int])
                    &&& final(self)@ == f.with_rpos((f.rpos + 1) as nat)
                } else {
                    &&& r == Err::<u8, BufferError>(BufferError::InsufficientData)
                    &&& final(self)@ == f
                }
            }),
    {
        self.flush_bit();
        let ghost f = spec_flush(old(self)@);
        if self.rpos >= self.data.len() {
            return Err(BufferError::InsufficientData);
        }
        let b = self.data[self.rpos];
        self.rpos = self.rpos + 1;
        proof {
            assert(self@ =~= f.with_rpos((f.rpos + 1) as nat));
        }
        Ok(b)
    }

    /// The index of the first zero byte at or after `from`, or the
    /// storage length when there is none; the cursors stay put.
    pub(crate) fn scan_nul(&self, from: usize) -> (r: usize)
        requires
            self@.inv(),
            from <= self@.data.len(),
        ensures
            r == crate::text::nul_scan(self@.data, from as int),
    {
        let mut k = from;
        while k < self.data.len() && self.data[k] != 0
            invariant
                from <= k <= self@.data.len(),
                forall|j: int| from <= j < k ==> self@.data[j] != 0,
            decreases self@.data.len() - k,
        {
            k = k + 1;
        }
        proof {
            crate::text::lemma_nul_scan_is(self@.data, from as int, k as int);
        }
        k
    }

    /// The stored byte at the given index.
    pub(crate) fn byte_at(&self, i: usize) -> (r: Option<u8>)
        ensures
            r == if i < self@.data.len() {
                Some(self@.data[i as int])
            } else {
                None::<u8>
            },
    {
        if i < self.data.len() {
            Some(self.data[i])
        } else {
            None
        }
    }

    /// The byte under the read cursor, without consuming it.
    pub(crate) fn peek_u8(&self) -> (r: Option<u8>)
        requires
            self@.inv(),
        ensures
            r == if self@.rpos < self@.data.len() {
                Some(self@.data[self@.rpos as int])
            } else {
                None::<u8>
            },
    {
        if self.rpos < self.data.len() {
            Some(self.data[self.rpos])
        } else {
            None
        }
    }

    /// The position of the read cursor.
    pub fn get_rpos(&self) -> (r: usize)
        ensures
            r == self@.rpos,
    {
        self.rpos
    }

    /// Move the read cursor, clamping to `min(rpos, len)` rather than
    /// faulting; any pending bit-read state is discarded, so the cursor
    /// invariant is kept.
    pub fn set_rpos(&mut self, rpos: usize)
        requires
            old(self)@.inv(),
        ensures
            final(self)@ == (BufView {
                rpos: if rpos <= old(self)@.data.len() {
                    rpos as nat
                } else {
                    old(self)@.data.len()
                },
                rbit: 0,
                ..old(self)@
            }),
            final(self)@.inv(),
    {
        if rpos <= self.data.len() {
            self.rpos = rpos;
        } else {
            self.rpos = self.data.len();
        }
        self.rbit = 0;
    }

    /// The position of the write cursor.
    pub fn get_wpos(&self) -> (r: usize)
        ensures
            r == self@.wpos,
    {
        self.wpos
    }

    /// Move the write cursor, clamping to `min(wpos, len)` rather than
    /// faulting; any pending bit-write state is discarded, so the cursor
    /// invariant is kept.
    pub fn set_wpos(&mut self, wpos: usize)
        requires
            old(self)@.inv(),
        ensures
            final(self)@ == (BufView {
                wpos: if wpos <= old(self)@.data.len() {
                    wpos as nat
                } else {
                    old(self)@.data.len()
                },
                wbit: 0,
                ..old(self)@
            }),
            final(self)@.inv(),
    {
        if wpos <= self.data.len() {
            self.wpos = wpos;
        } else {
            self.wpos = self.data.len();
        }
        self.wbit = 0;
    }

    /// An independent copy of every stored byte.
    pub fn to_bytes(&self) -> (r: Vec<u8>)
        ensures
            r@ == self@.data,
    {
        let mut out: Vec<u8> = Vec::new();
        let mut i: usize = 0;
        while i < self.data.len()
            invariant
                0 <= i <= self@.data.len(),
                out@ =~= self@.data.subrange(0, i as int),
            decreases self@.data.len() - i,
        {
            out.push(self.data[i]);
            proof {
                assert(out@ =~= self@.data.subrange(0, i + 1));
            }
            i = i + 1;
        }
        proof {
            assert(out@ =~= self@.data);
        }
        out
    }

    /// Append the whole of `buf`, as a generic sink would.  Returns how
    /// many bytes were taken, which is always all of them.
    pub fn write(&mut self, buf: &[u8]) -> (r: usize)
        requires
            old(self)@.inv(),
            has_room(old(self)@, buf@.len()),
        ensures
            final(self)@ == spec_write(old(self)@, buf@),
            final(self)@.inv(),
            r == buf@.len(),
    {
        self.write_bytes(buf);
        buf.len()
    }

    /// Fill `buf` from the unread bytes, as a generic source would: up to
    /// `buf.len()` bytes, fewer when fewer remain, never an error.  Bytes
    /// of `buf` past the filled count keep their old values.  Returns the
    /// count filled.
    pub fn read(&mut self, buf: &mut Vec<u8>) -> (r: usize)
        requires
            old(self)@.inv(),
        ensures
            final(self)@.inv(),
            final(buf)@.len() == old(buf)@.len(),
            ({
                let f = spec_flush(old(self)@);
                let avail = f.data.len() - f.rpos;
                let n = if old(buf)@.len() <= avail {
                    old(buf)@.len() as int
                } else {
                    avail
                };
                &&& r == n
                &&& final(self)@ == f.with_rpos((f.rpos + n) as nat)
                &&& (forall|i: int| 0 <= i < n ==> final(buf)@[i] == f.data[f.rpos + i])
                &&& (forall|i: int| n <= i < old(buf)@.len() ==> final(buf)@[i] == old(buf)@[i])
            }),
    {
        self.flush_bit();
        let ghost f = spec_flush(old(self)@);
        let avail = self.data.len() - self.rpos;
        let n = if buf.len() <= avail {
            buf.len()
        } else {
            avail
        };
        let mut i: usize = 0;
        while i < n
            invariant
                0 <= i <= n,
                self@ == f,
                f.inv(),
                f.rpos + n <= f.data.len(),
                n <= buf@.len(),
                buf@.len() == old(buf)@.len(),
                forall|j: int| 0 <= j < i ==> buf@[j] == f.data[f.rpos + j],
                forall|j: int| i <= j < old(buf)@.len() ==> buf@[j] == old(buf)@[j],
            decreases n - i,
        {
            let b = self.data[self.rpos + i];
            buf.set(i, b);
            i = i + 1;
        }
        self.rpos = self.rpos + n;
        proof {
            assert(self@ =~= f.with_rpos((f.rpos + n) as nat));
        }
        n
    }

    /// A sink's flush: this buffer holds everything in memory, so there is
    /// nothing to push anywhere and the buffer is unchanged.
    pub fn flush(&mut self)
        ensures
            final(self)@ == old(self)@,
    {
    }
}

impl DataBuffer {
    /// Start a framed packet: the opcode byte, then a placeholder sized
    /// for the chosen header kind, to be patched by [`DataBuffer::finish`].
    pub fn create(opcode: u8, header: PacketHeader) -> (r: DataBuffer)
        ensures
            r@ == spec_create(opcode, header),
            r@.inv(),
    {
        let mut buff = DataBuffer::new();
        buff.write_u8(opcode);
        match header {
            PacketHeader::NORMAL => {},
            PacketHeader::BYTE => {
                buff.write_u8(255);
            },
            PacketHeader::SHORT => {
                buff.write_u8(255);
                buff.write_u8(255);
            },
        }
        buff.header = header;
        proof {
            assert(buff@.data =~= seq![opcode] + placeholder_bytes(header));
            assert(buff@ =~= spec_create(opcode, header));
        }
        buff
    }

    /// Patch the placeholder with the payload size, measured from the
    /// write cursor, and rewind both cursors.  Allowed exactly once, after
    /// at least one payload byte, and only when the size fits the
    /// header's width; otherwise nothing changes and `FramingMisuse`
    /// comes back.
    pub fn finish(&mut self) -> (r: Result<(), BufferError>)
        requires
            old(self)@.inv(),
        ensures
            final(self)@.inv(),
            finish_ok(old(self)@) ==> r == Ok::<(), BufferError>(()) && final(self)@
                == spec_finish(old(self)@),
            !finish_ok(old(self)@) ==> r == Err::<(), BufferError>(BufferError::FramingMisuse)
                && final(self)@ == old(self)@,
    {
        let w: usize = match self.header {
            PacketHeader::NORMAL => 0,
            PacketHeader::BYTE => 1,
            PacketHeader::SHORT => 2,
        };
        if self.finished {
            return Err(BufferError::FramingMisuse);
        }
        if self.wpos <= 1 + w {
            return Err(BufferError::FramingMisuse);
        }
        let payload = self.wpos - 1 - w;
        match self.header {
            PacketHeader::NORMAL => {},
            PacketHeader::BYTE => {
                if payload > 255 {
                    return Err(BufferError::FramingMisuse);
                }
            },
            PacketHeader::SHORT => {
                if payload > 65535 {
                    return Err(BufferError::FramingMisuse);
                }
            },
        }
        self.wbit = 0;
        self.rbit = 0;
        self.wpos = 1;
        match self.header {
            PacketHeader::NORMAL => {
                proof {
                    assert(spec_overwrite(old(self)@.data, 1, be_bytes(payload as int, 0))
                        =~= old(self)@.data);
                }
            },
            PacketHeader::BYTE => {
                self.write_u8(payload as u8);
                proof {
                    crate::codec::lemma_be_bytes_1(payload as int);
                }
            },
            PacketHeader::SHORT => {
                let hi = (payload / 256) as u8;
                let lo = (payload % 256) as u8;
                self.write_u8(hi);
                self.write_u8(lo);
                proof {
                    lemma_overwrite_append(old(self)@.data, 1, seq![hi], seq![lo]);
                    crate::codec::lemma_be_bytes_2(payload as int);
                    assert(be_bytes(payload as int, 2) =~= seq![hi, lo]);
                }
            },
        }
        self.rpos = 0;
        self.finished = true;
        proof {
            assert(self@ =~= spec_finish(old(self)@));
        }
        Ok(())
    }
}

/// Laying `a` over `data` and then `b` right after it is one combined
/// overlay.
pub proof fn lemma_overwrite_append(data: Seq<u8>, pos: int, a: Seq<u8>, b: Seq<u8>)
    requires
        0 <= pos <= data.len(),
    ensures
        spec_overwrite(spec_overwrite(data, pos, a), pos + a.len(), b) =~= spec_overwrite(
            data,
            pos,
            a + b,
        ),
{
}

/// Two consecutive byte-level writes append one combined byte run.
pub proof fn lemma_spec_write_append(v: BufView, a: Seq<u8>, b: Seq<u8>)
    requires
        v.inv(),
    ensures
        spec_write(spec_write(v, a), b) == spec_write(v, a + b),
{
    let f = spec_flush(v);
    lemma_overwrite_append(f.data, f.wpos as int, a, b);
    assert(spec_write(spec_write(v, a), b) =~= spec_write(v, a + b));
}

/// What a write lays down is exactly what sits in storage afterwards,
/// starting at the flushed write cursor.
pub proof fn lemma_write_reads_back(v: BufView, bytes: Seq<u8>)
    requires
        v.inv(),
    ensures
        spec_write(v, bytes).data.subrange(
            spec_flush(v).wpos as int,
            spec_flush(v).wpos + bytes.len() as int,
        ) =~= bytes,
        spec_write(v, bytes).rpos == spec_flush(v).rpos,
        spec_write(v, bytes).wpos == spec_flush(v).wpos + bytes.len(),
{
}

/// The fixed-width big-endian encodings round-trip through the buffer:
/// after writing a value `w` bytes wide, the `w` bytes sitting at the
/// flushed write cursor decode back to the value, for every value that
/// fits the width.
pub proof fn lemma_write_then_read_be(v: BufView, x: int, w: nat)
    requires
        v.inv(),
        0 <= x < crate::codec::pow256(w),
    ensures
        be_val(
            spec_write(v, be_bytes(x, w)).data.subrange(
                spec_flush(v).wpos as int,
                spec_flush(v).wpos + w as int,
            ),
        ) == x,
{
    lemma_be_bytes_len(x, w);
    lemma_write_reads_back(v, be_bytes(x, w));
    lemma_be_round_trip(x, w);
}

/// The fixed-width little-endian encodings round-trip through the buffer
/// in the same way.
pub proof fn lemma_write_then_read_le(v: BufView, x: int, w: nat)
    requires
        v.inv(),
        0 <= x < crate::codec::pow256(w),
    ensures
        crate::codec::le_val(
            spec_write(v, crate::codec::le_bytes(x, w)).data.subrange(
                spec_flush(v).wpos as int,
                spec_flush(v).wpos + w as int,
            ),
        ) == x,
{
    crate::codec::lemma_le_bytes_len(x, w);
    lemma_write_reads_back(v, crate::codec::le_bytes(x, w));
    crate::codec::lemma_le_round_trip(x, w);
}

/// A byte-level operation issued while one to seven bit writes are
/// pending advances the byte cursor by exactly one and resets the bit
/// offset to zero; the same holds of the read side.
pub proof fn lemma_flush_pending(v: BufView)
    ensures
        v.wbit > 0 ==> spec_flush(v).wpos == v.wpos + 1,
        v.wbit == 0 ==> spec_flush(v).wpos == v.wpos,
        v.rbit > 0 ==> spec_flush(v).rpos == v.rpos + 1,
        v.rbit == 0 ==> spec_flush(v).rpos == v.rpos,
        spec_flush(v).wbit == 0 && spec_flush(v).rbit == 0,
        spec_flush(v).data == v.data,
{
}

/// The shape of a finished frame: the opcode byte, the payload size at
/// the header's width, then the payload itself, unchanged.  For the
/// widths that record a size, the size field decodes back to the payload
/// length.
pub proof fn lemma_frame_layout(opcode: u8, h: PacketHeader, payload: Seq<u8>)
    requires
        1 <= payload.len() <= header_max(h),
    ensures
        finish_ok(spec_write(spec_create(opcode, h), payload)),
        ({
            let done = spec_finish(spec_write(spec_create(opcode, h), payload));
            &&& done.data =~= seq![opcode] + be_bytes(payload.len() as int, header_width(h))
                + payload
            &&& done.data.len() == 1 + header_width(h) + payload.len()
            &&& done.rpos == 0 && done.wpos == 1 + header_width(h)
            &&& h != PacketHeader::NORMAL ==> be_val(
                done.data.subrange(1, 1 + header_width(h) as int),
            ) == payload.len()
        }),
{
    let v = spec_write(spec_create(opcode, h), payload);
    let w = header_width(h);
    let lenbytes = be_bytes(payload.len() as int, w);
    lemma_pow256_vals();
    lemma_be_bytes_len(payload.len() as int, w);
    assert(v.data =~= seq![opcode] + placeholder_bytes(h) + payload);
    let done = spec_finish(v);
    assert(done.data =~= seq![opcode] + lenbytes + payload);
    assert(done.data.subrange(1, 1 + w as int) =~= lenbytes);
    if h != PacketHeader::NORMAL {
        lemma_be_round_trip(payload.len() as int, w);
    }
}

/// How the read bit cursor moves one bit forward.
pub open spec fn spec_advance_rbit(v: BufView) -> BufView {
    BufView {
        rpos: if v.rbit == 7 {
            (v.rpos + 1) as nat
        } else {
            v.rpos
        },
        rbit: if v.rbit == 7 {
            0nat
        } else {
            (v.rbit + 1) as nat
        },
        ..v
    }
}

impl DataBuffer {
    /// Append one bit at the write bit cursor, most significant bit of
    /// the current byte first.  Storage grows by one zero byte when the
    /// cursor crosses into a new byte; the other bits of that byte are
    /// never disturbed, and a clear bit is left alone rather than
    /// cleared.
    pub fn write_bit(&mut self, bit: bool)
        requires
            old(self)@.inv(),
            old(self)@.data.len() < usize::MAX,
        ensures
            final(self)@ == spec_write_bit(old(self)@, bit),
            final(self)@.inv(),
    {
        if self.wpos >= self.data.len() {
            self.data.push(0);
        }
        if bit {
            let mask: u8 = 128u8 >> self.wbit;
            let b = self.data[self.wpos] | mask;
            self.data.set(self.wpos, b);
        } else {
            proof {
                let grown = spec_write_bit(old(self)@, bit).data;
                assert(self@.data.update(old(self)@.wpos as int, self@.data[old(self)@.wpos as int])
                    =~= self@.data);
            }
        }
        self.wbit = self.wbit + 1;
        if self.wbit > 7 {
            self.wbit = 0;
            self.wpos = self.wpos + 1;
        }
        proof {
            assert(self@ =~= spec_write_bit(old(self)@, bit));
        }
    }

    /// Read one bit at the read bit cursor, most significant bit of the
    /// current byte first.
    pub fn read_bit(&mut self) -> (r: Result<bool, BufferError>)
        requires
            old(self)@.inv(),
        ensures
            final(self)@.inv(),
            old(self)@.rpos < old(self)@.data.len() ==> r == Ok::<bool, BufferError>(
                crate::bits::bit_at(old(self)@.data, old(self)@.rbitpos()),
            ) && final(self)@ == spec_advance_rbit(old(self)@),
            old(self)@.rpos >= old(self)@.data.len() ==> r == Err::<bool, BufferError>(
                BufferError::InsufficientData,
            ) && final(self)@ == old(self)@,
    {
        if self.rpos >= self.data.len() {
            return Err(BufferError::InsufficientData);
        }
        let b = self.data[self.rpos];
        let bit = ((b >> (7 - self.rbit)) & 1) == 1;
        proof {
            vstd::arithmetic::div_mod::lemma_fundamental_div_mod_converse(
                old(self)@.rbitpos(),
                8,
                old(self)@.rpos as int,
                old(self)@.rbit as int,
            );
            assert(bit == crate::bits::bit_at(old(self)@.data, old(self)@.rbitpos()));
        }
        self.rbit = self.rbit + 1;
        if self.rbit > 7 {
            self.rbit = 0;
            self.rpos = self.rpos + 1;
        }
        proof {
            assert(self@ =~= spec_advance_rbit(old(self)@));
        }
        Ok(bit)
    }

    /// Write `value` as a run of `n` bits, the most significant bit of
    /// the `n`-bit field first.  At most 64 bits can be written at once.
    pub fn write_bits(&mut self, value: u64, n: u8)
        requires
            old(self)@.inv(),
            n <= 64,
            old(self)@.data.len() + n <= usize::MAX,
        ensures
            final(self)@ == spec_write_bits(old(self)@, value, n as nat),
            final(self)@.inv(),
    {
        let mut k = n;
        while k > 0
            invariant
                old(self)@.inv(),
                self@.inv(),
                k <= n,
                n <= 64,
                self@.data.len() <= old(self)@.data.len() + (n - k),
                old(self)@.data.len() + n <= usize::MAX,
                spec_write_bits(self@, value, k as nat) == spec_write_bits(
                    old(self)@,
                    value,
                    n as nat,
                ),
            decreases k,
        {
            let bit = ((value >> ((k - 1) as u64)) & 1) == 1;
            self.write_bit(bit);
            k = k - 1;
        }
    }

    /// Read a run of `n` bits as an unsigned value, the first bit read
    /// being the most significant of the field.  At most 64 bits can be
    /// read at once; if fewer bits remain than asked for, nothing changes
    /// and `InsufficientData` comes back.
    pub fn read_bits(&mut self, n: u8) -> (r: Result<u64, BufferError>)
        requires
            old(self)@.inv(),
            n <= 64,
        ensures
            final(self)@.inv(),
            ({
                let v = old(self)@;
                if v.rbitpos() + n <= v.data.len() * 8 {
                    &&& r matches Ok(x) && x == crate::bits::bits_to_val(
                        crate::bits::bits_at(v.data, v.rbitpos(), n as nat),
                    )
                    &&& final(self)@ == (BufView {
                        rpos: (((v.rbitpos() + n) / 8) as nat),
                        rbit: (((v.rbitpos() + n) % 8) as nat),
                        ..v
                    })
                } else {
                    &&& r == Err::<u64, BufferError>(BufferError::InsufficientData)
                    &&& final(self)@ == v
                }
            }),
    {
        let ghost v = old(self)@;
        let ghost start = v.rbitpos();
        let avail_bytes = self.data.len() - self.rpos;
        let enough: bool = if avail_bytes >= 9 {
            true
        } else {
            avail_bytes * 8 - (self.rbit as usize) >= (n as usize)
        };
        proof {
            assert(enough == (start + n <= v.data.len() * 8));
        }
        if !enough {
            return Err(BufferError::InsufficientData);
        }
        let mut acc: u64 = 0;
        let mut i: u8 = 0;
        while i < n
            invariant
                v.inv(),
                self@.inv(),
                0 <= i <= n,
                n <= 64,
                start == v.rbitpos(),
                start + n <= v.data.len() * 8,
                self@ == (BufView {
                    rpos: (((start + i) / 8) as nat),
                    rbit: (((start + i) % 8) as nat),
                    ..v
                }),
                acc == crate::bits::bits_to_val(crate::bits::bits_at(v.data, start, i as nat)),
            decreases n - i,
        {
            proof {
                crate::bits::lemma_bits_to_val_bound(crate::bits::bits_at(v.data, start, i as nat));
                if (i as nat) < 63 {
                    vstd::arithmetic::power2::lemma_pow2_strictly_increases(i as nat, 63);
                }
                vstd::arithmetic::power2::lemma2_to64_rest();
                assert(acc < 0x8000000000000000);
                assert(self@.rbitpos() == start + i) by {
                    vstd::arithmetic::div_mod::lemma_fundamental_div_mod(start + i, 8);
                };
                assert(self@.rpos < v.data.len());
            }
            let bit = match self.read_bit() {
                Ok(b) => b,
                Err(_) => {
                    proof {
                        assert(false);
                    }
                    false
                },
            };
            acc = acc * 2 + if bit {
                1
            } else {
                0
            };
            proof {
                let s_old = crate::bits::bits_at(v.data, start, i as nat);
                let s_new = crate::bits::bits_at(v.data, start, (i + 1) as nat);
                assert(s_new.drop_last() =~= s_old);
                assert(s_new.last() == crate::bits::bit_at(v.data, start + i));
                vstd::arithmetic::div_mod::lemma_fundamental_div_mod_converse(
                    start + i,
                    8,
                    ((start + i) / 8),
                    ((start + i) % 8),
                );
                assert(self@ =~= (BufView {
                    rpos: (((start + i + 1) / 8) as nat),
                    rbit: (((start + i + 1) % 8) as nat),
                    ..v
                })) by {
                    vstd::arithmetic::div_mod::lemma_fundamental_div_mod_converse(
                        start + i + 1,
                        8,
                        (start + i + 1) / 8,
                        (start + i + 1) % 8,
                    );
                };
            }
            i = i + 1;
        }
        Ok(acc)
    }
}

/// Every bit at or past the write bit cursor is clear: the frontier a
/// buffer keeps while bits are only appended, never rewound over.
pub open spec fn clean_tail(v: BufView) -> bool {
    forall|j: int|
        v.wbitpos() <= j < v.data.len() * 8 ==> !crate::bits::bit_at(v.data, j)
}

/// What one bit write does, bit by bit: the cursor advances one bit, the
/// selected position takes the written bit (or keeps an already-set one),
/// and every other bit is untouched, with fresh storage clear.
pub proof fn lemma_write_bit_effect(v: BufView, bit: bool)
    requires
        v.inv(),
        v.data.len() < usize::MAX,
    ensures
        ({
            let w = spec_write_bit(v, bit);
            &&& w.inv()
            &&& w.rpos == v.rpos && w.rbit == v.rbit && w.header == v.header && w.finished
                == v.finished
            &&& w.wbitpos() == v.wbitpos() + 1
            &&& w.data.len() == if v.wpos < v.data.len() {
                v.data.len() as int
            } else {
                (v.data.len() + 1) as int
            }
            &&& crate::bits::bit_at(w.data, v.wbitpos()) == (bit || (v.wbitpos() < v.data.len() * 8
                && crate::bits::bit_at(v.data, v.wbitpos())))
            &&& forall|j: int|
                0 <= j < w.data.len() * 8 && j != v.wbitpos() ==> crate::bits::bit_at(w.data, j)
                    == (j < v.data.len() * 8 && crate::bits::bit_at(v.data, j))
            &&& (clean_tail(v) ==> clean_tail(w) && crate::bits::bit_at(w.data, v.wbitpos())
                == bit)
        }),
{
    let w = spec_write_bit(v, bit);
    let grown = if v.wpos < v.data.len() {
        v.data
    } else {
        v.data.push(0u8)
    };
    let b0 = grown[v.wpos as int];
    let j0 = v.wbitpos();
    vstd::arithmetic::div_mod::lemma_fundamental_div_mod_converse(
        j0,
        8,
        v.wpos as int,
        v.wbit as int,
    );
    assert(crate::bits::bit_at(w.data, j0) == (bit || (j0 < v.data.len() * 8
        && crate::bits::bit_at(v.data, j0)))) by {
        if bit {
            lemma_bit8_or_mask(b0, v.wbit as u8, (7 - v.wbit) as u8);
        }
        if v.wpos >= v.data.len() {
            crate::bits::lemma_bit8_zero((7 - v.wbit) as u8);
        }
    }
    assert forall|j: int|
        0 <= j < w.data.len() * 8 && j != j0 implies crate::bits::bit_at(w.data, j) == (j
        < v.data.len() * 8 && crate::bits::bit_at(v.data, j)) by {
        let q = j / 8;
        let r = j % 8;
        vstd::arithmetic::div_mod::lemma_fundamental_div_mod(j, 8);
        vstd::arithmetic::div_mod::lemma_mod_division_less_than_divisor(j, 8);
        vstd::arithmetic::div_mod::lemma_div_pos_is_pos(j, 8);
        assert(0 <= q < w.data.len());
        if q == v.wpos {
            assert(r != v.wbit);
            if bit {
                lemma_bit8_or_mask(b0, v.wbit as u8, (7 - r) as u8);
            }
            if v.wpos >= v.data.len() {
                crate::bits::lemma_bit8_zero((7 - r) as u8);
                assert(j >= v.data.len() * 8);
            }
        } else {
            assert(w.data[q] == grown[q]);
            if q < v.data.len() {
                assert(grown[q] == v.data[q]);
                assert(j < v.data.len() * 8) by {
                    assert(q + 1 <= v.data.len());
                    assert(j < 8 * (q + 1));
                };
            } else {
                assert(grown[q] == 0u8);
                crate::bits::lemma_bit8_zero((7 - r) as u8);
                assert(j >= v.data.len() * 8);
            }
        }
    }
    if clean_tail(v) {
        assert forall|j: int|
            w.wbitpos() <= j < w.data.len() * 8 implies !crate::bits::bit_at(w.data, j) by {
            assert(j != j0);
        }
    }
}

/// What a run of bit writes does on a clean frontier: the cursor advances
/// by the run's width, the bits of the value land in order (most
/// significant first), everything before the old cursor is untouched, and
/// the frontier stays clean.
pub proof fn lemma_write_bits_effect(v: BufView, value: u64, n: nat)
    requires
        v.inv(),
        clean_tail(v),
        v.data.len() + n <= usize::MAX,
    ensures
        ({
            let w = spec_write_bits(v, value, n);
            &&& w.inv()
            &&& clean_tail(w)
            &&& w.rpos == v.rpos && w.rbit == v.rbit && w.header == v.header && w.finished
                == v.finished
            &&& w.wbitpos() == v.wbitpos() + n
            &&& w.data.len() <= v.data.len() + n
            &&& forall|i: int|
                0 <= i < n ==> #[trigger] crate::bits::bit_at(w.data, v.wbitpos() + i)
                    == crate::bits::bit_of(value, (n - 1 - i) as u64)
            &&& forall|j: int|
                0 <= j < v.wbitpos() ==> crate::bits::bit_at(w.data, j) == crate::bits::bit_at(
                    v.data,
                    j,
                )
        }),
    decreases n,
{
    if n > 0 {
        let b = crate::bits::bit_of(value, (n - 1) as u64);
        let v1 = spec_write_bit(v, b);
        lemma_write_bit_effect(v, b);
        lemma_write_bits_effect(v1, value, (n - 1) as nat);
        let w = spec_write_bits(v, value, n);
        assert(w == spec_write_bits(v1, value, (n - 1) as nat));
        assert forall|i: int|
            0 <= i < n implies #[trigger] crate::bits::bit_at(w.data, v.wbitpos() + i)
            == crate::bits::bit_of(value, (n - 1 - i) as u64) by {
            if i == 0 {
                assert(crate::bits::bit_at(w.data, v.wbitpos()) == crate::bits::bit_at(
                    v1.data,
                    v.wbitpos(),
                ));
                assert(crate::bits::bit_at(v1.data, v.wbitpos()) == b);
                assert(v.wbitpos() + i == v.wbitpos());
            } else {
                assert(v.wbitpos() + i == v1.wbitpos() + (i - 1));
                assert(crate::bits::bit_at(w.data, v1.wbitpos() + (i - 1))
                    == crate::bits::bit_of(value, ((n - 1) - 1 - (i - 1)) as u64));
                assert(((n - 1) - 1 - (i - 1)) as u64 == (n - 1 - i) as u64);
            }
        }
    }
}

/// The bit codec round-trips: after writing `value` as an `n`-bit run on
/// a clean frontier, the `n` bits sitting at the old cursor denote
/// `value` reduced modulo two to the `n` — which is `value` itself
/// whenever it fits the field.
pub proof fn lemma_buffer_bits_round_trip(v: BufView, value: u64, n: nat)
    requires
        v.inv(),
        clean_tail(v),
        n <= 64,
        v.data.len() + n <= usize::MAX,
    ensures
        crate::bits::bits_to_val(
            crate::bits::bits_at(spec_write_bits(v, value, n).data, v.wbitpos(), n),
        ) == (value as int) % (vstd::arithmetic::power2::pow2(n) as int),
{
    let w = spec_write_bits(v, value, n);
    lemma_write_bits_effect(v, value, n);
    assert(crate::bits::bits_at(w.data, v.wbitpos(), n) =~= crate::bits::bits_of_val(value, n));
    crate::bits::lemma_bits_field_round_trip(value, n);
}

} // verus!
