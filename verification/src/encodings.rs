//! The typed integer operations of the buffer: fixed-width reads and
//! writes in big-endian, little-endian and the two mixed-endian orders,
//! the per-byte obfuscated variants, the three-byte medium, and the
//! variable-width smart integer.
//!
//! Every write promises `spec_write` of the encoding's bytes; every read
//! promises the decoding of the bytes under the flushed read cursor, or
//! `InsufficientData` with the buffer left alone.

use crate::buffer::has_room;
use crate::buffer::spec_flush;
use crate::buffer::spec_write;
use crate::buffer::BufferError;
use crate::buffer::DataBuffer;
use crate::codec::be_bytes;
use crate::codec::be_decode;
use crate::codec::be_encode;
use crate::codec::be_val;
use crate::codec::byte_to_i8;
use crate::codec::i16_bits;
use crate::codec::i16_to_u16;
use crate::codec::i32_bits;
use crate::codec::i32_to_u32;
use crate::codec::i64_bits;
use crate::codec::i64_to_u64;
use crate::codec::i8_bits;
use crate::codec::i8_to_byte;
use crate::codec::le16_add_bytes;
use crate::codec::le16_add_val;
use crate::codec::le_bytes;
use crate::codec::le_decode;
use crate::codec::le_encode;
use crate::codec::le_val;
use crate::codec::lemma_be_val_bound;
use crate::codec::lemma_le_val_bound;
use crate::codec::lemma_pow256_vals;
use crate::codec::me32_bytes;
use crate::codec::me32_val;
use crate::codec::medium_bytes;
use crate::codec::mer32_bytes;
use crate::codec::mer32_val;
use crate::codec::neg_byte;
use crate::codec::neg_of;
use crate::codec::shift128;
use crate::codec::shift128_of;
use crate::codec::smart_bytes;
use crate::codec::smart_val;
use crate::codec::smart_width;
use crate::codec::u16_as_i16;
use crate::codec::u16_to_i16;
use crate::codec::u32_as_i32;
use crate::codec::u32_to_i32;
use crate::codec::u64_as_i64;
use crate::codec::u64_to_i64;
use crate::codec::u8_as_i8;
use vstd::prelude::*;

verus! {

impl DataBuffer {
    /// Append a signed byte, stored as its bit pattern.
    pub fn write_i8(&mut self, val: i8)
        requires
            old(self)@.inv(),
            has_room(old(self)@, 1),
        ensures
            final(self)@ == spec_write(old(self)@, seq![i8_bits(val)]),
            final(self)@.inv(),
    {
        let b = i8_to_byte(val);
        self.write_u8(b);
    }

    /// Append a 16-bit value, big-endian.
    pub fn write_u16(&mut self, val: u16)
        requires
            old(self)@.inv(),
            has_room(old(self)@, 2),
        ensures
            final(self)@ == spec_write(old(self)@, be_bytes(val as int, 2)),
            final(self)@.inv(),
    {
        let b = be_encode(val as u64, 2);
        self.write_bytes(b.as_slice());
    }

    /// Append a signed 16-bit value, big-endian, as its bit pattern.
    pub fn write_i16(&mut self, val: i16)
        requires
            old(self)@.inv(),
            has_room(old(self)@, 2),
        ensures
            final(self)@ == spec_write(old(self)@, be_bytes(i16_bits(val) as int, 2)),
            final(self)@.inv(),
    {
        let u = i16_to_u16(val);
        self.write_u16(u);
    }

    /// Append a 32-bit value, big-endian.
    pub fn write_u32(&mut self, val: u32)
        requires
            old(self)@.inv(),
            has_room(old(self)@, 4),
        ensures
            final(self)@ == spec_write(old(self)@, be_bytes(val as int, 4)),
            final(self)@.inv(),
    {
        let b = be_encode(val as u64, 4);
        self.write_bytes(b.as_slice());
    }

    /// Append a signed 32-bit value, big-endian, as its bit pattern.
    pub fn write_i32(&mut self, val: i32)
        requires
            old(self)@.inv(),
            has_room(old(self)@, 4),
        ensures
            final(self)@ == spec_write(old(self)@, be_bytes(i32_bits(val) as int, 4)),
            final(self)@.inv(),
    {
        let u = i32_to_u32(val);
        self.write_u32(u);
    }

    /// Append a 64-bit value, big-endian.
    pub fn write_u64(&mut self, val: u64)
        requires
            old(self)@.inv(),
            has_room(old(self)@, 8),
        ensures
            final(self)@ == spec_write(old(self)@, be_bytes(val as int, 8)),
            final(self)@.inv(),
    {
        let b = be_encode(val, 8);
        self.write_bytes(b.as_slice());
    }

    /// Append a signed 64-bit value, big-endian, as its bit pattern.
    pub fn write_i64(&mut self, val: i64)
        requires
            old(self)@.inv(),
            has_room(old(self)@, 8),
        ensures
            final(self)@ == spec_write(old(self)@, be_bytes(i64_bits(val) as int, 8)),
            final(self)@.inv(),
    {
        let u = i64_to_u64(val);
        self.write_u64(u);
    }

    /// Append a smart integer: one byte for values up to 128, otherwise
    /// two big-endian bytes carrying the value plus 32768, wrapping.
    pub fn write_smart(&mut self, val: u16)
        requires
            old(self)@.inv(),
            has_room(old(self)@, 2),
        ensures
            final(self)@ == spec_write(old(self)@, smart_bytes(val)),
            final(self)@.inv(),
    {
        if val > 128 {
            let enc = (((val as u32) + 0x8000) % 0x10000) as u16;
            let b = be_encode(enc as u64, 2);
            self.write_bytes(b.as_slice());
        } else {
            self.write_u8(val as u8);
        }
    }

    /// Append a medium: the low 24 bits, as three big-endian bytes.
    pub fn write_medium(&mut self, val: u32)
        requires
            old(self)@.inv(),
            has_room(old(self)@, 3),
        ensures
            final(self)@ == spec_write(old(self)@, medium_bytes(val)),
            final(self)@.inv(),
    {
        let m = val % 0x1000000;
        let b = be_encode(m as u64, 3);
        self.write_bytes(b.as_slice());
    }

    /// Append a byte under the `neg` obfuscation: its two's-complement
    /// negation.
    pub fn write_u8_neg(&mut self, val: u8)
        requires
            old(self)@.inv(),
            has_room(old(self)@, 1),
        ensures
            final(self)@ == spec_write(old(self)@, seq![neg_byte(val)]),
            final(self)@.inv(),
    {
        let b = neg_of(val);
        self.write_u8(b);
    }

    /// Append a signed byte under the `neg` obfuscation.
    pub fn write_i8_neg(&mut self, val: i8)
        requires
            old(self)@.inv(),
            has_room(old(self)@, 1),
        ensures
            final(self)@ == spec_write(old(self)@, seq![neg_byte(i8_bits(val))]),
            final(self)@.inv(),
    {
        let b = neg_of(i8_to_byte(val));
        self.write_u8(b);
    }

    /// Append a byte under the `add` obfuscation: shifted by +128,
    /// wrapping.
    pub fn write_u8_add(&mut self, val: u8)
        requires
            old(self)@.inv(),
            has_room(old(self)@, 1),
        ensures
            final(self)@ == spec_write(old(self)@, seq![shift128(val)]),
            final(self)@.inv(),
    {
        let b = shift128_of(val);
        self.write_u8(b);
    }

    /// Append a signed byte under the `add` obfuscation.
    pub fn write_i8_add(&mut self, val: i8)
        requires
            old(self)@.inv(),
            has_room(old(self)@, 1),
        ensures
            final(self)@ == spec_write(old(self)@, seq![shift128(i8_bits(val))]),
            final(self)@.inv(),
    {
        let b = shift128_of(i8_to_byte(val));
        self.write_u8(b);
    }

    /// Append a byte under the `sub` obfuscation: shifted by -128,
    /// which modulo 256 is the same shift the `add` variant applies.
    pub fn write_u8_sub(&mut self, val: u8)
        requires
            old(self)@.inv(),
            has_room(old(self)@, 1),
        ensures
            final(self)@ == spec_write(old(self)@, seq![shift128(val)]),
            final(self)@.inv(),
    {
        let b = shift128_of(val);
        self.write_u8(b);
    }

    /// Append a signed byte under the `sub` obfuscation.
    pub fn write_i8_sub(&mut self, val: i8)
        requires
            old(self)@.inv(),
            has_room(old(self)@, 1),
        ensures
            final(self)@ == spec_write(old(self)@, seq![shift128(i8_bits(val))]),
            final(self)@.inv(),
    {
        let b = shift128_of(i8_to_byte(val));
        self.write_u8(b);
    }

    /// Append a 16-bit value, little-endian.
    pub fn write_u16_le(&mut self, val: u16)
        requires
            old(self)@.inv(),
            has_room(old(self)@, 2),
        ensures
            final(self)@ == spec_write(old(self)@, le_bytes(val as int, 2)),
            final(self)@.inv(),
    {
        let b = le_encode(val as u64, 2);
        self.write_bytes(b.as_slice());
    }

    /// Append a signed 16-bit value, little-endian, as its bit pattern.
    pub fn write_i16_le(&mut self, val: i16)
        requires
            old(self)@.inv(),
            has_room(old(self)@, 2),
        ensures
            final(self)@ == spec_write(old(self)@, le_bytes(i16_bits(val) as int, 2)),
            final(self)@.inv(),
    {
        let u = i16_to_u16(val);
        self.write_u16_le(u);
    }

    /// Append a 16-bit value, little-endian, the +128 shift applied to
    /// the low byte only.
    pub fn write_u16_le_add(&mut self, val: u16)
        requires
            old(self)@.inv(),
            has_room(old(self)@, 2),
        ensures
            final(self)@ == spec_write(old(self)@, le16_add_bytes(val)),
            final(self)@.inv(),
    {
        let mut b: Vec<u8> = Vec::new();
        b.push(shift128_of((val % 0x100) as u8));
        b.push((val / 0x100) as u8);
        proof {
            assert(b@ =~= le16_add_bytes(val));
        }
        self.write_bytes(b.as_slice());
    }

    /// Append a signed 16-bit value in the shifted little-endian form.
    pub fn write_i16_le_add(&mut self, val: i16)
        requires
            old(self)@.inv(),
            has_room(old(self)@, 2),
        ensures
            final(self)@ == spec_write(old(self)@, le16_add_bytes(i16_bits(val))),
            final(self)@.inv(),
    {
        let u = i16_to_u16(val);
        self.write_u16_le_add(u);
    }

    /// Append a 32-bit value, little-endian.
    pub fn write_u32_le(&mut self, val: u32)
        requires
            old(self)@.inv(),
            has_room(old(self)@, 4),
        ensures
            final(self)@ == spec_write(old(self)@, le_bytes(val as int, 4)),
            final(self)@.inv(),
    {
        let b = le_encode(val as u64, 4);
        self.write_bytes(b.as_slice());
    }

    /// Append a signed 32-bit value, little-endian, as its bit pattern.
    pub fn write_i32_le(&mut self, val: i32)
        requires
            old(self)@.inv(),
            has_room(old(self)@, 4),
        ensures
            final(self)@ == spec_write(old(self)@, le_bytes(i32_bits(val) as int, 4)),
            final(self)@.inv(),
    {
        let u = i32_to_u32(val);
        self.write_u32_le(u);
    }

    /// Append a 32-bit value in the protocol's mixed-endian byte order.
    pub fn write_u32_me(&mut self, val: u32)
        requires
            old(self)@.inv(),
            has_room(old(self)@, 4),
        ensures
            final(self)@ == spec_write(old(self)@, me32_bytes(val)),
            final(self)@.inv(),
    {
        let mut b: Vec<u8> = Vec::new();
        b.push(((val / 0x10000) % 0x100) as u8);
        b.push(((val / 0x1000000) % 0x100) as u8);
        b.push((val % 0x100) as u8);
        b.push(((val / 0x100) % 0x100) as u8);
        proof {
            assert(b@ =~= me32_bytes(val));
        }
        self.write_bytes(b.as_slice());
    }

    /// Append a 32-bit value in the reverse mixed-endian byte order.
    pub fn write_u32_me_reversed(&mut self, val: u32)
        requires
            old(self)@.inv(),
            has_room(old(self)@, 4),
        ensures
            final(self)@ == spec_write(old(self)@, mer32_bytes(val)),
            final(self)@.inv(),
    {
        let mut b: Vec<u8> = Vec::new();
        b.push(((val / 0x100) % 0x100) as u8);
        b.push((val % 0x100) as u8);
        b.push(((val / 0x1000000) % 0x100) as u8);
        b.push(((val / 0x10000) % 0x100) as u8);
        proof {
            assert(b@ =~= mer32_bytes(val));
        }
        self.write_bytes(b.as_slice());
    }

    /// Read a signed byte, as the bit pattern of the byte under the
    /// cursor.
    pub fn read_i8(&mut self) -> (r: Result<i8, BufferError>)
        requires
            old(self)@.inv(),
        ensures
            final(self)@.inv(),
            ({
                let f = spec_flush(old(self)@);
                if f.rpos < f.data.len() {
                    &&& r == Ok::<i8, BufferError>(u8_as_i8(f.data[f.rpos as int]))
                    &&& final(self)@ == f.with_rpos((f.rpos + 1) as nat)
                } else {
                    &&& r == Err::<i8, BufferError>(BufferError::InsufficientData)
                    &&& final(self)@ == f
                }
            }),
    {
        match self.read_u8() {
            Ok(b) => Ok(byte_to_i8(b)),
            Err(e) => Err(e),
        }
    }

    /// Read a big-endian 16-bit value.
    pub fn read_u16(&mut self) -> (r: Result<u16, BufferError>)
        requires
            old(self)@.inv(),
        ensures
            final(self)@.inv(),
            ({
                let f = spec_flush(old(self)@);
                if f.rpos + 2 <= f.data.len() {
                    &&& r matches Ok(x) && x == be_val(
                        f.data.subrange(f.rpos as int, f.rpos as int + 2),
                    )
                    &&& final(self)@ == f.with_rpos((f.rpos + 2) as nat)
                } else {
                    &&& r == Err::<u16, BufferError>(BufferError::InsufficientData)
                    &&& final(self)@ == f
                }
            }),
    {
        match self.read_bytes(2) {
            Ok(b) => {
                proof {
                    lemma_be_val_bound(b@);
                    lemma_pow256_vals();
                }
                let x = be_decode(b.as_slice());
                Ok(x as u16)
            },
            Err(e) => Err(e),
        }
    }

    /// Read a big-endian signed 16-bit value, by bit pattern.
    pub fn read_i16(&mut self) -> (r: Result<i16, BufferError>)
        requires
            old(self)@.inv(),
        ensures
            final(self)@.inv(),
            ({
                let f = spec_flush(old(self)@);
                if f.rpos + 2 <= f.data.len() {
                    &&& r matches Ok(x) && x == u16_as_i16(
                        be_val(f.data.subrange(f.rpos as int, f.rpos as int + 2)) as u16,
                    )
                    &&& final(self)@ == f.with_rpos((f.rpos + 2) as nat)
                } else {
                    &&& r == Err::<i16, BufferError>(BufferError::InsufficientData)
                    &&& final(self)@ == f
                }
            }),
    {
        match self.read_u16() {
            Ok(u) => Ok(u16_to_i16(u)),
            Err(e) => Err(e),
        }
    }

    /// Read a big-endian 32-bit value.
    pub fn read_u32(&mut self) -> (r: Result<u32, BufferError>)
        requires
            old(self)@.inv(),
        ensures
            final(self)@.inv(),
            ({
                let f = spec_flush(old(self)@);
                if f.rpos + 4 <= f.data.len() {
                    &&& r matches Ok(x) && x == be_val(
                        f.data.subrange(f.rpos as int, f.rpos as int + 4),
                    )
                    &&& final(self)@ == f.with_rpos((f.rpos + 4) as nat)
                } else {
                    &&& r == Err::<u32, BufferError>(BufferError::InsufficientData)
                    &&& final(self)@ == f
                }
            }),
    {
        match self.read_bytes(4) {
            Ok(b) => {
                proof {
                    lemma_be_val_bound(b@);
                    lemma_pow256_vals();
                }
                let x = be_decode(b.as_slice());
                Ok(x as u32)
            },
            Err(e) => Err(e),
        }
    }

    /// Read a big-endian signed 32-bit value, by bit pattern.
    pub fn read_i32(&mut self) -> (r: Result<i32, BufferError>)
        requires
            old(self)@.inv(),
        ensures
            final(self)@.inv(),
            ({
                let f = spec_flush(old(self)@);
                if f.rpos + 4 <= f.data.len() {
                    &&& r matches Ok(x) && x == u32_as_i32(
                        be_val(f.data.subrange(f.rpos as int, f.rpos as int + 4)) as u32,
                    )
                    &&& final(self)@ == f.with_rpos((f.rpos + 4) as nat)
                } else {
                    &&& r == Err::<i32, BufferError>(BufferError::InsufficientData)
                    &&& final(self)@ == f
                }
            }),
    {
        match self.read_u32() {
            Ok(u) => Ok(u32_to_i32(u)),
            Err(e) => Err(e),
        }
    }

    /// Read a big-endian 64-bit value.
    pub fn read_u64(&mut self) -> (r: Result<u64, BufferError>)
        requires
            old(self)@.inv(),
        ensures
            final(self)@.inv(),
            ({
                let f = spec_flush(old(self)@);
                if f.rpos + 8 <= f.data.len() {
                    &&& r matches Ok(x) && x == be_val(
                        f.data.subrange(f.rpos as int, f.rpos as int + 8),
                    )
                    &&& final(self)@ == f.with_rpos((f.rpos + 8) as nat)
                } else {
                    &&& r == Err::<u64, BufferError>(BufferError::InsufficientData)
                    &&& final(self)@ == f
                }
            }),
    {
        match self.read_bytes(8) {
            Ok(b) => {
                proof {
                    lemma_be_val_bound(b@);
                    lemma_pow256_vals();
                }
                let x = be_decode(b.as_slice());
                Ok(x)
            },
            Err(e) => Err(e),
        }
    }

    /// Read a big-endian signed 64-bit value, by bit pattern.
    pub fn read_i64(&mut self) -> (r: Result<i64, BufferError>)
        requires
            old(self)@.inv(),
        ensures
            final(self)@.inv(),
            ({
                let f = spec_flush(old(self)@);
                if f.rpos + 8 <= f.data.len() {
                    &&& r matches Ok(x) && x == u64_as_i64(
                        be_val(f.data.subrange(f.rpos as int, f.rpos as int + 8)) as u64,
                    )
                    &&& final(self)@ == f.with_rpos((f.rpos + 8) as nat)
                } else {
                    &&& r == Err::<i64, BufferError>(BufferError::InsufficientData)
                    &&& final(self)@ == f
                }
            }),
    {
        match self.read_u64() {
            Ok(u) => Ok(u64_to_i64(u)),
            Err(e) => Err(e),
        }
    }

    /// Read a smart integer: the top bit of the next byte picks the
    /// one-byte or the two-byte form.
    pub fn read_smart(&mut self) -> (r: Result<u16, BufferError>)
        requires
            old(self)@.inv(),
        ensures
            final(self)@.inv(),
            ({
                let f = spec_flush(old(self)@);
                if f.rpos < f.data.len() {
                    let rest = f.data.subrange(f.rpos as int, f.data.len() as int);
                    if f.rpos + smart_width(rest[0]) <= f.data.len() {
                        &&& r matches Ok(x) && x == smart_val(rest)
                        &&& final(self)@ == f.with_rpos((f.rpos + smart_width(rest[0])) as nat)
                    } else {
                        &&& r == Err::<u16, BufferError>(BufferError::InsufficientData)
                        &&& final(self)@ == f
                    }
                } else {
                    &&& r == Err::<u16, BufferError>(BufferError::InsufficientData)
                    &&& final(self)@ == f
                }
            }),
    {
        self.flush_bit();
        let ghost f = spec_flush(old(self)@);
        match self.peek_u8() {
            None => Err(BufferError::InsufficientData),
            Some(first) => {
                if first >= 0x80 {
                    match self.read_bytes(2) {
                        Ok(b) => {
                            proof {
                                lemma_be_val_bound(b@);
                                lemma_pow256_vals();
                                let rest = f.data.subrange(f.rpos as int, f.data.len() as int);
                                assert(b@ =~= rest.subrange(0, 2));
                            }
                            let x = be_decode(b.as_slice());
                            let y = (((x as u32) + 0x8000) % 0x10000) as u16;
                            Ok(y)
                        },
                        Err(e) => Err(e),
                    }
                } else {
                    match self.read_u8() {
                        Ok(b) => Ok(b as u16),
                        Err(e) => Err(e),
                    }
                }
            },
        }
    }

    /// Read a medium: three big-endian bytes, no sign extension.
    pub fn read_medium(&mut self) -> (r: Result<u32, BufferError>)
        requires
            old(self)@.inv(),
        ensures
            final(self)@.inv(),
            ({
                let f = spec_flush(old(self)@);
                if f.rpos + 3 <= f.data.len() {
                    &&& r matches Ok(x) && x == be_val(
                        f.data.subrange(f.rpos as int, f.rpos as int + 3),
                    )
                    &&& final(self)@ == f.with_rpos((f.rpos + 3) as nat)
                } else {
                    &&& r == Err::<u32, BufferError>(BufferError::InsufficientData)
                    &&& final(self)@ == f
                }
            }),
    {
        match self.read_bytes(3) {
            Ok(b) => {
                proof {
                    lemma_be_val_bound(b@);
                    lemma_pow256_vals();
                }
                let x = be_decode(b.as_slice());
                Ok(x as u32)
            },
            Err(e) => Err(e),
        }
    }

    /// Read a byte stored under the `neg` obfuscation.
    pub fn read_u8_neg(&mut self) -> (r: Result<u8, BufferError>)
        requires
            old(self)@.inv(),
        ensures
            final(self)@.inv(),
            ({
                let f = spec_flush(old(self)@);
                if f.rpos < f.data.len() {
                    &&& r == Ok::<u8, BufferError>(neg_byte(f.data[f.rpos as int]))
                    &&& final(self)@ == f.with_rpos((f.rpos + 1) as nat)
                } else {
                    &&& r == Err::<u8, BufferError>(BufferError::InsufficientData)
                    &&& final(self)@ == f
                }
            }),
    {
        match self.read_u8() {
            Ok(b) => Ok(neg_of(b)),
            Err(e) => Err(e),
        }
    }

    /// Read a signed byte stored under the `neg` obfuscation.
    pub fn read_i8_neg(&mut self) -> (r: Result<i8, BufferError>)
        requires
            old(self)@.inv(),
        ensures
            final(self)@.inv(),
            ({
                let f = spec_flush(old(self)@);
                if f.rpos < f.data.len() {
                    &&& r == Ok::<i8, BufferError>(u8_as_i8(neg_byte(f.data[f.rpos as int])))
                    &&& final(self)@ == f.with_rpos((f.rpos + 1) as nat)
                } else {
                    &&& r == Err::<i8, BufferError>(BufferError::InsufficientData)
                    &&& final(self)@ == f
                }
            }),
    {
        match self.read_u8() {
            Ok(b) => Ok(byte_to_i8(neg_of(b))),
            Err(e) => Err(e),
        }
    }

    /// Read a byte stored under the `add` obfuscation, undoing the
    /// shift.
    pub fn read_u8_add(&mut self) -> (r: Result<u8, BufferError>)
        requires
            old(self)@.inv(),
        ensures
            final(self)@.inv(),
            ({
                let f = spec_flush(old(self)@);
                if f.rpos < f.data.len() {
                    &&& r == Ok::<u8, BufferError>(shift128(f.data[f.rpos as int]))
                    &&& final(self)@ == f.with_rpos((f.rpos + 1) as nat)
                } else {
                    &&& r == Err::<u8, BufferError>(BufferError::InsufficientData)
                    &&& final(self)@ == f
                }
            }),
    {
        match self.read_u8() {
            Ok(b) => Ok(shift128_of(b)),
            Err(e) => Err(e),
        }
    }

    /// Read a signed byte stored under the `add` obfuscation.
    pub fn read_i8_add(&mut self) -> (r: Result<i8, BufferError>)
        requires
            old(self)@.inv(),
        ensures
            final(self)@.inv(),
            ({
                let f = spec_flush(old(self)@);
                if f.rpos < f.data.len() {
                    &&& r == Ok::<i8, BufferError>(u8_as_i8(shift128(f.data[f.rpos as int])))
                    &&& final(self)@ == f.with_rpos((f.rpos + 1) as nat)
                } else {
                    &&& r == Err::<i8, BufferError>(BufferError::InsufficientData)
                    &&& final(self)@ == f
                }
            }),
    {
        match self.read_u8() {
            Ok(b) => Ok(byte_to_i8(shift128_of(b))),
            Err(e) => Err(e),
        }
    }

    /// Read a byte stored under the `sub` obfuscation, adding the 128
    /// back; modulo 256 this is the same shift the `add` variant undoes.
    pub fn read_u8_sub(&mut self) -> (r: Result<u8, BufferError>)
        requires
            old(self)@.inv(),
        ensures
            final(self)@.inv(),
            ({
                let f = spec_flush(old(self)@);
                if f.rpos < f.data.len() {
                    &&& r == Ok::<u8, BufferError>(shift128(f.data[f.rpos as int]))
                    &&& final(self)@ == f.with_rpos((f.rpos + 1) as nat)
                } else {
                    &&& r == Err::<u8, BufferError>(BufferError::InsufficientData)
                    &&& final(self)@ == f
                }
            }),
    {
        match self.read_u8() {
            Ok(b) => Ok(shift128_of(b)),
            Err(e) => Err(e),
        }
    }

    /// Read a signed byte stored under the `sub` obfuscation.
    pub fn read_i8_sub(&mut self) -> (r: Result<i8, BufferError>)
        requires
            old(self)@.inv(),
        ensures
            final(self)@.inv(),
            ({
                let f = spec_flush(old(self)@);
                if f.rpos < f.data.len() {
                    &&& r == Ok::<i8, BufferError>(u8_as_i8(shift128(f.data[f.rpos as int])))
                    &&& final(self)@ == f.with_rpos((f.rpos + 1) as nat)
                } else {
                    &&& r == Err::<i8, BufferError>(BufferError::InsufficientData)
                    &&& final(self)@ == f
                }
            }),
    {
        match self.read_u8() {
            Ok(b) => Ok(byte_to_i8(shift128_of(b))),
            Err(e) => Err(e),
        }
    }

    /// Read a little-endian 16-bit value.
    pub fn read_u16_le(&mut self) -> (r: Result<u16, BufferError>)
        requires
            old(self)@.inv(),
        ensures
            final(self)@.inv(),
            ({
                let f = spec_flush(old(self)@);
                if f.rpos + 2 <= f.data.len() {
                    &&& r matches Ok(x) && x == le_val(
                        f.data.subrange(f.rpos as int, f.rpos as int + 2),
                    )
                    &&& final(self)@ == f.with_rpos((f.rpos + 2) as nat)
                } else {
                    &&& r == Err::<u16, BufferError>(BufferError::InsufficientData)
                    &&& final(self)@ == f
                }
            }),
    {
        match self.read_bytes(2) {
            Ok(b) => {
                proof {
                    lemma_le_val_bound(b@);
                    lemma_pow256_vals();
                }
                let x = le_decode(b.as_slice());
                Ok(x as u16)
            },
            Err(e) => Err(e),
        }
    }

    /// Read a little-endian signed 16-bit value, by bit pattern.
    pub fn read_i16_le(&mut self) -> (r: Result<i16, BufferError>)
        requires
            old(self)@.inv(),
        ensures
            final(self)@.inv(),
            ({
                let f = spec_flush(old(self)@);
                if f.rpos + 2 <= f.data.len() {
                    &&& r matches Ok(x) && x == u16_as_i16(
                        le_val(f.data.subrange(f.rpos as int, f.rpos as int + 2)) as u16,
                    )
                    &&& final(self)@ == f.with_rpos((f.rpos + 2) as nat)
                } else {
                    &&& r == Err::<i16, BufferError>(BufferError::InsufficientData)
                    &&& final(self)@ == f
                }
            }),
    {
        match self.read_u16_le() {
            Ok(u) => Ok(u16_to_i16(u)),
            Err(e) => Err(e),
        }
    }

    /// Read a shifted little-endian 16-bit value, undoing the +128 on
    /// the low byte.
    pub fn read_u16_le_add(&mut self) -> (r: Result<u16, BufferError>)
        requires
            old(self)@.inv(),
        ensures
            final(self)@.inv(),
            ({
                let f = spec_flush(old(self)@);
                if f.rpos + 2 <= f.data.len() {
                    &&& r matches Ok(x) && x == le16_add_val(
                        f.data.subrange(f.rpos as int, f.rpos as int + 2),
                    )
                    &&& final(self)@ == f.with_rpos((f.rpos + 2) as nat)
                } else {
                    &&& r == Err::<u16, BufferError>(BufferError::InsufficientData)
                    &&& final(self)@ == f
                }
            }),
    {
        match self.read_bytes(2) {
            Ok(b) => {
                let lo = shift128_of(b[0]);
                let hi = b[1];
                Ok((lo as u16) + (hi as u16) * 0x100)
            },
            Err(e) => Err(e),
        }
    }

    /// Read a shifted little-endian signed 16-bit value.
    pub fn read_i16_le_add(&mut self) -> (r: Result<i16, BufferError>)
        requires
            old(self)@.inv(),
        ensures
            final(self)@.inv(),
            ({
                let f = spec_flush(old(self)@);
                if f.rpos + 2 <= f.data.len() {
                    &&& r matches Ok(x) && x == u16_as_i16(
                        le16_add_val(f.data.subrange(f.rpos as int, f.rpos as int + 2)) as u16,
                    )
                    &&& final(self)@ == f.with_rpos((f.rpos + 2) as nat)
                } else {
                    &&& r == Err::<i16, BufferError>(BufferError::InsufficientData)
                    &&& final(self)@ == f
                }
            }),
    {
        match self.read_u16_le_add() {
            Ok(u) => Ok(u16_to_i16(u)),
            Err(e) => Err(e),
        }
    }

    /// Read a little-endian 32-bit value.
    pub fn read_u32_le(&mut self) -> (r: Result<u32, BufferError>)
        requires
            old(self)@.inv(),
        ensures
            final(self)@.inv(),
            ({
                let f = spec_flush(old(self)@);
                if f.rpos + 4 <= f.data.len() {
                    &&& r matches Ok(x) && x == le_val(
                        f.data.subrange(f.rpos as int, f.rpos as int + 4),
                    )
                    &&& final(self)@ == f.with_rpos((f.rpos + 4) as nat)
                } else {
                    &&& r == Err::<u32, BufferError>(BufferError::InsufficientData)
                    &&& final(self)@ == f
                }
            }),
    {
        match self.read_bytes(4) {
            Ok(b) => {
                proof {
                    lemma_le_val_bound(b@);
                    lemma_pow256_vals();
                }
                let x = le_decode(b.as_slice());
                Ok(x as u32)
            },
            Err(e) => Err(e),
        }
    }

    /// Read a little-endian signed 32-bit value, by bit pattern.
    pub fn read_i32_le(&mut self) -> (r: Result<i32, BufferError>)
        requires
            old(self)@.inv(),
        ensures
            final(self)@.inv(),
            ({
                let f = spec_flush(old(self)@);
                if f.rpos + 4 <= f.data.len() {
                    &&& r matches Ok(x) && x == u32_as_i32(
                        le_val(f.data.subrange(f.rpos as int, f.rpos as int + 4)) as u32,
                    )
                    &&& final(self)@ == f.with_rpos((f.rpos + 4) as nat)
                } else {
                    &&& r == Err::<i32, BufferError>(BufferError::InsufficientData)
                    &&& final(self)@ == f
                }
            }),
    {
        match self.read_u32_le() {
            Ok(u) => Ok(u32_to_i32(u)),
            Err(e) => Err(e),
        }
    }

    /// Read a mixed-endian 32-bit value.
    pub fn read_u32_me(&mut self) -> (r: Result<u32, BufferError>)
        requires
            old(self)@.inv(),
        ensures
            final(self)@.inv(),
            ({
                let f = spec_flush(old(self)@);
                if f.rpos + 4 <= f.data.len() {
                    &&& r matches Ok(x) && x == me32_val(
                        f.data.subrange(f.rpos as int, f.rpos as int + 4),
                    )
                    &&& final(self)@ == f.with_rpos((f.rpos + 4) as nat)
                } else {
                    &&& r == Err::<u32, BufferError>(BufferError::InsufficientData)
                    &&& final(self)@ == f
                }
            }),
    {
        match self.read_bytes(4) {
            Ok(b) => {
                let x = (b[0] as u32) * 0x10000 + (b[1] as u32) * 0x1000000 + (b[2] as u32) + (b[3]
                    as u32) * 0x100;
                Ok(x)
            },
            Err(e) => Err(e),
        }
    }

    /// Read a reverse mixed-endian 32-bit value.
    pub fn read_u32_me_reversed(&mut self) -> (r: Result<u32, BufferError>)
        requires
            old(self)@.inv(),
        ensures
            final(self)@.inv(),
            ({
                let f = spec_flush(old(self)@);
                if f.rpos + 4 <= f.data.len() {
                    &&& r matches Ok(x) && x == mer32_val(
                        f.data.subrange(f.rpos as int, f.rpos as int + 4),
                    )
                    &&& final(self)@ == f.with_rpos((f.rpos + 4) as nat)
                } else {
                    &&& r == Err::<u32, BufferError>(BufferError::InsufficientData)
                    &&& final(self)@ == f
                }
            }),
    {
        match self.read_bytes(4) {
            Ok(b) => {
                let x = (b[0] as u32) * 0x100 + (b[1] as u32) + (b[2] as u32) * 0x1000000 + (b[3]
                    as u32) * 0x10000;
                Ok(x)
            },
            Err(e) => Err(e),
        }
    }
}

} // verus!
