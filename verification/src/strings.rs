//! The string operations of the buffer: the three framings written and
//! read against vstd's UTF-8 model, and the hexadecimal dump.
//!
//! A failed read leaves the buffer exactly as the implicit bit flush left
//! it: the cursor does not move past bytes that could not be decoded.

use crate::buffer::has_room;
use crate::buffer::spec_flush;
use crate::buffer::spec_write;
use crate::buffer::BufferError;
use crate::buffer::DataBuffer;
use crate::codec::be_bytes;
use crate::codec::be_val;
use crate::codec::lemma_be_val_bound;
use crate::codec::lemma_pow256_vals;
use crate::text::dntstr_frame;
use crate::text::hex_dump;
use crate::text::lemma_hex_dump_push;
use crate::text::lemma_nul_scan_range;
use crate::text::ntstr_frame;
use crate::text::nul_scan;
use crate::text::str_frame;
use crate::text::string_from_utf8;
use vstd::prelude::*;
use vstd::string::StrSliceExecFns;
use vstd::string::StringExecFns;
use vstd::utf8::decode_utf8;
use vstd::utf8::encode_utf8;
use vstd::utf8::encode_utf8_decode_utf8;
use vstd::utf8::valid_utf8;

verus! {

impl DataBuffer {
    /// Append a string in the length-prefixed form: a four-byte
    /// big-endian count of its UTF-8 bytes (taken modulo two to the 32),
    /// then the bytes, with no terminator.
    pub fn write_str(&mut self, val: &str)
        requires
            old(self)@.inv(),
            has_room(old(self)@, (4 + encode_utf8(val@).len()) as nat),
        ensures
            final(self)@ == spec_write(old(self)@, str_frame(val@)),
            final(self)@.inv(),
    {
        let bytes = val.as_bytes_vec();
        let n32 = ((bytes.len() as u64) % 0x100000000) as u32;
        self.write_u32(n32);
        proof {
            crate::codec::lemma_be_bytes_len(n32 as int, 4);
        }
        self.write_bytes(bytes.as_slice());
        proof {
            crate::buffer::lemma_spec_write_append(
                old(self)@,
                be_bytes(n32 as int, 4),
                bytes@,
            );
            assert(str_frame(val@) == be_bytes(n32 as int, 4) + bytes@);
        }
    }

    /// Append a string in the NUL-terminated form: its UTF-8 bytes, then
    /// one zero byte.
    pub fn write_ntstr(&mut self, val: &str)
        requires
            old(self)@.inv(),
            has_room(old(self)@, (encode_utf8(val@).len() + 1) as nat),
        ensures
            final(self)@ == spec_write(old(self)@, ntstr_frame(val@)),
            final(self)@.inv(),
    {
        let bytes = val.as_bytes_vec();
        self.write_bytes(bytes.as_slice());
        self.write_u8(0);
        proof {
            crate::buffer::lemma_spec_write_append(old(self)@, bytes@, seq![0u8]);
        }
    }

    /// Append a string in the NUL-bookended form: a zero byte, its UTF-8
    /// bytes, and a closing zero byte.
    pub fn write_dntstr(&mut self, val: &str)
        requires
            old(self)@.inv(),
            has_room(old(self)@, (encode_utf8(val@).len() + 2) as nat),
        ensures
            final(self)@ == spec_write(old(self)@, dntstr_frame(val@)),
            final(self)@.inv(),
    {
        let bytes = val.as_bytes_vec();
        self.write_u8(0);
        self.write_bytes(bytes.as_slice());
        self.write_u8(0);
        proof {
            crate::buffer::lemma_spec_write_append(old(self)@, seq![0u8], bytes@);
            crate::buffer::lemma_spec_write_append(old(self)@, seq![0u8] + bytes@, seq![0u8]);
            assert(dntstr_frame(val@) == (seq![0u8] + bytes@) + seq![0u8]);
        }
    }

    /// Read a length-prefixed string: a four-byte big-endian byte count,
    /// then that many UTF-8 bytes.  `InsufficientData` when the count or
    /// the bytes run past the end, `DecodeError` when the bytes are not
    /// UTF-8; either way the cursor stays where the bit flush left it.
    pub fn read_string(&mut self) -> (r: Result<String, BufferError>)
        requires
            old(self)@.inv(),
        ensures
            final(self)@.inv(),
            ({
                let f = spec_flush(old(self)@);
                if f.rpos as int + 4 <= f.data.len() {
                    let n = be_val(f.data.subrange(f.rpos as int, f.rpos as int + 4));
                    if f.rpos as int + 4 + n <= f.data.len() {
                        let bytes = f.data.subrange(f.rpos as int + 4, f.rpos as int + 4 + n);
                        if valid_utf8(bytes) {
                            &&& r matches Ok(s) && encode_utf8(s@) == bytes && s@ == decode_utf8(
                                bytes,
                            )
                            &&& final(self)@ == f.with_rpos((f.rpos + 4 + n) as nat)
                        } else {
                            &&& r == Err::<String, BufferError>(BufferError::DecodeError)
                            &&& final(self)@ == f
                        }
                    } else {
                        &&& r == Err::<String, BufferError>(BufferError::InsufficientData)
                        &&& final(self)@ == f
                    }
                } else {
                    &&& r == Err::<String, BufferError>(BufferError::InsufficientData)
                    &&& final(self)@ == f
                }
            }),
    {
        self.flush_bit();
        let ghost f = spec_flush(old(self)@);
        let start = self.get_rpos();
        let n32 = match self.read_u32() {
            Ok(v) => v,
            Err(e) => {
                return Err(e);
            },
        };
        proof {
            lemma_be_val_bound(f.data.subrange(f.rpos as int, f.rpos as int + 4));
            lemma_pow256_vals();
        }
        let n = n32 as usize;
        if self.len() - self.get_rpos() < n {
            self.set_rpos(start);
            proof {
                assert(self@ =~= f);
            }
            return Err(BufferError::InsufficientData);
        }
        let bytes = match self.read_bytes(n) {
            Ok(b) => b,
            Err(_) => {
                proof {
                    assert(false);
                }
                Vec::new()
            },
        };
        match string_from_utf8(bytes) {
            Some(s) => {
                proof {
                    encode_utf8_decode_utf8(s@);
                }
                Ok(s)
            },
            None => {
                self.set_rpos(start);
                proof {
                    assert(self@ =~= f);
                }
                Err(BufferError::DecodeError)
            },
        }
    }

    /// Read a NUL-terminated string: every byte up to the next zero byte,
    /// decoded as UTF-8, the zero byte consumed.  `InsufficientData` when
    /// no zero byte remains, `DecodeError` when the bytes are not UTF-8;
    /// either way the cursor stays where the bit flush left it.
    pub fn read_ntstr(&mut self) -> (r: Result<String, BufferError>)
        requires
            old(self)@.inv(),
        ensures
            final(self)@.inv(),
            ({
                let f = spec_flush(old(self)@);
                let k = nul_scan(f.data, f.rpos as int);
                if k == f.data.len() {
                    &&& r == Err::<String, BufferError>(BufferError::InsufficientData)
                    &&& final(self)@ == f
                } else {
                    let bytes = f.data.subrange(f.rpos as int, k);
                    if valid_utf8(bytes) {
                        &&& r matches Ok(s) && encode_utf8(s@) == bytes && s@ == decode_utf8(bytes)
                        &&& final(self)@ == f.with_rpos((k + 1) as nat)
                    } else {
                        &&& r == Err::<String, BufferError>(BufferError::DecodeError)
                        &&& final(self)@ == f
                    }
                }
            }),
    {
        self.flush_bit();
        let ghost f = spec_flush(old(self)@);
        let start = self.get_rpos();
        let k = self.scan_nul(start);
        proof {
            lemma_nul_scan_range(f.data, start as int);
        }
        if k == self.len() {
            return Err(BufferError::InsufficientData);
        }
        let bytes = match self.read_bytes(k - start) {
            Ok(b) => b,
            Err(_) => {
                proof {
                    assert(false);
                }
                Vec::new()
            },
        };
        match self.read_u8() {
            Ok(_) => {},
            Err(_) => {
                proof {
                    assert(false);
                }
            },
        };
        match string_from_utf8(bytes) {
            Some(s) => {
                proof {
                    encode_utf8_decode_utf8(s@);
                }
                Ok(s)
            },
            None => {
                self.set_rpos(start);
                proof {
                    assert(self@ =~= f);
                }
                Err(BufferError::DecodeError)
            },
        }
    }

    /// Read a NUL-bookended string: a leading zero byte must be present,
    /// then every byte up to the closing zero, decoded as UTF-8, both
    /// zero bytes consumed.  A missing lead is a `DecodeError`; a missing
    /// close is `InsufficientData`; either way the cursor stays where the
    /// bit flush left it.
    pub fn read_dntstr(&mut self) -> (r: Result<String, BufferError>)
        requires
            old(self)@.inv(),
        ensures
            final(self)@.inv(),
            ({
                let f = spec_flush(old(self)@);
                if f.rpos >= f.data.len() {
                    &&& r == Err::<String, BufferError>(BufferError::InsufficientData)
                    &&& final(self)@ == f
                } else if f.data[f.rpos as int] != 0 {
                    &&& r == Err::<String, BufferError>(BufferError::DecodeError)
                    &&& final(self)@ == f
                } else {
                    let k = nul_scan(f.data, f.rpos as int + 1);
                    if k == f.data.len() {
                        &&& r == Err::<String, BufferError>(BufferError::InsufficientData)
                        &&& final(self)@ == f
                    } else {
                        let bytes = f.data.subrange(f.rpos as int + 1, k);
                        if valid_utf8(bytes) {
                            &&& r matches Ok(s) && encode_utf8(s@) == bytes && s@ == decode_utf8(
                                bytes,
                            )
                            &&& final(self)@ == f.with_rpos((k + 1) as nat)
                        } else {
                            &&& r == Err::<String, BufferError>(BufferError::DecodeError)
                            &&& final(self)@ == f
                        }
                    }
                }
            }),
    {
        self.flush_bit();
        let ghost f = spec_flush(old(self)@);
        let start = self.get_rpos();
        let lead = match self.peek_u8() {
            None => {
                return Err(BufferError::InsufficientData);
            },
            Some(b) => b,
        };
        if lead != 0 {
            return Err(BufferError::DecodeError);
        }
        match self.read_u8() {
            Ok(_) => {},
            Err(_) => {
                proof {
                    assert(false);
                }
            },
        };
        let k = self.scan_nul(start + 1);
        proof {
            lemma_nul_scan_range(f.data, start as int + 1);
        }
        if k == self.len() {
            self.set_rpos(start);
            proof {
                assert(self@ =~= f);
            }
            return Err(BufferError::InsufficientData);
        }
        let bytes = match self.read_bytes(k - (start + 1)) {
            Ok(b) => b,
            Err(_) => {
                proof {
                    assert(false);
                }
                Vec::new()
            },
        };
        match self.read_u8() {
            Ok(_) => {},
            Err(_) => {
                proof {
                    assert(false);
                }
            },
        };
        match string_from_utf8(bytes) {
            Some(s) => {
                proof {
                    encode_utf8_decode_utf8(s@);
                }
                Ok(s)
            },
            None => {
                self.set_rpos(start);
                proof {
                    assert(self@ =~= f);
                }
                Err(BufferError::DecodeError)
            },
        }
    }

    /// Dump every stored byte as `0x`-prefixed lowercase hexadecimal,
    /// space-separated.
    pub fn to_string(&self) -> (r: String)
        ensures
            r@ == hex_dump(self@.data),
    {
        let mut s = String::new();
        let n = self.len();
        let mut i: usize = 0;
        while i < n
            invariant
                0 <= i <= n,
                n == self@.data.len(),
                s@ =~= hex_dump(self@.data.take(i as int)),
            decreases n - i,
        {
            let b = match self.byte_at(i) {
                Some(v) => v,
                None => {
                    proof {
                        assert(false);
                    }
                    0
                },
            };
            if i > 0 {
                s.append(" ");
            }
            s.append("0x");
            s.append(hex_digit_str(b / 16));
            s.append(hex_digit_str(b % 16));
            proof {
                reveal_strlit(" ");
                reveal_strlit("0x");
                lemma_hex_dump_push(self@.data.take(i as int), b);
                assert(self@.data.take(i as int).push(b) =~= self@.data.take(i as int + 1));
                if i == 0 {
                    assert(s@ =~= hex_dump(self@.data.take(i as int + 1)));
                } else {
                    assert(s@ =~= hex_dump(self@.data.take(i as int + 1)));
                }
            }
            i = i + 1;
        }
        proof {
            assert(self@.data.take(n as int) =~= self@.data);
        }
        s
    }
}

/// The lowercase hexadecimal digit for a value below 16.
fn hex_digit_str(n: u8) -> (r: &'static str)
    requires
        n < 16,
    ensures
        r@ =~= seq![crate::text::hex_char(n as int)],
{
    proof {
        reveal_strlit("0");
        reveal_strlit("1");
        reveal_strlit("2");
        reveal_strlit("3");
        reveal_strlit("4");
        reveal_strlit("5");
        reveal_strlit("6");
        reveal_strlit("7");
        reveal_strlit("8");
        reveal_strlit("9");
        reveal_strlit("a");
        reveal_strlit("b");
        reveal_strlit("c");
        reveal_strlit("d");
        reveal_strlit("e");
        reveal_strlit("f");
    }
    match n {
        0 => "0",
        1 => "1",
        2 => "2",
        3 => "3",
        4 => "4",
        5 => "5",
        6 => "6",
        7 => "7",
        8 => "8",
        9 => "9",
        10 => "a",
        11 => "b",
        12 => "c",
        13 => "d",
        14 => "e",
        _ => "f",
    }
}

} // verus!
