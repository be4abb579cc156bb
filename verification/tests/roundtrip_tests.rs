use databuffer::BufferError;
use databuffer::DataBuffer;
use databuffer::PacketHeader;

#[test]
fn signed_widths_round_trip() {
    let mut buffer = DataBuffer::new();
    buffer.write_i8(-100);
    buffer.write_i16(-30000);
    buffer.write_i32(-2000000000);
    buffer.write_i64(-9000000000000000000);
    assert_eq!(buffer.read_i8().unwrap(), -100);
    assert_eq!(buffer.read_i16().unwrap(), -30000);
    assert_eq!(buffer.read_i32().unwrap(), -2000000000);
    assert_eq!(buffer.read_i64().unwrap(), -9000000000000000000);
}

#[test]
fn exhaustive_u16_big_endian_round_trip() {
    let mut v: u32 = 0;
    while v <= 0xFFFF {
        let mut buffer = DataBuffer::new();
        buffer.write_u16(v as u16);
        assert_eq!(buffer.read_u16().unwrap(), v as u16);
        v += 1;
    }
}

#[test]
fn u16_big_endian_exact_bytes() {
    let mut buffer = DataBuffer::new();
    buffer.write_u16(0xF0E1);
    assert_eq!(buffer.to_bytes(), vec![0xF0, 0xE1]);
}

#[test]
fn little_endian_round_trip() {
    let mut buffer = DataBuffer::new();
    buffer.write_u16_le(0xF0E1);
    buffer.write_i16_le(-12345);
    buffer.write_u32_le(0xF0E1D2C3);
    buffer.write_i32_le(-123456789);
    assert_eq!(buffer.read_u16_le().unwrap(), 0xF0E1);
    assert_eq!(buffer.read_i16_le().unwrap(), -12345);
    assert_eq!(buffer.read_u32_le().unwrap(), 0xF0E1D2C3);
    assert_eq!(buffer.read_i32_le().unwrap(), -123456789);
}

#[test]
fn little_endian_exact_bytes() {
    let mut buffer = DataBuffer::new();
    buffer.write_u16_le(0x0102);
    buffer.write_u32_le(0x0A0B0C0D);
    assert_eq!(buffer.to_bytes(), vec![0x02, 0x01, 0x0D, 0x0C, 0x0B, 0x0A]);
}

#[test]
fn mixed_endian_round_trip() {
    let mut buffer = DataBuffer::new();
    buffer.write_u32_me(0xF0E1D2C3);
    buffer.write_u32_me_reversed(0xF0E1D2C3);
    assert_eq!(buffer.read_u32_me().unwrap(), 0xF0E1D2C3);
    assert_eq!(buffer.read_u32_me_reversed().unwrap(), 0xF0E1D2C3);
}

#[test]
fn mixed_endian_exact_bytes() {
    // Little-endian byte names for 0x01020304: b0 = 04, b1 = 03, b2 = 02,
    // b3 = 01.  The mixed order is [b2, b3, b0, b1]; the reversed order
    // is [b1, b0, b3, b2].
    let mut buffer = DataBuffer::new();
    buffer.write_u32_me(0x01020304);
    assert_eq!(buffer.to_bytes(), vec![0x02, 0x01, 0x04, 0x03]);

    let mut buffer2 = DataBuffer::new();
    buffer2.write_u32_me_reversed(0x01020304);
    assert_eq!(buffer2.to_bytes(), vec![0x03, 0x04, 0x01, 0x02]);
}

#[test]
fn le_add_round_trip() {
    let mut v: u32 = 0;
    while v <= 0xFFFF {
        let mut buffer = DataBuffer::new();
        buffer.write_u16_le_add(v as u16);
        assert_eq!(buffer.read_u16_le_add().unwrap(), v as u16);
        v += 257;
    }
    let mut buffer = DataBuffer::new();
    buffer.write_i16_le_add(-12345);
    assert_eq!(buffer.read_i16_le_add().unwrap(), -12345);
}

#[test]
fn le_add_exact_bytes() {
    // The +128 shift lands on the low byte only.
    let mut buffer = DataBuffer::new();
    buffer.write_u16_le_add(0x0102);
    assert_eq!(buffer.to_bytes(), vec![0x82, 0x01]);
}

#[test]
fn obfuscation_round_trip_all_bytes() {
    let mut v: u16 = 0;
    while v <= 255 {
        let b = v as u8;
        let mut buffer = DataBuffer::new();
        buffer.write_u8_neg(b);
        buffer.write_u8_add(b);
        buffer.write_u8_sub(b);
        assert_eq!(buffer.read_u8_neg().unwrap(), b);
        assert_eq!(buffer.read_u8_add().unwrap(), b);
        assert_eq!(buffer.read_u8_sub().unwrap(), b);
        v += 1;
    }
}

#[test]
fn signed_obfuscation_round_trip() {
    let mut v: i16 = -128;
    while v <= 127 {
        let b = v as i8;
        let mut buffer = DataBuffer::new();
        buffer.write_i8_neg(b);
        buffer.write_i8_add(b);
        buffer.write_i8_sub(b);
        assert_eq!(buffer.read_i8_neg().unwrap(), b);
        assert_eq!(buffer.read_i8_add().unwrap(), b);
        assert_eq!(buffer.read_i8_sub().unwrap(), b);
        v += 1;
    }
}

#[test]
fn obfuscation_exact_bytes() {
    let mut buffer = DataBuffer::new();
    buffer.write_u8_neg(1);
    buffer.write_u8_add(1);
    buffer.write_u8_sub(1);
    assert_eq!(buffer.to_bytes(), vec![0xFF, 0x81, 0x81]);
}

#[test]
fn smart_small_values_round_trip() {
    let mut v: u16 = 0;
    while v <= 127 {
        let mut buffer = DataBuffer::new();
        buffer.write_smart(v);
        assert_eq!(buffer.len(), 1);
        assert_eq!(buffer.read_smart().unwrap(), v);
        v += 1;
    }
}

#[test]
fn smart_wide_values_round_trip() {
    for v in [129u16, 300, 1000, 16384, 32767] {
        let mut buffer = DataBuffer::new();
        buffer.write_smart(v);
        assert_eq!(buffer.len(), 2);
        assert_eq!(buffer.read_smart().unwrap(), v);
    }
}

#[test]
fn smart_boundary_129() {
    let mut buffer = DataBuffer::new();
    buffer.write_smart(129);
    assert_eq!(buffer.to_bytes(), vec![0x80, 0x81]);
    assert_eq!(buffer.read_smart().unwrap(), 129);
}

#[test]
fn smart_boundary_128_asymmetry() {
    // The encoder still takes the one-byte form at 128, whose single byte
    // 0x80 the decoder reads as the start of a two-byte form: the
    // boundary value does not round-trip.
    let mut buffer = DataBuffer::new();
    buffer.write_smart(128);
    assert_eq!(buffer.to_bytes(), vec![0x80]);
    assert_eq!(buffer.read_smart().unwrap_err(), BufferError::InsufficientData);
    buffer.write_u8(0);
    assert_eq!(buffer.read_smart().unwrap(), 0);
}

#[test]
fn medium_round_trip() {
    let mut buffer = DataBuffer::new();
    buffer.write_medium(0x123456);
    assert_eq!(buffer.len(), 3);
    assert_eq!(buffer.read_medium().unwrap(), 0x123456);
}

#[test]
fn medium_keeps_low_24_bits() {
    let mut buffer = DataBuffer::new();
    buffer.write_medium(0xFF123456);
    assert_eq!(buffer.to_bytes(), vec![0x12, 0x34, 0x56]);
    assert_eq!(buffer.read_medium().unwrap(), 0x123456);
}

#[test]
fn string_round_trip_empty_and_non_ascii() {
    let mut buffer = DataBuffer::new();
    buffer.write_str("");
    buffer.write_ntstr("");
    buffer.write_dntstr("");
    buffer.write_str("héllo wörld");
    buffer.write_ntstr("héllo wörld");
    buffer.write_dntstr("héllo wörld");
    assert_eq!(buffer.read_string().unwrap(), "");
    assert_eq!(buffer.read_ntstr().unwrap(), "");
    assert_eq!(buffer.read_dntstr().unwrap(), "");
    assert_eq!(buffer.read_string().unwrap(), "héllo wörld");
    assert_eq!(buffer.read_ntstr().unwrap(), "héllo wörld");
    assert_eq!(buffer.read_dntstr().unwrap(), "héllo wörld");
}

#[test]
fn read_string_rejects_invalid_utf8() {
    let mut buffer = DataBuffer::from_bytes(&[0, 0, 0, 2, 0xFF, 0xFE]);
    assert_eq!(buffer.read_string().unwrap_err(), BufferError::DecodeError);
    // The cursor is back at the start: the same call fails the same way.
    assert_eq!(buffer.get_rpos(), 0);
    assert_eq!(buffer.read_string().unwrap_err(), BufferError::DecodeError);
}

#[test]
fn read_ntstr_without_terminator() {
    let mut buffer = DataBuffer::from_bytes(&[b'h', b'i']);
    assert_eq!(buffer.read_ntstr().unwrap_err(), BufferError::InsufficientData);
    assert_eq!(buffer.get_rpos(), 0);
}

#[test]
fn read_dntstr_without_leading_nul() {
    let mut buffer = DataBuffer::from_bytes(&[b'h', b'i', 0]);
    assert_eq!(buffer.read_dntstr().unwrap_err(), BufferError::DecodeError);
    assert_eq!(buffer.get_rpos(), 0);
}

#[test]
fn insufficient_data_reports_and_preserves() {
    let mut buffer = DataBuffer::new();
    buffer.write_u8(5);
    assert_eq!(buffer.read_u16().unwrap_err(), BufferError::InsufficientData);
    assert_eq!(buffer.read_u32().unwrap_err(), BufferError::InsufficientData);
    assert_eq!(buffer.read_u64().unwrap_err(), BufferError::InsufficientData);
    assert_eq!(buffer.read_bytes(2).unwrap_err(), BufferError::InsufficientData);
    // The failed reads left the cursor alone: the byte is still there.
    assert_eq!(buffer.read_u8().unwrap(), 5);
    assert_eq!(buffer.read_u8().unwrap_err(), BufferError::InsufficientData);
}

#[test]
fn resize_grows_and_rejects_shrinking() {
    let mut buffer = DataBuffer::new();
    buffer.write_u8(7);
    assert_eq!(buffer.resize(3), Ok(()));
    assert_eq!(buffer.to_bytes(), vec![7, 0, 0]);
    assert_eq!(buffer.resize(1).unwrap_err(), BufferError::InvalidResize);
    assert_eq!(buffer.len(), 3);
}

#[test]
fn clear_resets_cursors_and_storage() {
    let mut buffer = DataBuffer::new();
    buffer.write_u32(0xAABBCCDD);
    let _ = buffer.read_u8();
    buffer.clear();
    assert_eq!(buffer.len(), 0);
    assert_eq!(buffer.get_rpos(), 0);
    assert_eq!(buffer.get_wpos(), 0);
}

#[test]
fn with_vec_takes_ownership() {
    let mut buffer = DataBuffer::with_vec(vec![1, 2, 3]);
    assert_eq!(buffer.len(), 3);
    assert_eq!(buffer.get_wpos(), 0);
    assert_eq!(buffer.read_u8().unwrap(), 1);
}

#[test]
fn cursor_setters_clamp() {
    let mut buffer = DataBuffer::new();
    buffer.write_u16(0x0102);
    buffer.set_rpos(1000);
    assert_eq!(buffer.get_rpos(), 2);
    buffer.set_wpos(1000);
    assert_eq!(buffer.get_wpos(), 2);
    buffer.set_rpos(1);
    assert_eq!(buffer.get_rpos(), 1);
    buffer.set_wpos(0);
    assert_eq!(buffer.get_wpos(), 0);
}

#[test]
fn partial_read_leaves_rest_of_caller_buffer() {
    let mut buffer = DataBuffer::new();
    buffer.write_u8(0xAB);
    let mut res: Vec<u8> = vec![9, 9, 9];
    let n = buffer.read(&mut res);
    assert_eq!(n, 1);
    assert_eq!(res, vec![0xAB, 9, 9]);
}

#[test]
fn bit_sequence_round_trip() {
    let mut buffer = DataBuffer::new();
    buffer.write_bit(true);
    buffer.write_bit(true);
    buffer.write_bit(false);
    assert_eq!(buffer.read_bit().unwrap(), true);
    assert_eq!(buffer.read_bit().unwrap(), true);
    assert_eq!(buffer.read_bit().unwrap(), false);
}

#[test]
fn bits_field_round_trip() {
    let mut buffer = DataBuffer::new();
    buffer.write_bits(0b10110, 5);
    assert_eq!(buffer.read_bits(5).unwrap(), 0b10110);

    let mut buffer2 = DataBuffer::new();
    buffer2.write_bits(0xBEEF, 16);
    assert_eq!(buffer2.read_bits(16).unwrap(), 0xBEEF);

    let mut buffer3 = DataBuffer::new();
    buffer3.write_bits(0xF0E1D2C3B4A59687, 64);
    assert_eq!(buffer3.read_bits(64).unwrap(), 0xF0E1D2C3B4A59687);
}

#[test]
fn read_bits_insufficient() {
    let mut buffer = DataBuffer::from_bytes(&[0xFF]);
    assert_eq!(buffer.read_bits(9).unwrap_err(), BufferError::InsufficientData);
    assert_eq!(buffer.read_bits(8).unwrap(), 0xFF);
}

#[test]
fn pending_bits_flush_on_byte_operation() {
    // A byte-level operation issued after one to seven pending bit
    // writes advances the byte cursor by exactly one and resets the bit
    // offset to zero.
    for pending in 1u8..=7 {
        let mut buffer = DataBuffer::new();
        let mut k = 0;
        while k < pending {
            buffer.write_bit(true);
            k += 1;
        }
        assert_eq!(buffer.get_wpos(), 0);
        buffer.write_u8(0x55);
        assert_eq!(buffer.get_wpos(), 2);
        assert_eq!(buffer.len(), 2);
        assert_eq!(buffer.to_bytes()[1], 0x55);
        // The bit offset was reset: the next bit write opens a new byte.
        buffer.write_bit(true);
        assert_eq!(buffer.len(), 3);
        assert_eq!(buffer.to_bytes()[2], 0x80);
    }
}

#[test]
fn short_header_exact_layout() {
    let mut buffer = DataBuffer::create(3, PacketHeader::SHORT);
    buffer.write_u8(0xAA);
    buffer.write_u8(0xBB);
    let _ = buffer.finish();
    assert_eq!(buffer.to_bytes(), vec![3, 0, 2, 0xAA, 0xBB]);
}

#[test]
fn finish_twice_is_misuse() {
    let mut buffer = DataBuffer::create(3, PacketHeader::BYTE);
    buffer.write_u8(1);
    assert_eq!(buffer.finish(), Ok(()));
    assert_eq!(buffer.finish().unwrap_err(), BufferError::FramingMisuse);
}

#[test]
fn finish_without_payload_is_misuse() {
    let mut buffer = DataBuffer::create(3, PacketHeader::BYTE);
    assert_eq!(buffer.finish().unwrap_err(), BufferError::FramingMisuse);
    let mut empty = DataBuffer::new();
    assert_eq!(empty.finish().unwrap_err(), BufferError::FramingMisuse);
}

#[test]
fn finish_oversized_payload_is_misuse() {
    let mut buffer = DataBuffer::create(3, PacketHeader::BYTE);
    let payload = vec![0u8; 300];
    buffer.write_bytes(&payload);
    assert_eq!(buffer.finish().unwrap_err(), BufferError::FramingMisuse);
}

#[test]
fn exhaustive_u8_round_trip() {
    let mut v: u16 = 0;
    while v <= 255 {
        let mut buffer = DataBuffer::new();
        buffer.write_u8(v as u8);
        assert_eq!(buffer.read_u8().unwrap(), v as u8);
        v += 1;
    }
}

#[test]
fn exhaustive_i8_round_trip() {
    let mut v: i16 = -128;
    while v <= 127 {
        let mut buffer = DataBuffer::new();
        buffer.write_i8(v as i8);
        assert_eq!(buffer.read_i8().unwrap(), v as i8);
        v += 1;
    }
}

#[test]
fn bit_runs_cross_byte_boundaries() {
    let mut buffer = DataBuffer::new();
    buffer.write_bits(0b101, 3);
    buffer.write_bits(0b111011, 6);
    buffer.write_bits(0b0110, 4);
    assert_eq!(buffer.read_bits(3).unwrap(), 0b101);
    assert_eq!(buffer.read_bits(6).unwrap(), 0b111011);
    assert_eq!(buffer.read_bits(4).unwrap(), 0b0110);
}
