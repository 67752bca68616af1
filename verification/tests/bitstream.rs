use av1config::bits::{BitCursor, BitWriter};
use av1config::error::DecodeError;
use av1config::obu::{ObuHeader, ObuType};

#[test]
fn load_u8_reads_big_endian() {
    let data = [0b1010_1100u8];
    let mut cur = BitCursor::new(&data);
    assert_eq!(cur.load_u8(3), Ok(0b101));
    assert_eq!(cur.next_flag(), Ok(false));
    assert_eq!(cur.load_u8(2), Ok(0b11));
    assert_eq!(cur.cursor_position(), 6);
}

#[test]
fn load_u8_past_end_fails() {
    let data = [0xFFu8];
    let mut cur = BitCursor::new(&data);
    assert_eq!(cur.load_u8(8), Ok(0xFF));
    assert_eq!(cur.load_u8(1), Err(DecodeError::MalformedBitstream));
    assert_eq!(cur.cursor_position(), 8);
}

#[test]
fn skip_and_seek_move_the_cursor() {
    let data = [0x0Fu8, 0xF0];
    let mut cur = BitCursor::new(&data);
    assert_eq!(cur.skip(4), Ok(()));
    assert_eq!(cur.load_u8(8), Ok(0xFF));
    assert_eq!(cur.seek(0), Ok(()));
    assert_eq!(cur.next_flag(), Ok(false));
    assert_eq!(cur.seek(16), Ok(()));
    assert_eq!(cur.seek(17), Err(DecodeError::MalformedBitstream));
    assert_eq!(cur.skip(1), Err(DecodeError::MalformedBitstream));
}

#[test]
fn leb128_two_byte_value() {
    // 0x8E continues with low bits 0x0E; 0x02 ends the code.
    let data = [0x8Eu8, 0x02];
    let mut cur = BitCursor::new(&data);
    assert_eq!(cur.leb128(), Ok(270));
    assert_eq!(cur.cursor_position(), 16);
}

#[test]
fn leb128_zero() {
    let data = [0x00u8];
    let mut cur = BitCursor::new(&data);
    assert_eq!(cur.leb128(), Ok(0));
    assert_eq!(cur.cursor_position(), 8);
}

#[test]
fn leb128_eight_continuations_fail() {
    let data = [0x80u8; 8];
    let mut cur = BitCursor::new(&data);
    assert_eq!(cur.leb128(), Err(DecodeError::MalformedBitstream));
}

#[test]
fn leb128_truncated_fails() {
    let data = [0x80u8];
    let mut cur = BitCursor::new(&data);
    assert_eq!(cur.leb128(), Err(DecodeError::MalformedBitstream));
}

#[test]
fn leb128_fifty_six_bit_value() {
    // Seven continuation groups of all-one value bits, then a final
    // 0x7F group: the largest encodable value, 2^56 - 1.
    let data = [0xFFu8, 0xFF, 0xFF, 0xFF, 0xFF, 0xFF, 0xFF, 0x7F];
    let mut cur = BitCursor::new(&data);
    assert_eq!(cur.leb128(), Ok((1u64 << 56) - 1));
}

#[test]
fn uvlc_skip_consumes_two_k_plus_one_bits() {
    // Two leading zeros: k = 2, so 2k + 1 = 5 bits are consumed.
    let data = [0b0010_0000u8];
    let mut cur = BitCursor::new(&data);
    assert_eq!(cur.uvlc_skip(), Ok(()));
    assert_eq!(cur.cursor_position(), 5);
}

#[test]
fn uvlc_skip_immediate_one() {
    // No leading zero: k = 0, one bit consumed.
    let data = [0b1000_0000u8];
    let mut cur = BitCursor::new(&data);
    assert_eq!(cur.uvlc_skip(), Ok(()));
    assert_eq!(cur.cursor_position(), 1);
}

#[test]
fn uvlc_skip_all_zeros_fails() {
    let data = [0x00u8];
    let mut cur = BitCursor::new(&data);
    assert_eq!(cur.uvlc_skip(), Err(DecodeError::MalformedBitstream));
}

#[test]
fn writer_assembles_bits_big_endian() {
    let mut w = BitWriter::new(2);
    w.store_flag(true);
    w.store_bits(7, 1);
    w.store_bits(3, 0b101);
    w.store_bits(5, 0b00011);
    assert_eq!(w.cursor_position(), 16);
    let out = w.into_vec();
    assert_eq!(out, vec![0b1000_0001, 0b1010_0011]);
}

#[test]
fn writer_roundtrips_through_cursor() {
    let mut w = BitWriter::new(3);
    w.store_bits(6, 0b110101);
    w.store_bits(8, 0xA7);
    w.store_flag(true);
    let out = w.into_vec();
    let mut cur = BitCursor::new(&out);
    assert_eq!(cur.load_u8(6), Ok(0b110101));
    assert_eq!(cur.load_u8(8), Ok(0xA7));
    assert_eq!(cur.next_flag(), Ok(true));
}

#[test]
fn obu_type_rejects_reserved_tags() {
    assert_eq!(ObuType::from_u8(1), Ok(ObuType::SequenceHeader));
    assert_eq!(ObuType::from_u8(8), Ok(ObuType::TileList));
    assert_eq!(ObuType::from_u8(15), Ok(ObuType::Padding));
    assert_eq!(ObuType::from_u8(0), Err(DecodeError::MalformedBitstream));
    assert_eq!(ObuType::from_u8(9), Err(DecodeError::MalformedBitstream));
}

#[test]
fn obu_header_without_size_consumes_header_only() {
    // Sequence Header OBU, no extension, has_size = false, as the last
    // element of the buffer: the parse consumes the single header byte
    // and the payload runs to the end of the buffer the caller tracks.
    let data = [0b0_0001_0_0_0u8];
    let (header, offset) = ObuHeader::parse(&data).unwrap();
    assert_eq!(header.ty, ObuType::SequenceHeader);
    assert_eq!(header.size, None);
    assert_eq!(header.temporal_id, 0);
    assert_eq!(header.spatial_id, 0);
    assert_eq!(offset, data.len());
}

#[test]
fn obu_header_with_size_and_extension() {
    // Metadata OBU with extension byte (temporal 5, spatial 2) and a
    // one-byte LEB128 size of 9.
    let data = [0b0_0101_1_1_0u8, 0b101_10_000, 0x09];
    let (header, offset) = ObuHeader::parse(&data).unwrap();
    assert_eq!(header.ty, ObuType::MetaData);
    assert_eq!(header.size, Some(9));
    assert_eq!(header.temporal_id, 5);
    assert_eq!(header.spatial_id, 2);
    assert_eq!(offset, 3);
}

#[test]
fn obu_header_forbidden_bit_fails() {
    let data = [0x80u8];
    assert_eq!(
        ObuHeader::parse(&data),
        Err(DecodeError::MalformedBitstream)
    );
}

#[test]
fn obu_header_reserved_type_fails() {
    let data = [0b0_1001_0_0_0u8];
    assert_eq!(
        ObuHeader::parse(&data),
        Err(DecodeError::MalformedBitstream)
    );
}

#[test]
fn obu_header_truncated_size_fails() {
    // has_size set but the LEB128 byte is missing.
    let data = [0b0_0001_0_1_0u8];
    assert_eq!(
        ObuHeader::parse(&data),
        Err(DecodeError::MalformedBitstream)
    );
}
