use av1config::av1c::Av1CBox;
use av1config::bits::BitWriter;
use av1config::error::DecodeError;
use av1config::seq_header::SequenceHeaderFields;

/// A minimal reduced-still-picture Sequence Header payload: 1x1
/// frame-dimension widths and every optional flag off.
fn reduced_payload(profile: u8, level: u8) -> Vec<u8> {
    let mut w = BitWriter::new(4);
    w.store_bits(3, profile);
    w.store_flag(false); // still_picture
    w.store_flag(true); // reduced_still_picture_header
    w.store_bits(5, level);
    w.store_bits(4, 0); // frame_width_bits_minus_1
    w.store_bits(4, 0); // frame_height_bits_minus_1
    w.store_flag(false); // frame width value, one bit
    w.store_flag(false); // frame height value, one bit
    w.store_bits(3, 0); // superblock, filter-intra, intra-edge flags
    w.store_bits(3, 0); // superres, cdef, restoration
    w.into_vec()
}

/// A minimal full Sequence Header payload with one operating point.
/// `tier` is written only when given, mirroring the grammar's
/// level-gated tier bit; `wm1` fills the frame-width-bits field so the
/// bit right after the level field can be forced to one.
fn full_payload(level: u8, tier: Option<bool>, wm1: u8) -> Vec<u8> {
    let mut w = BitWriter::new(12);
    w.store_bits(3, 0); // profile
    w.store_flag(false); // still_picture
    w.store_flag(false); // reduced_still_picture_header
    w.store_flag(false); // timing_info_present
    w.store_flag(false); // initial_display_delay_present
    w.store_bits(5, 0); // operating_points_cnt_minus_1
    w.store_bits(8, 0); // operating_point_idc, high bits
    w.store_bits(4, 0); // operating_point_idc, low bits
    w.store_bits(5, level);
    if let Some(t) = tier {
        w.store_flag(t);
    }
    w.store_bits(4, wm1); // frame_width_bits_minus_1
    w.store_bits(4, 0); // frame_height_bits_minus_1
    for _ in 0..(wm1 + 1) {
        w.store_flag(false); // frame width value bits
    }
    w.store_flag(false); // frame height value, one bit
    w.store_flag(false); // frame_id_numbers_present
    w.store_bits(3, 0); // superblock, filter-intra, intra-edge flags
    w.store_bits(4, 0); // interintra, masked, warped, dual-filter
    w.store_flag(false); // enable_order_hint
    w.store_flag(true); // seq_choose_screen_content_tools
    w.store_flag(true); // seq_choose_integer_mv
    w.store_bits(3, 0); // superres, cdef, restoration
    w.into_vec()
}

/// Wraps a payload in a Sequence Header OBU with an explicit size.
fn seq_obu(payload: &[u8]) -> Vec<u8> {
    let mut out = vec![0b0_0001_0_1_0u8, payload.len() as u8];
    out.extend_from_slice(payload);
    out
}

#[test]
fn parse_reduced_header() {
    let fields = SequenceHeaderFields::parse(&reduced_payload(2, 7)).unwrap();
    assert_eq!(fields.seq_profile, 2);
    assert!(fields.reduced_still_picture_header);
    assert_eq!(fields.seq_level_idx_0, 7);
    assert!(!fields.seq_tier_0);
    assert_eq!(fields.frame_width_bits, 1);
    assert_eq!(fields.frame_height_bits, 1);
    assert!(!fields.enable_order_hint);
    assert_eq!(fields.order_hint_bits, 0);
    assert_eq!(fields.seq_force_screen_content_tools, 2);
    assert_eq!(fields.seq_force_integer_mv, 2);
}

#[test]
fn parse_rejects_reserved_profile() {
    assert_eq!(
        SequenceHeaderFields::parse(&reduced_payload(3, 0)),
        Err(DecodeError::MalformedBitstream)
    );
}

#[test]
fn parse_truncated_payload_fails() {
    let payload = reduced_payload(0, 3);
    assert_eq!(
        SequenceHeaderFields::parse(&payload[..1]),
        Err(DecodeError::MalformedBitstream)
    );
}

#[test]
fn low_level_forces_tier_false() {
    // Level 5 carries no tier bit; the frame-width field right after
    // the level starts with a one bit, which must not be read as a
    // tier.
    let fields = SequenceHeaderFields::parse(&full_payload(5, None, 0b1000)).unwrap();
    assert_eq!(fields.seq_level_idx_0, 5);
    assert!(!fields.seq_tier_0);
    assert_eq!(fields.frame_width_bits, 9);
}

#[test]
fn high_level_reads_explicit_tier_bit() {
    let fields = SequenceHeaderFields::parse(&full_payload(12, Some(true), 0)).unwrap();
    assert_eq!(fields.seq_level_idx_0, 12);
    assert!(fields.seq_tier_0);
    let fields = SequenceHeaderFields::parse(&full_payload(12, Some(false), 0)).unwrap();
    assert!(!fields.seq_tier_0);
}

#[test]
fn operating_point_loop_runs_thirty_two_times() {
    // operating_points_cnt_minus_1 at its maximum of 31: all 32
    // entries are consumed and only operating point 0 is reported.
    let mut w = BitWriter::new(80);
    w.store_bits(3, 0);
    w.store_flag(false);
    w.store_flag(false);
    w.store_flag(false); // timing_info_present
    w.store_flag(false); // initial_display_delay_present
    w.store_bits(5, 31); // operating_points_cnt_minus_1
    w.store_bits(8, 0);
    w.store_bits(4, 0);
    w.store_bits(5, 3); // operating point 0: level 3
    for _ in 0..31 {
        w.store_bits(8, 0);
        w.store_bits(4, 0);
        w.store_bits(5, 0); // further operating points: level 0
    }
    w.store_bits(4, 0);
    w.store_bits(4, 0);
    w.store_flag(false);
    w.store_flag(false);
    w.store_flag(false); // frame_id_numbers_present
    w.store_bits(3, 0);
    w.store_bits(4, 0);
    w.store_flag(false); // enable_order_hint
    w.store_flag(true); // seq_choose_screen_content_tools
    w.store_flag(true); // seq_choose_integer_mv
    w.store_bits(3, 0);
    let fields = SequenceHeaderFields::parse(&w.into_vec()).unwrap();
    assert_eq!(fields.seq_level_idx_0, 3);
    assert!(!fields.seq_tier_0);
}

#[test]
fn parse_timing_and_decoder_model_sections() {
    let mut w = BitWriter::new(32);
    w.store_bits(3, 1); // profile 1
    w.store_flag(false);
    w.store_flag(false);
    w.store_flag(true); // timing_info_present
    for _ in 0..8 {
        w.store_bits(8, 0); // num_units_in_display_tick, time_scale
    }
    w.store_flag(true); // equal_picture_interval
    w.store_flag(true); // num_ticks UVLC: an immediate one bit
    w.store_flag(true); // decoder_model_info_present
    w.store_bits(5, 1); // buffer_delay_length_minus_1
    for _ in 0..42 {
        w.store_flag(false); // decoder-model parameters
    }
    w.store_flag(true); // initial_display_delay_present
    w.store_bits(5, 0); // operating_points_cnt_minus_1
    w.store_bits(8, 0);
    w.store_bits(4, 0);
    w.store_bits(5, 9); // level 9: a tier bit follows
    w.store_flag(true); // tier
    w.store_flag(true); // decoder_model_present_for_this_op
    w.store_bits(2, 0); // decoder_buffer_delay
    w.store_bits(2, 0); // encoder_buffer_delay
    w.store_flag(false); // low_delay_mode
    w.store_flag(true); // initial_display_delay_present_for_this_op
    w.store_bits(4, 0); // initial_display_delay_minus_1
    w.store_bits(4, 0);
    w.store_bits(4, 0);
    w.store_flag(false);
    w.store_flag(false);
    w.store_flag(false); // frame_id_numbers_present
    w.store_bits(3, 0);
    w.store_bits(4, 0);
    w.store_flag(true); // enable_order_hint
    w.store_bits(2, 0); // jnt_comp, ref_frame_mvs
    w.store_flag(false); // seq_choose_screen_content_tools
    w.store_flag(true); // seq_force_screen_content_tools = 1
    w.store_flag(false); // seq_choose_integer_mv
    w.store_flag(true); // seq_force_integer_mv = 1
    w.store_bits(3, 4); // order_hint_bits_minus_1
    w.store_flag(true); // enable_superres
    w.store_flag(false); // enable_cdef
    w.store_flag(true); // enable_restoration
    let fields = SequenceHeaderFields::parse(&w.into_vec()).unwrap();
    assert_eq!(fields.seq_profile, 1);
    assert_eq!(fields.seq_level_idx_0, 9);
    assert!(fields.seq_tier_0);
    assert!(fields.enable_order_hint);
    assert_eq!(fields.order_hint_bits, 5);
    assert_eq!(fields.seq_force_screen_content_tools, 1);
    assert_eq!(fields.seq_force_integer_mv, 1);
    assert!(fields.enable_superres);
    assert!(!fields.enable_cdef);
    assert!(fields.enable_restoration);
}

#[test]
fn build_minimal_record() {
    // Profile 0, reduced still picture, level 3: tier comes out false
    // and byte 0 of the encoding is exactly marker plus version.
    let obus = seq_obu(&reduced_payload(0, 3));
    let rec = Av1CBox::new(&obus).unwrap();
    assert_eq!(rec.version, 1);
    assert_eq!(rec.seq_profile, 0);
    assert_eq!(rec.seq_level_idx_0, 3);
    assert!(!rec.seq_tier_0);
    assert_eq!(rec.config_obus, obus);
    let encoded = rec.encode();
    assert_eq!(encoded[0], 0b1000_0001);
    assert_eq!(encoded[1], 0b000_00011);
    assert_eq!(encoded[2], 0);
    assert_eq!(encoded[3], 0);
    assert_eq!(encoded[4], 0);
    assert_eq!(&encoded[5..], &obus[..]);
}

#[test]
fn build_finds_header_after_other_obus() {
    // A temporal delimiter with size 0 stands before the Sequence
    // Header OBU.
    let mut obus = vec![0b0_0010_0_1_0u8, 0x00];
    obus.extend_from_slice(&seq_obu(&reduced_payload(1, 8)));
    let rec = Av1CBox::new(&obus).unwrap();
    assert_eq!(rec.seq_profile, 1);
    assert_eq!(rec.seq_level_idx_0, 8);
    assert_eq!(rec.config_obus, obus);
}

#[test]
fn build_without_size_runs_to_buffer_end() {
    let mut obus = vec![0b0_0001_0_0_0u8];
    obus.extend_from_slice(&reduced_payload(2, 10));
    let rec = Av1CBox::new(&obus).unwrap();
    assert_eq!(rec.seq_profile, 2);
    assert_eq!(rec.seq_level_idx_0, 10);
}

#[test]
fn build_without_header_fails() {
    let obus = [0b0_0010_0_1_0u8, 0x00];
    assert_eq!(
        Av1CBox::new(&obus),
        Err(DecodeError::MissingSequenceHeader)
    );
}

#[test]
fn build_sizeless_foreign_obu_ends_buffer() {
    // A temporal delimiter without a size claims the rest of the
    // buffer, so no Sequence Header can follow.
    let obus = [0b0_0010_0_0_0u8];
    assert_eq!(
        Av1CBox::new(&obus),
        Err(DecodeError::MissingSequenceHeader)
    );
}

#[test]
fn build_oversized_declaration_fails() {
    // The Sequence Header OBU declares five payload bytes; one is
    // present.
    let obus = [0b0_0001_0_1_0u8, 0x05, 0x00];
    assert_eq!(Av1CBox::new(&obus), Err(DecodeError::SizeMismatch));
}

#[test]
fn build_forbidden_bit_fails() {
    let obus = [0x80u8];
    assert_eq!(Av1CBox::new(&obus), Err(DecodeError::MalformedBitstream));
}

#[test]
fn decode_unpacks_every_field() {
    let bytes = [
        0b1000_0001u8, // marker, version 1
        0b010_01100,   // profile 2, level 12
        0b1_0_1_0_1_0_10, // tier, bitdepth flags, chroma layout
        0,
        0,
        0xAA,
    ];
    let rec = Av1CBox::decode(&bytes).unwrap();
    assert_eq!(rec.version, 1);
    assert_eq!(rec.seq_profile, 2);
    assert_eq!(rec.seq_level_idx_0, 12);
    assert!(rec.seq_tier_0);
    assert!(!rec.high_bitdepth);
    assert!(rec.twelve_bit);
    assert!(!rec.monochrome);
    assert!(rec.chroma_subsampling_x);
    assert!(!rec.chroma_subsampling_y);
    assert_eq!(rec.chroma_sample_position, 2);
    assert_eq!(rec.config_obus, vec![0xAA]);
}

#[test]
fn decode_cleared_marker_fails() {
    let bytes = [0b0000_0001u8, 0, 0, 0, 0];
    assert_eq!(
        Av1CBox::decode(&bytes),
        Err(DecodeError::MalformedBitstream)
    );
}

#[test]
fn decode_version_two_fails() {
    // Marker set, every other bit well-formed, but version 2.
    let bytes = [0b1000_0010u8, 0, 0, 0, 0];
    assert_eq!(Av1CBox::decode(&bytes), Err(DecodeError::VersionMismatch));
}

#[test]
fn decode_short_buffer_fails() {
    let bytes = [0x81u8, 0, 0];
    assert_eq!(
        Av1CBox::decode(&bytes),
        Err(DecodeError::MalformedBitstream)
    );
}

#[test]
fn encode_decode_round_trip() {
    let rec = Av1CBox {
        version: 1,
        seq_profile: 2,
        seq_level_idx_0: 31,
        seq_tier_0: true,
        high_bitdepth: true,
        twelve_bit: false,
        monochrome: true,
        chroma_subsampling_x: false,
        chroma_subsampling_y: true,
        chroma_sample_position: 3,
        config_obus: vec![0x0A, 0x01, 0x00],
    };
    let decoded = Av1CBox::decode(&rec.encode()).unwrap();
    assert_eq!(decoded, rec);
}

#[test]
fn built_record_round_trips_and_checks() {
    let obus = seq_obu(&reduced_payload(2, 9));
    let rec = Av1CBox::new(&obus).unwrap();
    let decoded = Av1CBox::decode(&rec.encode()).unwrap();
    assert_eq!(decoded, rec);
    assert_eq!(decoded.check_consistency(), Ok(()));
}

#[test]
fn consistency_check_catches_tampered_fields() {
    let obus = seq_obu(&reduced_payload(0, 3));
    let mut rec = Av1CBox::new(&obus).unwrap();
    rec.seq_level_idx_0 = 4;
    assert_eq!(
        rec.check_consistency(),
        Err(DecodeError::MalformedBitstream)
    );
}

#[test]
fn encoded_marker_bit_is_always_set() {
    for level in [0u8, 7, 15, 31] {
        let rec = Av1CBox::new(&seq_obu(&reduced_payload(1, level))).unwrap();
        assert_eq!(rec.encode()[0] & 0x80, 0x80);
    }
}

#[test]
fn box_size_counts_headers_and_obus() {
    let obus = seq_obu(&reduced_payload(0, 0));
    let rec = Av1CBox::new(&obus).unwrap();
    assert_eq!(rec.box_size(), 8 + 5 + obus.len() as u64);
}
