//! Open Bitstream Unit headers.
//!
//! An OBU header is one base byte, one optional extension byte, and up
//! to eight LEB128 size bytes; it is always a whole number of bytes, so
//! a parse hands back a byte offset at which the payload starts.

use vstd::prelude::*;

use crate::bits::BitCursor;
use crate::bits::bit_at;
use crate::bits::bit_len;
use crate::bits::bits_value;
use crate::bits::fits_bits;
use crate::bits::leb_count;
use crate::bits::leb_terminated;
use crate::bits::leb_value;
use crate::bits::lemma_bits_value_bound;
use crate::bits::lemma_pow2_values;
use crate::error::DecodeError;

verus! {

/// The closed set of OBU kinds the AV1 bitstream defines.  Any other
/// four-bit tag is reserved and a decode error, never a default.
#[derive(Clone, Copy, Debug, PartialEq, Eq, Structural)]
pub enum ObuType {
    SequenceHeader,
    TemporalDelimiter,
    FrameHeader,
    TileGroup,
    MetaData,
    Frame,
    RedundantFrameHeader,
    TileList,
    Padding,
}

/// The OBU kind a four-bit tag names, if any.
pub open spec fn obu_type_from_tag(tag: nat) -> Option<ObuType> {
    if tag == 1 {
        Some(ObuType::SequenceHeader)
    } else if tag == 2 {
        Some(ObuType::TemporalDelimiter)
    } else if tag == 3 {
        Some(ObuType::FrameHeader)
    } else if tag == 4 {
        Some(ObuType::TileGroup)
    } else if tag == 5 {
        Some(ObuType::MetaData)
    } else if tag == 6 {
        Some(ObuType::Frame)
    } else if tag == 7 {
        Some(ObuType::RedundantFrameHeader)
    } else if tag == 8 {
        Some(ObuType::TileList)
    } else if tag == 15 {
        Some(ObuType::Padding)
    } else {
        None
    }
}

impl ObuType {
    /// Maps a raw four-bit tag to its OBU kind; reserved tags fail.
    pub fn from_u8(value: u8) -> (r: Result<ObuType, DecodeError>)
        ensures
            match obu_type_from_tag(value as nat) {
                Some(t) => r == Ok::<ObuType, DecodeError>(t),
                None => r == Err::<ObuType, DecodeError>(DecodeError::MalformedBitstream),
            },
    {
        match value {
            1 => Ok(ObuType::SequenceHeader),
            2 => Ok(ObuType::TemporalDelimiter),
            3 => Ok(ObuType::FrameHeader),
            4 => Ok(ObuType::TileGroup),
            5 => Ok(ObuType::MetaData),
            6 => Ok(ObuType::Frame),
            7 => Ok(ObuType::RedundantFrameHeader),
            8 => Ok(ObuType::TileList),
            15 => Ok(ObuType::Padding),
            _ => Err(DecodeError::MalformedBitstream),
        }
    }
}

/// One parsed OBU header.  Ephemeral: produced by `parse`, consumed at
/// once to locate the OBU payload, never persisted.
#[derive(Clone, Copy, Debug, PartialEq, Eq)]
pub struct ObuHeader {
    /// The OBU kind the four-bit tag named.
    pub ty: ObuType,
    /// The declared payload size in bytes, present iff the has-size
    /// flag was set; absent means the payload runs to the end of the
    /// buffer the caller tracks.
    pub size: Option<u64>,
    /// Temporal layer id, 0 when no extension byte is present.
    pub temporal_id: u8,
    /// Spatial layer id, 0 when no extension byte is present.
    pub spatial_id: u8,
}

/// What parsing an OBU header at the start of `bytes` yields: the
/// header and the byte offset at which the payload starts, or nothing
/// when the header is malformed or truncated.
pub open spec fn obu_header_spec(bytes: Seq<u8>) -> Option<(ObuHeader, int)> {
    if bit_len(bytes) < 8 {
        None
    } else if bit_at(bytes, 0) {
        None
    } else {
        match obu_type_from_tag(bits_value(bytes, 1, 4)) {
            None => None,
            Some(ty) => {
                let ext = bit_at(bytes, 5);
                let has_size = bit_at(bytes, 6);
                let hdr_end: int = if ext {
                    16
                } else {
                    8
                };
                if bit_len(bytes) < hdr_end {
                    None
                } else {
                    let temporal_id: u8 = if ext {
                        bits_value(bytes, 8, 3) as u8
                    } else {
                        0u8
                    };
                    let spatial_id: u8 = if ext {
                        bits_value(bytes, 11, 2) as u8
                    } else {
                        0u8
                    };
                    if has_size {
                        let k = leb_count(bytes, hdr_end, 8);
                        if hdr_end + 8 * k <= bit_len(bytes) && leb_terminated(bytes, hdr_end, 8) {
                            Some(
                                (
                                    ObuHeader {
                                        ty,
                                        size: Some(leb_value(bytes, hdr_end, 8) as u64),
                                        temporal_id,
                                        spatial_id,
                                    },
                                    hdr_end / 8 + k,
                                ),
                            )
                        } else {
                            None
                        }
                    } else {
                        Some((ObuHeader { ty, size: None, temporal_id, spatial_id }, hdr_end / 8))
                    }
                }
            },
        }
    }
}

/// A parsed header consumes at least one byte and never more than the
/// buffer holds.
pub proof fn lemma_obu_header_len(bytes: Seq<u8>)
    ensures
        obu_header_spec(bytes) matches Some(hl) ==> 1 <= hl.1 <= bytes.len(),
{
}

impl ObuHeader {
    /// Parses one OBU header at the start of `bytes` and returns it
    /// with the byte offset at which the payload starts.  The
    /// forbidden bit, a reserved type tag, a truncated buffer and an
    /// unterminated size are each a decode error.
    pub fn parse(bytes: &[u8]) -> (r: Result<(ObuHeader, usize), DecodeError>)
        requires
            fits_bits(bytes@),
        ensures
            match obu_header_spec(bytes@) {
                Some(hl) => r == Ok::<(ObuHeader, usize), DecodeError>((hl.0, hl.1 as usize)),
                None => r == Err::<(ObuHeader, usize), DecodeError>(
                    DecodeError::MalformedBitstream,
                ),
            },
    {
        let mut cur = BitCursor::new(bytes);
        let forbidden = match cur.next_flag() {
            Ok(b) => b,
            Err(e) => {
                return Err(e);
            },
        };
        if forbidden {
            return Err(DecodeError::MalformedBitstream);
        }
        let tag = match cur.load_u8(4) {
            Ok(v) => v,
            Err(e) => {
                return Err(e);
            },
        };
        proof {
            lemma_bits_value_bound(bytes@, 1, 4);
            lemma_pow2_values();
        }
        let ty = match ObuType::from_u8(tag) {
            Ok(t) => t,
            Err(e) => {
                return Err(e);
            },
        };
        let ext = match cur.next_flag() {
            Ok(b) => b,
            Err(e) => {
                return Err(e);
            },
        };
        let has_size = match cur.next_flag() {
            Ok(b) => b,
            Err(e) => {
                return Err(e);
            },
        };
        match cur.skip(1) {
            Ok(u) => u,
            Err(e) => {
                return Err(e);
            },
        };
        let (temporal_id, spatial_id) = if ext {
            let t = match cur.load_u8(3) {
                Ok(v) => v,
                Err(e) => {
                    return Err(e);
                },
            };
            let s = match cur.load_u8(2) {
                Ok(v) => v,
                Err(e) => {
                    return Err(e);
                },
            };
            match cur.skip(3) {
                Ok(u) => u,
                Err(e) => {
                    return Err(e);
                },
            };
            (t, s)
        } else {
            (0u8, 0u8)
        };
        let size: Option<u64> = if has_size {
            match cur.leb128() {
                Ok(v) => Some(v),
                Err(e) => {
                    return Err(e);
                },
            }
        } else {
            None
        };
        let offset = cur.cursor_position() / 8;
        Ok((ObuHeader { ty, size, temporal_id, spatial_id }, offset))
    }
}

} // verus!
