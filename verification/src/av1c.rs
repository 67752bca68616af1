//! The codec-configuration record.
//!
//! A record is a five-byte bit-packed header carrying the essential
//! Sequence Header parameters, followed by the verbatim configuration
//! OBU bytes.  Building from OBU bytes validates that exactly one
//! Sequence Header OBU is found and decodes it; decoding a serialized
//! record trusts the stored bytes after checking the marker bit and
//! the version, and a consistency check can re-derive the fields from
//! the stored OBUs at any time.

use vstd::prelude::*;
use vstd::slice::slice_subrange;

use crate::bits::BitCursor;
use crate::bits::BitWriter;
use crate::bits::bit_at;
use crate::bits::bits_value;
use crate::bits::fits_bits;
use crate::bits::lemma_bit_at_prefix;
use crate::bits::lemma_bits_value_bound;
use crate::bits::lemma_bits_value_congruent;
use crate::bits::lemma_pow2_values;
use crate::error::DecodeError;
use crate::obu::ObuHeader;
use crate::obu::ObuType;
use crate::obu::lemma_obu_header_len;
use crate::obu::obu_header_spec;
use crate::seq_header::SequenceHeaderFields;
use crate::seq_header::seq_header_spec;

verus! {

/// The mathematical view of a codec-configuration record.
#[verifier::ext_equal]
pub ghost struct RecordV {
    pub version: u8,
    pub seq_profile: u8,
    pub seq_level_idx_0: u8,
    pub seq_tier_0: bool,
    pub high_bitdepth: bool,
    pub twelve_bit: bool,
    pub monochrome: bool,
    pub chroma_subsampling_x: bool,
    pub chroma_subsampling_y: bool,
    pub chroma_sample_position: u8,
    pub config_obus: Seq<u8>,
}

impl RecordV {
    /// Field-width invariants: the version is always 1, and each
    /// packed field fits its bit width.
    pub open spec fn wf(self) -> bool {
        &&& self.version == 1
        &&& self.seq_profile <= 7
        &&& self.seq_level_idx_0 <= 31
        &&& self.chroma_sample_position <= 3
    }
}

/// Where the first Sequence Header OBU's payload lies in `bytes`,
/// scanning OBU by OBU from `pos`: an OBU with an explicit size is
/// followed by the next one right after that many payload bytes; one
/// without a size ends the buffer.
pub open spec fn find_seq_payload(bytes: Seq<u8>, pos: int) -> Result<(int, int), DecodeError>
    decreases bytes.len() - pos,
{
    if pos < 0 || pos >= bytes.len() {
        Err(DecodeError::MissingSequenceHeader)
    } else {
        match obu_header_spec(bytes.subrange(pos, bytes.len() as int)) {
            None => Err(DecodeError::MalformedBitstream),
            Some(hl) => {
                let pstart = pos + hl.1;
                if hl.0.ty is SequenceHeader {
                    match hl.0.size {
                        Some(sz) => {
                            if pstart + sz <= bytes.len() {
                                Ok((pstart, pstart + sz))
                            } else {
                                Err(DecodeError::SizeMismatch)
                            }
                        },
                        None => Ok((pstart, bytes.len() as int)),
                    }
                } else {
                    match hl.0.size {
                        Some(sz) => {
                            if pstart + sz <= bytes.len() {
                                find_seq_payload(bytes, pstart + sz)
                            } else {
                                Err(DecodeError::SizeMismatch)
                            }
                        },
                        None => Err(DecodeError::MissingSequenceHeader),
                    }
                }
            },
        }
    }
}

/// What building a record from raw configuration OBU bytes yields:
/// the first Sequence Header OBU's decoded parameters, the color and
/// bit-depth flags left at their defaults (the color-configuration
/// section is outside this record's scope), and the whole original
/// buffer retained verbatim.
pub open spec fn build_spec(bytes: Seq<u8>) -> Result<RecordV, DecodeError> {
    match find_seq_payload(bytes, 0) {
        Err(e) => Err(e),
        Ok(se) => match seq_header_spec(bytes.subrange(se.0, se.1)) {
            None => Err(DecodeError::MalformedBitstream),
            Some(f) => Ok(
                RecordV {
                    version: 1,
                    seq_profile: f.seq_profile,
                    seq_level_idx_0: f.seq_level_idx_0,
                    seq_tier_0: f.seq_tier_0,
                    high_bitdepth: false,
                    twelve_bit: false,
                    monochrome: false,
                    chroma_subsampling_x: false,
                    chroma_subsampling_y: false,
                    chroma_sample_position: 0,
                    config_obus: bytes,
                },
            ),
        },
    }
}

/// The five-byte header layout, bit by bit: the set marker, the
/// seven-bit version, three profile bits, five level bits, six single
/// flags, two chroma-sample-position bits, and sixteen reserved zero
/// bits.
pub open spec fn header_bits_ok(b: Seq<u8>, v: RecordV) -> bool {
    &&& b.len() >= 5
    &&& bit_at(b, 0)
    &&& bits_value(b, 1, 7) == v.version
    &&& bits_value(b, 8, 3) == v.seq_profile
    &&& bits_value(b, 11, 5) == v.seq_level_idx_0
    &&& bit_at(b, 16) == v.seq_tier_0
    &&& bit_at(b, 17) == v.high_bitdepth
    &&& bit_at(b, 18) == v.twelve_bit
    &&& bit_at(b, 19) == v.monochrome
    &&& bit_at(b, 20) == v.chroma_subsampling_x
    &&& bit_at(b, 21) == v.chroma_subsampling_y
    &&& bits_value(b, 22, 2) == v.chroma_sample_position
    &&& forall|i: int| 24 <= i < 40 ==> !bit_at(b, i)
}

/// What decoding a serialized record yields: the header unpacked bit
/// for bit after the marker and version checks, and the remainder of
/// the buffer taken verbatim as configuration OBU bytes.
pub open spec fn decode_spec(bytes: Seq<u8>) -> Result<RecordV, DecodeError> {
    if bytes.len() < 5 {
        Err(DecodeError::MalformedBitstream)
    } else if !bit_at(bytes, 0) {
        Err(DecodeError::MalformedBitstream)
    } else if bits_value(bytes, 1, 7) != 1 {
        Err(DecodeError::VersionMismatch)
    } else {
        Ok(
            RecordV {
                version: 1,
                seq_profile: bits_value(bytes, 8, 3) as u8,
                seq_level_idx_0: bits_value(bytes, 11, 5) as u8,
                seq_tier_0: bit_at(bytes, 16),
                high_bitdepth: bit_at(bytes, 17),
                twelve_bit: bit_at(bytes, 18),
                monochrome: bit_at(bytes, 19),
                chroma_subsampling_x: bit_at(bytes, 20),
                chroma_subsampling_y: bit_at(bytes, 21),
                chroma_sample_position: bits_value(bytes, 22, 2) as u8,
                config_obus: bytes.subrange(5, bytes.len() as int),
            },
        )
    }
}

/// Round trip: any buffer laid out as the encoding of a well-formed
/// record decodes back to that record, field for field, with the
/// configuration OBU bytes intact.
pub proof fn lemma_round_trip(v: RecordV, b: Seq<u8>)
    requires
        v.wf(),
        b.len() == 5 + v.config_obus.len(),
        header_bits_ok(b, v),
        b.subrange(5, b.len() as int) == v.config_obus,
    ensures
        decode_spec(b) == Ok::<RecordV, DecodeError>(v),
{
    lemma_pow2_values();
    lemma_bits_value_bound(b, 8, 3);
    lemma_bits_value_bound(b, 11, 5);
    lemma_bits_value_bound(b, 22, 2);
    assert(decode_spec(b)->Ok_0 =~= v);
}

/// A header laid down in a five-byte buffer survives unchanged in any
/// longer buffer that starts with the same five bytes.
proof fn lemma_header_bits_transfer(a: Seq<u8>, b: Seq<u8>, v: RecordV)
    requires
        header_bits_ok(a, v),
        b.len() >= 5,
        forall|i: int| 0 <= i < 5 ==> a[i] == b[i],
    ensures
        header_bits_ok(b, v),
{
    assert forall|i: int| 0 <= i < 40 implies bit_at(b, i) == bit_at(a, i) by {
        lemma_bit_at_prefix(a, b, 5, i);
    }
    lemma_bits_value_congruent(b, a, 1, 7);
    lemma_bits_value_congruent(b, a, 8, 3);
    lemma_bits_value_congruent(b, a, 11, 5);
    lemma_bits_value_congruent(b, a, 22, 2);
}

/// Copies the byte range `[start, end)` of a slice into a fresh
/// vector.
fn copy_range(bytes: &[u8], start: usize, end: usize) -> (r: Vec<u8>)
    requires
        start <= end <= bytes@.len(),
    ensures
        r@ == bytes@.subrange(start as int, end as int),
{
    let mut out: Vec<u8> = Vec::new();
    let mut i: usize = start;
    while i < end
        invariant
            start <= i <= end <= bytes@.len(),
            out@ == bytes@.subrange(start as int, i as int),
        decreases end - i,
    {
        let b = bytes[i];
        out.push(b);
        i = i + 1;
        proof {
            assert(out@ =~= bytes@.subrange(start as int, i as int));
        }
    }
    out
}

/// The persisted codec-configuration record: the unpacked five-byte
/// header fields plus the configuration OBU bytes it exclusively
/// owns.  Immutable once constructed: a field edit means building a
/// new record.
#[derive(Debug, Clone, PartialEq, Eq)]
pub struct Av1CBox {
    /// Record layout version; always 1.
    pub version: u8,
    /// Coding profile copied from the Sequence Header.
    pub seq_profile: u8,
    /// Level index of operating point 0.
    pub seq_level_idx_0: u8,
    /// Tier of operating point 0.
    pub seq_tier_0: bool,
    /// High bit-depth flag.
    pub high_bitdepth: bool,
    /// Twelve-bit flag.
    pub twelve_bit: bool,
    /// Monochrome flag.
    pub monochrome: bool,
    /// Horizontal chroma subsampling flag.
    pub chroma_subsampling_x: bool,
    /// Vertical chroma subsampling flag.
    pub chroma_subsampling_y: bool,
    /// Chroma sample position, two bits.
    pub chroma_sample_position: u8,
    /// The configuration OBU bytes, owned verbatim.
    pub config_obus: Vec<u8>,
}

impl View for Av1CBox {
    type V = RecordV;

    open spec fn view(&self) -> RecordV {
        RecordV {
            version: self.version,
            seq_profile: self.seq_profile,
            seq_level_idx_0: self.seq_level_idx_0,
            seq_tier_0: self.seq_tier_0,
            high_bitdepth: self.high_bitdepth,
            twelve_bit: self.twelve_bit,
            monochrome: self.monochrome,
            chroma_subsampling_x: self.chroma_subsampling_x,
            chroma_subsampling_y: self.chroma_subsampling_y,
            chroma_sample_position: self.chroma_sample_position,
            config_obus: self.config_obus@,
        }
    }
}

impl Av1CBox {
    /// Builds a record from raw configuration OBU bytes: scans OBU by
    /// OBU, decodes the first Sequence Header OBU found, and retains
    /// the whole buffer verbatim.  A buffer without a Sequence Header
    /// OBU is a build error, as is a declared size that overruns the
    /// buffer.
    pub fn new(config_obus: &[u8]) -> (r: Result<Av1CBox, DecodeError>)
        requires
            fits_bits(config_obus@),
        ensures
            match build_spec(config_obus@) {
                Ok(v) => r matches Ok(rec) && rec@ == v,
                Err(e) => r matches Err(e2) && e2 == e,
            },
            r matches Ok(rec) ==> rec@.wf() && rec@.seq_profile <= 2,
    {
        let len = config_obus.len();
        let mut pos: usize = 0;
        loop
            invariant
                pos <= len,
                len == config_obus@.len(),
                fits_bits(config_obus@),
                find_seq_payload(config_obus@, pos as int) == find_seq_payload(config_obus@, 0),
            decreases len - pos,
        {
            if pos >= len {
                return Err(DecodeError::MissingSequenceHeader);
            }
            let sub = slice_subrange(config_obus, pos, len);
            let (h, hlen) = match ObuHeader::parse(sub) {
                Ok(v) => v,
                Err(e) => {
                    return Err(e);
                },
            };
            proof {
                lemma_obu_header_len(sub@);
            }
            let pstart = pos + hlen;
            let is_seq = matches!(h.ty, ObuType::SequenceHeader);
            if is_seq {
                let pend: usize = match h.size {
                    Some(sz) => {
                        if sz <= (len - pstart) as u64 {
                            pstart + sz as usize
                        } else {
                            return Err(DecodeError::SizeMismatch);
                        }
                    },
                    None => len,
                };
                let payload = copy_range(config_obus, pstart, pend);
                let fields = match SequenceHeaderFields::parse(payload.as_slice()) {
                    Ok(f) => f,
                    Err(e) => {
                        return Err(e);
                    },
                };
                let rec = Av1CBox {
                    version: 1,
                    seq_profile: fields.seq_profile,
                    seq_level_idx_0: fields.seq_level_idx_0,
                    seq_tier_0: fields.seq_tier_0,
                    high_bitdepth: false,
                    twelve_bit: false,
                    monochrome: false,
                    chroma_subsampling_x: false,
                    chroma_subsampling_y: false,
                    chroma_sample_position: 0,
                    config_obus: copy_range(config_obus, 0, len),
                };
                proof {
                    assert(rec@ =~= build_spec(config_obus@)->Ok_0);
                }
                return Ok(rec);
            } else {
                match h.size {
                    Some(sz) => {
                        if sz <= (len - pstart) as u64 {
                            pos = pstart + sz as usize;
                        } else {
                            return Err(DecodeError::SizeMismatch);
                        }
                    },
                    None => {
                        return Err(DecodeError::MissingSequenceHeader);
                    },
                }
            }
        }
    }

    /// Encodes the record: the five-byte bit-packed header followed
    /// by the verbatim configuration OBU bytes, with no padding.  The
    /// first bit of any encoding is the set marker bit.
    pub fn encode(&self) -> (r: Vec<u8>)
        requires
            self@.wf(),
        ensures
            r@.len() == 5 + self@.config_obus.len(),
            header_bits_ok(r@, self@),
            bit_at(r@, 0),
            r@.subrange(5, r@.len() as int) == self@.config_obus,
    {
        proof {
            lemma_pow2_values();
        }
        let mut w = BitWriter::new(5);
        w.store_flag(true);
        w.store_bits(7, self.version);
        let ghost s_ver = w.buf();
        w.store_bits(3, self.seq_profile);
        let ghost s_prof = w.buf();
        w.store_bits(5, self.seq_level_idx_0);
        let ghost s_lvl = w.buf();
        w.store_flag(self.seq_tier_0);
        w.store_flag(self.high_bitdepth);
        w.store_flag(self.twelve_bit);
        w.store_flag(self.monochrome);
        w.store_flag(self.chroma_subsampling_x);
        w.store_flag(self.chroma_subsampling_y);
        w.store_bits(2, self.chroma_sample_position);
        let ghost s_fin = w.buf();
        proof {
            lemma_bits_value_congruent(s_fin, s_ver, 1, 7);
            lemma_bits_value_congruent(s_fin, s_prof, 8, 3);
            lemma_bits_value_congruent(s_fin, s_lvl, 11, 5);
            assert(header_bits_ok(s_fin, self@));
        }
        let mut out = w.into_vec();
        let mut i: usize = 0;
        while i < self.config_obus.len()
            invariant
                i <= self.config_obus.len(),
                out@.len() == 5 + i,
                out@ == s_fin + self.config_obus@.subrange(0, i as int),
                s_fin.len() == 5,
            decreases self.config_obus.len() - i,
        {
            let b = self.config_obus[i];
            out.push(b);
            i = i + 1;
            proof {
                assert(out@ =~= s_fin + self.config_obus@.subrange(0, i as int));
            }
        }
        proof {
            assert(self.config_obus@.subrange(0, self.config_obus@.len() as int) =~= self
                .config_obus@);
            lemma_header_bits_transfer(s_fin, out@, self@);
            assert(out@.subrange(5, out@.len() as int) =~= self@.config_obus);
        }
        out
    }

    /// Decodes a serialized record: checks the marker bit, requires
    /// version 1, unpacks the header bit for bit, and takes the
    /// remainder of the buffer verbatim as configuration OBU bytes.
    /// A cleared first bit is a malformed record; any version other
    /// than 1 is incompatible rather than guessed at.
    pub fn decode(bytes: &[u8]) -> (r: Result<Av1CBox, DecodeError>)
        requires
            fits_bits(bytes@),
        ensures
            match decode_spec(bytes@) {
                Ok(v) => r matches Ok(rec) && rec@ == v,
                Err(e) => r matches Err(e2) && e2 == e,
            },
    {
        if bytes.len() < 5 {
            return Err(DecodeError::MalformedBitstream);
        }
        let mut cur = BitCursor::new(bytes);
        let marker = match cur.next_flag() {
            Ok(v) => v,
            Err(e) => {
                return Err(e);
            },
        };
        if !marker {
            return Err(DecodeError::MalformedBitstream);
        }
        let version = match cur.load_u8(7) {
            Ok(v) => v,
            Err(e) => {
                return Err(e);
            },
        };
        proof {
            lemma_pow2_values();
            lemma_bits_value_bound(bytes@, 1, 7);
        }
        if version != 1 {
            return Err(DecodeError::VersionMismatch);
        }
        let seq_profile = match cur.load_u8(3) {
            Ok(v) => v,
            Err(e) => {
                return Err(e);
            },
        };
        let seq_level_idx_0 = match cur.load_u8(5) {
            Ok(v) => v,
            Err(e) => {
                return Err(e);
            },
        };
        let seq_tier_0 = match cur.next_flag() {
            Ok(v) => v,
            Err(e) => {
                return Err(e);
            },
        };
        let high_bitdepth = match cur.next_flag() {
            Ok(v) => v,
            Err(e) => {
                return Err(e);
            },
        };
        let twelve_bit = match cur.next_flag() {
            Ok(v) => v,
            Err(e) => {
                return Err(e);
            },
        };
        let monochrome = match cur.next_flag() {
            Ok(v) => v,
            Err(e) => {
                return Err(e);
            },
        };
        let chroma_subsampling_x = match cur.next_flag() {
            Ok(v) => v,
            Err(e) => {
                return Err(e);
            },
        };
        let chroma_subsampling_y = match cur.next_flag() {
            Ok(v) => v,
            Err(e) => {
                return Err(e);
            },
        };
        let chroma_sample_position = match cur.load_u8(2) {
            Ok(v) => v,
            Err(e) => {
                return Err(e);
            },
        };
        let config_obus = copy_range(bytes, 5, bytes.len());
        let rec = Av1CBox {
            version,
            seq_profile,
            seq_level_idx_0,
            seq_tier_0,
            high_bitdepth,
            twelve_bit,
            monochrome,
            chroma_subsampling_x,
            chroma_subsampling_y,
            chroma_sample_position,
            config_obus,
        };
        proof {
            assert(rec@ =~= decode_spec(bytes@)->Ok_0);
        }
        Ok(rec)
    }

    /// Total box byte size as the container layer sees it: the
    /// generic eight-byte box header, the five-byte record header,
    /// and the configuration OBU bytes.  Computed, never stored.
    pub fn box_size(&self) -> (r: u64)
        requires
            self@.config_obus.len() + 13 <= u64::MAX,
        ensures
            r == 13 + self@.config_obus.len(),
    {
        8 + 5 + self.config_obus.len() as u64
    }

    /// Re-derives profile, level and tier from the stored
    /// configuration OBUs and compares them with the header fields,
    /// so a decoded record can be cross-checked against its own OBU
    /// bytes rather than trusted blindly.
    pub fn check_consistency(&self) -> (r: Result<(), DecodeError>)
        requires
            fits_bits(self@.config_obus),
        ensures
            match build_spec(self@.config_obus) {
                Err(e) => r == Err::<(), DecodeError>(e),
                Ok(v) => {
                    if v.seq_profile == self@.seq_profile && v.seq_level_idx_0
                        == self@.seq_level_idx_0 && v.seq_tier_0 == self@.seq_tier_0 {
                        r == Ok::<(), DecodeError>(())
                    } else {
                        r == Err::<(), DecodeError>(DecodeError::MalformedBitstream)
                    }
                },
            },
    {
        let rebuilt = match Av1CBox::new(self.config_obus.as_slice()) {
            Ok(v) => v,
            Err(e) => {
                return Err(e);
            },
        };
        if rebuilt.seq_profile == self.seq_profile && rebuilt.seq_level_idx_0
            == self.seq_level_idx_0 && rebuilt.seq_tier_0 == self.seq_tier_0 {
            Ok(())
        } else {
            Err(DecodeError::MalformedBitstream)
        }
    }
}

} // verus!
