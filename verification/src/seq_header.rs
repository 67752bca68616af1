//! The conditional field grammar of a Sequence Header OBU payload.
//!
//! Each decoding step consumes exactly the bits the AV1 bitstream
//! grammar assigns it; fields the codec-configuration record does not
//! need are consumed but not retained, so the cursor stays correctly
//! positioned through every flag-gated branch.  Decoding stops at the
//! color-configuration boundary: nothing past it is needed here.

use vstd::prelude::*;

use crate::bits::BitCursor;
use crate::bits::bit_at;
use crate::bits::bit_len;
use crate::bits::bits_value;
use crate::bits::fits_bits;
use crate::bits::leading_zero_bits;
use crate::bits::lemma_bits_value_bound;
use crate::bits::lemma_pow2_values;
use crate::error::DecodeError;

verus! {

/// The decoded values a codec-configuration record needs from one
/// Sequence Header OBU, plus the tooling flags read on the way.
#[derive(Clone, Copy, Debug, PartialEq, Eq, Structural)]
pub struct SequenceHeaderFields {
    /// Coding profile, 0 to 2; the remaining three-bit values are
    /// reserved and rejected.
    pub seq_profile: u8,
    /// Whether the abbreviated still-picture grammar was used.
    pub reduced_still_picture_header: bool,
    /// Level index of operating point 0, five bits.
    pub seq_level_idx_0: u8,
    /// Tier of operating point 0; forced false when the level index is
    /// 7 or lower, where the grammar carries no tier bit.
    pub seq_tier_0: bool,
    /// Width of the frame-width field, 1 to 16 bits.
    pub frame_width_bits: u8,
    /// Width of the frame-height field, 1 to 16 bits.
    pub frame_height_bits: u8,
    /// Whether order hints are coded.
    pub enable_order_hint: bool,
    /// Number of order-hint bits, 0 when order hints are off.
    pub order_hint_bits: u8,
    /// 0, 1, or 2 (2 meaning each frame chooses for itself).
    pub seq_force_screen_content_tools: u8,
    /// 0, 1, or 2 (2 meaning each frame chooses for itself).
    pub seq_force_integer_mv: u8,
    /// Whether super-resolution is enabled.
    pub enable_superres: bool,
    /// Whether CDEF filtering is enabled.
    pub enable_cdef: bool,
    /// Whether loop restoration is enabled.
    pub enable_restoration: bool,
}

/// Timing info and decoder-model info, both flag-gated: yields the
/// decoder-model presence flag, the buffer-delay length (minus one)
/// and the position after the whole section.
pub open spec fn timing_model_spec(bytes: Seq<u8>, pos: int) -> Option<(bool, u8, int)> {
    if pos + 1 > bit_len(bytes) {
        None
    } else {
        let timing = bit_at(bytes, pos);
        let p1 = pos + 1;
        if !timing {
            Some((false, 0u8, p1))
        } else if p1 + 65 > bit_len(bytes) {
            None
        } else {
            let p2 = p1 + 64;
            let epi = bit_at(bytes, p2);
            let p3 = p2 + 1;
            let after_uvlc: Option<int> = if epi {
                let k = leading_zero_bits(bytes, p3);
                if p3 + 2 * k + 1 <= bit_len(bytes) {
                    Some(p3 + 2 * k + 1)
                } else {
                    None
                }
            } else {
                Some(p3)
            };
            match after_uvlc {
                None => None,
                Some(p4) => {
                    if p4 + 1 > bit_len(bytes) {
                        None
                    } else {
                        let dm = bit_at(bytes, p4);
                        let p5 = p4 + 1;
                        if dm {
                            if p5 + 47 <= bit_len(bytes) {
                                Some((true, bits_value(bytes, p5, 5) as u8, p5 + 47))
                            } else {
                                None
                            }
                        } else {
                            Some((false, 0u8, p5))
                        }
                    }
                },
            }
        }
    }
}

/// One operating point: a 12-bit idc to skip, a 5-bit level, a tier
/// bit only when the level exceeds 7, and the flag-gated decoder-model
/// and initial-display-delay fields.  Yields level, tier and the
/// position after the entry.
pub open spec fn operating_point_spec(
    bytes: Seq<u8>,
    pos: int,
    dm: bool,
    delay_m1: u8,
    idd: bool,
) -> Option<(u8, bool, int)> {
    if pos + 17 > bit_len(bytes) {
        None
    } else {
        let level = bits_value(bytes, pos + 12, 5) as u8;
        let p1 = pos + 17;
        let tier_step: Option<(bool, int)> = if level > 7 {
            if p1 + 1 <= bit_len(bytes) {
                Some((bit_at(bytes, p1), p1 + 1))
            } else {
                None
            }
        } else {
            Some((false, p1))
        };
        match tier_step {
            None => None,
            Some((tier, p2)) => {
                match op_dm_step_spec(bytes, p2, dm, delay_m1) {
                    None => None,
                    Some(p4) => {
                        match op_idd_step_spec(bytes, p4, idd) {
                            None => None,
                            Some(p6) => Some((level, tier, p6)),
                        }
                    },
                }
            },
        }
    }
}

/// The flag-gated per-operating-point decoder-model fields: two
/// buffer delays at the declared width plus a low-delay flag.  Yields
/// the position after them.
pub open spec fn op_dm_step_spec(bytes: Seq<u8>, pos: int, dm: bool, delay_m1: u8) -> Option<
    int,
> {
    if !dm {
        Some(pos)
    } else if pos + 1 > bit_len(bytes) {
        None
    } else {
        let present = bit_at(bytes, pos);
        let p1 = pos + 1;
        if present {
            if p1 + 2 * (delay_m1 + 1) + 1 <= bit_len(bytes) {
                Some(p1 + 2 * (delay_m1 + 1) + 1)
            } else {
                None
            }
        } else {
            Some(p1)
        }
    }
}

/// The flag-gated per-operating-point initial-display-delay field.
/// Yields the position after it.
pub open spec fn op_idd_step_spec(bytes: Seq<u8>, pos: int, idd: bool) -> Option<int> {
    if !idd {
        Some(pos)
    } else if pos + 1 > bit_len(bytes) {
        None
    } else {
        let present = bit_at(bytes, pos);
        let p1 = pos + 1;
        if present {
            if p1 + 4 <= bit_len(bytes) {
                Some(p1 + 4)
            } else {
                None
            }
        } else {
            Some(p1)
        }
    }
}

/// The operating points after the first: their values are consumed
/// only to keep the cursor positioned.  Yields the position after the
/// last entry.
pub open spec fn operating_points_rest_spec(
    bytes: Seq<u8>,
    pos: int,
    count: nat,
    dm: bool,
    delay_m1: u8,
    idd: bool,
) -> Option<int>
    decreases count,
{
    if count == 0 {
        Some(pos)
    } else {
        match operating_point_spec(bytes, pos, dm, delay_m1, idd) {
            None => None,
            Some(v) => operating_points_rest_spec(
                bytes,
                v.2,
                (count - 1) as nat,
                dm,
                delay_m1,
                idd,
            ),
        }
    }
}

/// The whole non-reduced preamble: timing and decoder-model info, the
/// initial-display-delay flag, the operating-point count, and every
/// operating point.  Yields operating point 0's level and tier and
/// the position after the loop.
pub open spec fn operating_points_spec(bytes: Seq<u8>, pos: int) -> Option<(u8, bool, int)> {
    match timing_model_spec(bytes, pos) {
        None => None,
        Some(tm) => {
            let dm = tm.0;
            let delay_m1 = tm.1;
            let p = tm.2;
            if p + 6 > bit_len(bytes) {
                None
            } else {
                let idd = bit_at(bytes, p);
                let cnt = bits_value(bytes, p + 1, 5);
                let p1 = p + 6;
                match operating_point_spec(bytes, p1, dm, delay_m1, idd) {
                    None => None,
                    Some(op0) => {
                        match operating_points_rest_spec(bytes, op0.2, cnt, dm, delay_m1, idd) {
                            None => None,
                            Some(p2) => Some((op0.0, op0.1, p2)),
                        }
                    },
                }
            }
        },
    }
}

/// The two 4-bit frame-dimension widths, then the width and height
/// values themselves, consumed at their declared widths.  Yields both
/// widths (plus one) and the position after the values.
pub open spec fn frame_size_spec(bytes: Seq<u8>, pos: int) -> Option<(u8, u8, int)> {
    if pos + 8 > bit_len(bytes) {
        None
    } else {
        let wb = (bits_value(bytes, pos, 4) + 1) as u8;
        let hb = (bits_value(bytes, pos + 4, 4) + 1) as u8;
        let p1 = pos + 8;
        if p1 + wb + hb <= bit_len(bytes) {
            Some((wb, hb, p1 + wb + hb))
        } else {
            None
        }
    }
}

/// The non-reduced tooling section: four fixed flags to skip, the
/// order-hint group, and the nested choose-versus-force screen content
/// pattern.  Yields order-hint enable, order-hint bit count, the two
/// force values, and the position after the section.
pub open spec fn tools_spec(bytes: Seq<u8>, pos: int) -> Option<(bool, u8, u8, u8, int)> {
    if pos + 5 > bit_len(bytes) {
        None
    } else {
        let eoh = bit_at(bytes, pos + 4);
        let p1 = pos + 5;
        let jnt_step: Option<int> = if eoh {
            if p1 + 2 <= bit_len(bytes) {
                Some(p1 + 2)
            } else {
                None
            }
        } else {
            Some(p1)
        };
        match jnt_step {
            None => None,
            Some(p2) => {
                if p2 + 1 > bit_len(bytes) {
                    None
                } else {
                    let choose_sct = bit_at(bytes, p2);
                    let p3 = p2 + 1;
                    let sct_step: Option<(u8, int)> = if choose_sct {
                        Some((2u8, p3))
                    } else if p3 + 1 <= bit_len(bytes) {
                        Some(
                            (
                                if bit_at(bytes, p3) {
                                    1u8
                                } else {
                                    0u8
                                },
                                p3 + 1,
                            ),
                        )
                    } else {
                        None
                    };
                    match sct_step {
                        None => None,
                        Some((fsct, p4)) => {
                            let imv_step: Option<(u8, int)> = if fsct != 0 {
                                if p4 + 1 > bit_len(bytes) {
                                    None
                                } else {
                                    let choose_imv = bit_at(bytes, p4);
                                    let p5 = p4 + 1;
                                    if choose_imv {
                                        Some((2u8, p5))
                                    } else if p5 + 1 <= bit_len(bytes) {
                                        Some(
                                            (
                                                if bit_at(bytes, p5) {
                                                    1u8
                                                } else {
                                                    0u8
                                                },
                                                p5 + 1,
                                            ),
                                        )
                                    } else {
                                        None
                                    }
                                }
                            } else {
                                Some((2u8, p4))
                            };
                            match imv_step {
                                None => None,
                                Some((fimv, p6)) => {
                                    let oh_step: Option<(u8, int)> = if eoh {
                                        if p6 + 3 <= bit_len(bytes) {
                                            Some(((bits_value(bytes, p6, 3) + 1) as u8, p6 + 3))
                                        } else {
                                            None
                                        }
                                    } else {
                                        Some((0u8, p6))
                                    };
                                    match oh_step {
                                        None => None,
                                        Some((ohb, p7)) => Some((eoh, ohb, fsct, fimv, p7)),
                                    }
                                },
                            }
                        },
                    }
                }
            },
        }
    }
}

/// What decoding a whole Sequence Header OBU payload yields, or
/// nothing when the payload is malformed, truncated, or declares a
/// reserved profile.
pub open spec fn seq_header_spec(bytes: Seq<u8>) -> Option<SequenceHeaderFields> {
    if bit_len(bytes) < 5 {
        None
    } else {
        let profile = bits_value(bytes, 0, 3) as u8;
        if profile > 2 {
            None
        } else if bit_at(bytes, 4) {
            reduced_tail_spec(bytes, profile)
        } else {
            full_tail_spec(bytes, profile)
        }
    }
}

/// The abbreviated still-picture grammar after the profile and mode
/// bits: a bare level index, the frame dimensions, and six tooling
/// flags of which the last three are retained.
pub open spec fn reduced_tail_spec(bytes: Seq<u8>, profile: u8) -> Option<
    SequenceHeaderFields,
> {
    if bit_len(bytes) < 10 {
        None
    } else {
        let level = bits_value(bytes, 5, 5) as u8;
        match frame_size_spec(bytes, 10) {
            None => None,
            Some(fs) => {
                if fs.2 + 6 > bit_len(bytes) {
                    None
                } else {
                    let p = fs.2 + 3;
                    Some(
                        SequenceHeaderFields {
                            seq_profile: profile,
                            reduced_still_picture_header: true,
                            seq_level_idx_0: level,
                            seq_tier_0: false,
                            frame_width_bits: fs.0,
                            frame_height_bits: fs.1,
                            enable_order_hint: false,
                            order_hint_bits: 0,
                            seq_force_screen_content_tools: 2,
                            seq_force_integer_mv: 2,
                            enable_superres: bit_at(bytes, p),
                            enable_cdef: bit_at(bytes, p + 1),
                            enable_restoration: bit_at(bytes, p + 2),
                        },
                    )
                }
            },
        }
    }
}

/// The full grammar after the profile and mode bits: the operating
/// point loop, frame dimensions, frame-id and tooling sections.
pub open spec fn full_tail_spec(bytes: Seq<u8>, profile: u8) -> Option<SequenceHeaderFields> {
    match operating_points_spec(bytes, 5) {
        None => None,
        Some(ops) => {
            match frame_size_spec(bytes, ops.2) {
                None => None,
                Some(fs) => {
                    if fs.2 + 1 > bit_len(bytes) {
                        None
                    } else {
                        let fid = bit_at(bytes, fs.2);
                        let pa = fs.2 + 1;
                        let fid_step: Option<int> = if fid {
                            if pa + 7 <= bit_len(bytes) {
                                Some(pa + 7)
                            } else {
                                None
                            }
                        } else {
                            Some(pa)
                        };
                        match fid_step {
                            None => None,
                            Some(pb) => {
                                if pb + 3 > bit_len(bytes) {
                                    None
                                } else {
                                    match tools_spec(bytes, pb + 3) {
                                        None => None,
                                        Some(ts) => {
                                            if ts.4 + 3 > bit_len(bytes) {
                                                None
                                            } else {
                                                Some(
                                                    SequenceHeaderFields {
                                                        seq_profile: profile,
                                                        reduced_still_picture_header: false,
                                                        seq_level_idx_0: ops.0,
                                                        seq_tier_0: ops.1,
                                                        frame_width_bits: fs.0,
                                                        frame_height_bits: fs.1,
                                                        enable_order_hint: ts.0,
                                                        order_hint_bits: ts.1,
                                                        seq_force_screen_content_tools: ts.2,
                                                        seq_force_integer_mv: ts.3,
                                                        enable_superres: bit_at(bytes, ts.4),
                                                        enable_cdef: bit_at(bytes, ts.4 + 1),
                                                        enable_restoration: bit_at(
                                                            bytes,
                                                            ts.4 + 2,
                                                        ),
                                                    },
                                                )
                                            }
                                        },
                                    }
                                }
                            },
                        }
                    }
                },
            }
        },
    }
}

/// Decodes the flag-gated timing and decoder-model section.
fn parse_timing_model<'a>(cur: &mut BitCursor<'a>) -> (r: Result<(bool, u8), DecodeError>)
    requires
        old(cur).wf(),
    ensures
        final(cur).wf(),
        final(cur).buf() == old(cur).buf(),
        match timing_model_spec(old(cur).buf(), old(cur).cursor()) {
            Some(v) => r == Ok::<(bool, u8), DecodeError>((v.0, v.1)) && final(cur).cursor()
                == v.2,
            None => r == Err::<(bool, u8), DecodeError>(DecodeError::MalformedBitstream),
        },
{
    let timing = match cur.next_flag() {
        Ok(v) => v,
        Err(e) => {
            return Err(e);
        },
    };
    if !timing {
        return Ok((false, 0));
    }
    match cur.skip(32) {
        Ok(u) => u,
        Err(e) => {
            return Err(e);
        },
    };
    match cur.skip(32) {
        Ok(u) => u,
        Err(e) => {
            return Err(e);
        },
    };
    let epi = match cur.next_flag() {
        Ok(v) => v,
        Err(e) => {
            return Err(e);
        },
    };
    if epi {
        match cur.uvlc_skip() {
            Ok(u) => u,
            Err(e) => {
                return Err(e);
            },
        };
    }
    let dm = match cur.next_flag() {
        Ok(v) => v,
        Err(e) => {
            return Err(e);
        },
    };
    if dm {
        let delay_m1 = match cur.load_u8(5) {
            Ok(v) => v,
            Err(e) => {
                return Err(e);
            },
        };
        match cur.skip(42) {
            Ok(u) => u,
            Err(e) => {
                return Err(e);
            },
        };
        Ok((true, delay_m1))
    } else {
        Ok((false, 0))
    }
}

/// Decodes one operating point, returning its level and tier.
#[verifier::rlimit(100)]
#[verifier::spinoff_prover]
fn parse_operating_point<'a>(
    cur: &mut BitCursor<'a>,
    dm: bool,
    delay_m1: u8,
    idd: bool,
) -> (r: Result<(u8, bool), DecodeError>)
    requires
        old(cur).wf(),
    ensures
        final(cur).wf(),
        final(cur).buf() == old(cur).buf(),
        match operating_point_spec(old(cur).buf(), old(cur).cursor(), dm, delay_m1, idd) {
            Some(v) => {
                &&& r == Ok::<(u8, bool), DecodeError>((v.0, v.1))
                &&& final(cur).cursor() == v.2
                &&& v.0 <= 31
                &&& v.0 <= 7 ==> !v.1
            },
            None => r == Err::<(u8, bool), DecodeError>(DecodeError::MalformedBitstream),
        },
{
    match cur.skip(12) {
        Ok(u) => u,
        Err(e) => {
            return Err(e);
        },
    };
    let level = match cur.load_u8(5) {
        Ok(v) => v,
        Err(e) => {
            return Err(e);
        },
    };
    proof {
        lemma_bits_value_bound(old(cur).buf(), old(cur).cursor() + 12, 5);
        lemma_pow2_values();
    }
    let tier = if level > 7 {
        match cur.next_flag() {
            Ok(v) => v,
            Err(e) => {
                return Err(e);
            },
        }
    } else {
        false
    };
    match parse_op_dm(cur, dm, delay_m1) {
        Ok(u) => u,
        Err(e) => {
            return Err(e);
        },
    };
    match parse_op_idd(cur, idd) {
        Ok(u) => u,
        Err(e) => {
            return Err(e);
        },
    };
    Ok((level, tier))
}

/// Consumes an operating point's decoder-model fields when present.
fn parse_op_dm<'a>(cur: &mut BitCursor<'a>, dm: bool, delay_m1: u8) -> (r: Result<
    (),
    DecodeError,
>)
    requires
        old(cur).wf(),
    ensures
        final(cur).wf(),
        final(cur).buf() == old(cur).buf(),
        match op_dm_step_spec(old(cur).buf(), old(cur).cursor(), dm, delay_m1) {
            Some(p) => r == Ok::<(), DecodeError>(()) && final(cur).cursor() == p,
            None => r == Err::<(), DecodeError>(DecodeError::MalformedBitstream),
        },
{
    if !dm {
        return Ok(());
    }
    let present = match cur.next_flag() {
        Ok(v) => v,
        Err(e) => {
            return Err(e);
        },
    };
    if present {
        let delay_bits: usize = delay_m1 as usize + 1;
        match cur.skip(delay_bits) {
            Ok(u) => u,
            Err(e) => {
                return Err(e);
            },
        };
        match cur.skip(delay_bits) {
            Ok(u) => u,
            Err(e) => {
                return Err(e);
            },
        };
        match cur.skip(1) {
            Ok(u) => u,
            Err(e) => {
                return Err(e);
            },
        };
    }
    Ok(())
}

/// Consumes an operating point's initial-display-delay field when
/// present.
fn parse_op_idd<'a>(cur: &mut BitCursor<'a>, idd: bool) -> (r: Result<(), DecodeError>)
    requires
        old(cur).wf(),
    ensures
        final(cur).wf(),
        final(cur).buf() == old(cur).buf(),
        match op_idd_step_spec(old(cur).buf(), old(cur).cursor(), idd) {
            Some(p) => r == Ok::<(), DecodeError>(()) && final(cur).cursor() == p,
            None => r == Err::<(), DecodeError>(DecodeError::MalformedBitstream),
        },
{
    if !idd {
        return Ok(());
    }
    let present = match cur.next_flag() {
        Ok(v) => v,
        Err(e) => {
            return Err(e);
        },
    };
    if present {
        match cur.skip(4) {
            Ok(u) => u,
            Err(e) => {
                return Err(e);
            },
        };
    }
    Ok(())
}

/// Decodes the whole operating-point loop, retaining operating point
/// 0's level and tier only; the other entries are consumed to keep
/// the cursor positioned.
fn parse_operating_points<'a>(cur: &mut BitCursor<'a>) -> (r: Result<(u8, bool), DecodeError>)
    requires
        old(cur).wf(),
    ensures
        final(cur).wf(),
        final(cur).buf() == old(cur).buf(),
        match operating_points_spec(old(cur).buf(), old(cur).cursor()) {
            Some(v) => {
                &&& r == Ok::<(u8, bool), DecodeError>((v.0, v.1))
                &&& final(cur).cursor() == v.2
                &&& v.0 <= 31
                &&& v.0 <= 7 ==> !v.1
            },
            None => r == Err::<(u8, bool), DecodeError>(DecodeError::MalformedBitstream),
        },
{
    let ghost buf = cur.buf();
    let ghost p0 = cur.cursor();
    let (dm, delay_m1) = match parse_timing_model(cur) {
        Ok(v) => v,
        Err(e) => {
            return Err(e);
        },
    };
    let idd = match cur.next_flag() {
        Ok(v) => v,
        Err(e) => {
            return Err(e);
        },
    };
    let cnt = match cur.load_u8(5) {
        Ok(v) => v,
        Err(e) => {
            return Err(e);
        },
    };
    let ghost p_tm = timing_model_spec(buf, p0)->Some_0.2;
    proof {
        lemma_bits_value_bound(buf, p_tm + 1, 5);
        lemma_pow2_values();
        assert(cnt as nat == bits_value(buf, p_tm + 1, 5));
    }
    let (level0, tier0) = match parse_operating_point(cur, dm, delay_m1, idd) {
        Ok(v) => v,
        Err(e) => {
            return Err(e);
        },
    };
    let ghost p_op0 = cur.cursor();
    proof {
        assert(operating_points_spec(buf, p0) == (
        match operating_points_rest_spec(buf, p_op0, cnt as nat, dm, delay_m1, idd) {
            None => None::<(u8, bool, int)>,
            Some(p) => Some((level0, tier0, p)),
        }));
    }
    let mut i: u8 = 0;
    while i < cnt
        invariant
            cur.wf(),
            cur.buf() == buf,
            buf == old(cur).buf(),
            p0 == old(cur).cursor(),
            i <= cnt,
            level0 <= 31,
            level0 <= 7 ==> !tier0,
            operating_points_rest_spec(buf, cur.cursor(), (cnt - i) as nat, dm, delay_m1, idd)
                == operating_points_rest_spec(buf, p_op0, cnt as nat, dm, delay_m1, idd),
            operating_points_spec(buf, p0) == (
            match operating_points_rest_spec(buf, p_op0, cnt as nat, dm, delay_m1, idd) {
                None => None::<(u8, bool, int)>,
                Some(p) => Some((level0, tier0, p)),
            }),
        decreases cnt - i,
    {
        match parse_operating_point(cur, dm, delay_m1, idd) {
            Ok(v) => v,
            Err(e) => {
                return Err(e);
            },
        };
        i = i + 1;
    }
    Ok((level0, tier0))
}

/// Decodes the frame-dimension widths and consumes the dimension
/// values at those widths.
fn parse_frame_size<'a>(cur: &mut BitCursor<'a>) -> (r: Result<(u8, u8), DecodeError>)
    requires
        old(cur).wf(),
    ensures
        final(cur).wf(),
        final(cur).buf() == old(cur).buf(),
        match frame_size_spec(old(cur).buf(), old(cur).cursor()) {
            Some(v) => {
                &&& r == Ok::<(u8, u8), DecodeError>((v.0, v.1))
                &&& final(cur).cursor() == v.2
                &&& 1 <= v.0 <= 16
                &&& 1 <= v.1 <= 16
            },
            None => r == Err::<(u8, u8), DecodeError>(DecodeError::MalformedBitstream),
        },
{
    let wm1 = match cur.load_u8(4) {
        Ok(v) => v,
        Err(e) => {
            return Err(e);
        },
    };
    let hm1 = match cur.load_u8(4) {
        Ok(v) => v,
        Err(e) => {
            return Err(e);
        },
    };
    proof {
        lemma_bits_value_bound(old(cur).buf(), old(cur).cursor(), 4);
        lemma_bits_value_bound(old(cur).buf(), old(cur).cursor() + 4, 4);
        lemma_pow2_values();
    }
    let wb: u8 = wm1 + 1;
    let hb: u8 = hm1 + 1;
    match cur.skip(wb as usize) {
        Ok(u) => u,
        Err(e) => {
            return Err(e);
        },
    };
    match cur.skip(hb as usize) {
        Ok(u) => u,
        Err(e) => {
            return Err(e);
        },
    };
    Ok((wb, hb))
}

/// Decodes the non-reduced tooling section: the order-hint group and
/// the nested choose-versus-force screen-content pattern.
#[verifier::rlimit(50)]
fn parse_tools<'a>(cur: &mut BitCursor<'a>) -> (r: Result<(bool, u8, u8, u8), DecodeError>)
    requires
        old(cur).wf(),
    ensures
        final(cur).wf(),
        final(cur).buf() == old(cur).buf(),
        match tools_spec(old(cur).buf(), old(cur).cursor()) {
            Some(v) => {
                &&& r == Ok::<(bool, u8, u8, u8), DecodeError>((v.0, v.1, v.2, v.3))
                &&& final(cur).cursor() == v.4
                &&& v.1 <= 8
                &&& !v.0 ==> v.1 == 0
                &&& v.2 <= 2
                &&& v.3 <= 2
            },
            None => r == Err::<(bool, u8, u8, u8), DecodeError>(DecodeError::MalformedBitstream),
        },
{
    match cur.skip(4) {
        Ok(u) => u,
        Err(e) => {
            return Err(e);
        },
    };
    let eoh = match cur.next_flag() {
        Ok(v) => v,
        Err(e) => {
            return Err(e);
        },
    };
    if eoh {
        match cur.skip(2) {
            Ok(u) => u,
            Err(e) => {
                return Err(e);
            },
        };
    }
    let choose_sct = match cur.next_flag() {
        Ok(v) => v,
        Err(e) => {
            return Err(e);
        },
    };
    let fsct: u8 = if choose_sct {
        2
    } else {
        let b = match cur.next_flag() {
            Ok(v) => v,
            Err(e) => {
                return Err(e);
            },
        };
        if b {
            1
        } else {
            0
        }
    };
    let fimv: u8 = if fsct != 0 {
        let choose_imv = match cur.next_flag() {
            Ok(v) => v,
            Err(e) => {
                return Err(e);
            },
        };
        if choose_imv {
            2
        } else {
            let b = match cur.next_flag() {
                Ok(v) => v,
                Err(e) => {
                    return Err(e);
                },
            };
            if b {
                1
            } else {
                0
            }
        }
    } else {
        2
    };
    let ohb: u8 = if eoh {
        let v = match cur.load_u8(3) {
            Ok(v) => v,
            Err(e) => {
                return Err(e);
            },
        };
        proof {
            lemma_bits_value_bound(cur.buf(), cur.cursor() - 3, 3);
            lemma_pow2_values();
        }
        v + 1
    } else {
        0
    };
    Ok((eoh, ohb, fsct, fimv))
}

impl SequenceHeaderFields {
    /// Range and gating invariants every decoded field set satisfies.
    pub open spec fn wf(self) -> bool {
        &&& self.seq_profile <= 2
        &&& self.seq_level_idx_0 <= 31
        &&& (self.seq_level_idx_0 <= 7 ==> !self.seq_tier_0)
        &&& (self.reduced_still_picture_header ==> !self.seq_tier_0)
        &&& 1 <= self.frame_width_bits <= 16
        &&& 1 <= self.frame_height_bits <= 16
        &&& self.order_hint_bits <= 8
        &&& (!self.enable_order_hint ==> self.order_hint_bits == 0)
        &&& self.seq_force_screen_content_tools <= 2
        &&& self.seq_force_integer_mv <= 2
    }

    /// Decodes the byte payload of one Sequence Header OBU: exactly
    /// the OBU's data bytes, after outer framing has been stripped.
    ///
    /// A level index of 7 or lower never carries a tier bit, so
    /// `seq_tier_0` is false for it whatever the following bits hold.
    #[verifier::rlimit(100)]
    #[verifier::spinoff_prover]
    pub fn parse(bytes: &[u8]) -> (r: Result<SequenceHeaderFields, DecodeError>)
        requires
            fits_bits(bytes@),
        ensures
            match seq_header_spec(bytes@) {
                Some(f) => r == Ok::<SequenceHeaderFields, DecodeError>(f),
                None => r == Err::<SequenceHeaderFields, DecodeError>(
                    DecodeError::MalformedBitstream,
                ),
            },
            r is Ok ==> r->Ok_0.wf(),
    {
        let mut cur = BitCursor::new(bytes);
        let profile = match cur.load_u8(3) {
            Ok(v) => v,
            Err(e) => {
                return Err(e);
            },
        };
        if profile > 2 {
            return Err(DecodeError::MalformedBitstream);
        }
        match cur.skip(1) {
            Ok(u) => u,
            Err(e) => {
                return Err(e);
            },
        };
        let reduced = match cur.next_flag() {
            Ok(v) => v,
            Err(e) => {
                return Err(e);
            },
        };
        if reduced {
            parse_reduced_tail(&mut cur, profile)
        } else {
            parse_full_tail(&mut cur, profile)
        }
    }
}

/// Decodes the abbreviated still-picture grammar, the cursor standing
/// after the profile and mode bits.
#[verifier::rlimit(100)]
fn parse_reduced_tail<'a>(cur: &mut BitCursor<'a>, profile: u8) -> (r: Result<
    SequenceHeaderFields,
    DecodeError,
>)
    requires
        old(cur).wf(),
        old(cur).cursor() == 5,
        profile <= 2,
    ensures
        match reduced_tail_spec(old(cur).buf(), profile) {
            Some(f) => r == Ok::<SequenceHeaderFields, DecodeError>(f),
            None => r == Err::<SequenceHeaderFields, DecodeError>(
                DecodeError::MalformedBitstream,
            ),
        },
        r is Ok ==> r->Ok_0.wf(),
{
    let level = match cur.load_u8(5) {
        Ok(v) => v,
        Err(e) => {
            return Err(e);
        },
    };
    proof {
        lemma_bits_value_bound(old(cur).buf(), 5, 5);
        lemma_pow2_values();
    }
    let (wb, hb) = match parse_frame_size(cur) {
        Ok(v) => v,
        Err(e) => {
            return Err(e);
        },
    };
    match cur.skip(3) {
        Ok(u) => u,
        Err(e) => {
            return Err(e);
        },
    };
    let superres = match cur.next_flag() {
        Ok(v) => v,
        Err(e) => {
            return Err(e);
        },
    };
    let cdef = match cur.next_flag() {
        Ok(v) => v,
        Err(e) => {
            return Err(e);
        },
    };
    let restoration = match cur.next_flag() {
        Ok(v) => v,
        Err(e) => {
            return Err(e);
        },
    };
    Ok(
        SequenceHeaderFields {
            seq_profile: profile,
            reduced_still_picture_header: true,
            seq_level_idx_0: level,
            seq_tier_0: false,
            frame_width_bits: wb,
            frame_height_bits: hb,
            enable_order_hint: false,
            order_hint_bits: 0,
            seq_force_screen_content_tools: 2,
            seq_force_integer_mv: 2,
            enable_superres: superres,
            enable_cdef: cdef,
            enable_restoration: restoration,
        },
    )
}

/// Decodes the full grammar, the cursor standing after the profile
/// and mode bits.
#[verifier::rlimit(100)]
fn parse_full_tail<'a>(cur: &mut BitCursor<'a>, profile: u8) -> (r: Result<
    SequenceHeaderFields,
    DecodeError,
>)
    requires
        old(cur).wf(),
        old(cur).cursor() == 5,
        profile <= 2,
    ensures
        match full_tail_spec(old(cur).buf(), profile) {
            Some(f) => r == Ok::<SequenceHeaderFields, DecodeError>(f),
            None => r == Err::<SequenceHeaderFields, DecodeError>(
                DecodeError::MalformedBitstream,
            ),
        },
        r is Ok ==> r->Ok_0.wf(),
{
    let (level0, tier0) = match parse_operating_points(cur) {
        Ok(v) => v,
        Err(e) => {
            return Err(e);
        },
    };
    let (wb, hb) = match parse_frame_size(cur) {
        Ok(v) => v,
        Err(e) => {
            return Err(e);
        },
    };
    let fid = match cur.next_flag() {
        Ok(v) => v,
        Err(e) => {
            return Err(e);
        },
    };
    if fid {
        match cur.skip(7) {
            Ok(u) => u,
            Err(e) => {
                return Err(e);
            },
        };
    }
    match cur.skip(3) {
        Ok(u) => u,
        Err(e) => {
            return Err(e);
        },
    };
    let (eoh, ohb, fsct, fimv) = match parse_tools(cur) {
        Ok(v) => v,
        Err(e) => {
            return Err(e);
        },
    };
    let superres = match cur.next_flag() {
        Ok(v) => v,
        Err(e) => {
            return Err(e);
        },
    };
    let cdef = match cur.next_flag() {
        Ok(v) => v,
        Err(e) => {
            return Err(e);
        },
    };
    let restoration = match cur.next_flag() {
        Ok(v) => v,
        Err(e) => {
            return Err(e);
        },
    };
    Ok(
        SequenceHeaderFields {
            seq_profile: profile,
            reduced_still_picture_header: false,
            seq_level_idx_0: level0,
            seq_tier_0: tier0,
            frame_width_bits: wb,
            frame_height_bits: hb,
            enable_order_hint: eoh,
            order_hint_bits: ohb,
            seq_force_screen_content_tools: fsct,
            seq_force_integer_mv: fimv,
            enable_superres: superres,
            enable_cdef: cdef,
            enable_restoration: restoration,
        },
    )
}

} // verus!
