//! Verified bit-level engine for AV1 codec-configuration records.
//!
//! The crate decodes the Sequence Header fields of an AV1 elementary
//! stream and packs them, together with the verbatim configuration OBU
//! bytes, into the compact five-byte codec-configuration record that a
//! media container embeds as track metadata.

pub mod av1c;
pub mod bits;
pub mod error;
pub mod obu;
pub mod seq_header;
