//! Splitting a FLAC stream into tracks without re-encoding.
//!
//! Each output track is a FLAC stream of its own: a metadata prelude
//! (STREAMINFO with the track's total, comments, pictures, padding) and the
//! source's frames, rewritten so that their numbers count from the track's
//! first frame, with both frame CRCs recomputed.

pub mod bytes;
pub mod crc;
pub mod cue;
pub mod ext_utf8;
pub mod frame;
pub mod metadata;
pub mod padding;
pub mod path;
pub mod range;
pub mod stream_info;
pub mod tags;
pub mod track;
