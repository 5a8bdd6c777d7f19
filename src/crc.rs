//! The two checksums of a FLAC frame, computed by symphonia's CRC engines.

use symphonia_core::checksum::{Crc16Ansi, Crc8Ccitt};
use symphonia_core::io::Monitor;
use vstd::prelude::*;

verus! {

/// The CRC-8 (polynomial 0x07, seeded with 0, not reflected, no final XOR)
/// of a byte sequence.
pub uninterp spec fn crc8_ccitt(s: Seq<u8>) -> u8;

/// The CRC-16 (polynomial 0x8005, seeded with 0, not reflected, no final
/// XOR) of a byte sequence.
pub uninterp spec fn crc16_ansi(s: Seq<u8>) -> u16;

/// Relies on symphonia_core's `Crc8Ccitt::new(0)`, `process_buf_bytes` and
/// `crc`: the CRC-8/CCITT of the bytes, a function of the bytes alone.
#[verifier::external_body]
pub(crate) fn header_crc(bytes: &[u8]) -> (r: u8)
    ensures
        r == crc8_ccitt(bytes@),
{
    let mut crc = Crc8Ccitt::new(0);
    crc.process_buf_bytes(bytes);
    crc.crc()
}

/// Relies on symphonia_core's `Crc16Ansi::new(0)`, `process_buf_bytes` and
/// `crc`: the CRC-16/ANSI of the bytes, a function of the bytes alone.
#[verifier::external_body]
pub(crate) fn footer_crc(bytes: &[u8]) -> (r: u16)
    ensures
        r == crc16_ansi(bytes@),
{
    let mut crc = Crc16Ansi::new(0);
    crc.process_buf_bytes(bytes);
    crc.crc()
}

} // verus!
