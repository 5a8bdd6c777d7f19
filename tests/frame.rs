use flac_tracksplit::ext_utf8::utf8_encode_be_u64;
use flac_tracksplit::frame::{FrameError, OffsetFrame};
use symphonia_core::checksum::{Crc16Ansi, Crc8Ccitt};
use symphonia_core::io::Monitor;

fn crc8(bytes: &[u8]) -> u8 {
    let mut c = Crc8Ccitt::new(0);
    c.process_buf_bytes(bytes);
    c.crc()
}

fn crc16(bytes: &[u8]) -> u16 {
    let mut c = Crc16Ansi::new(0);
    c.process_buf_bytes(bytes);
    c.crc()
}

/// A frame with correct CRCs: sync, descriptor, the number, the tails, the
/// header CRC-8, the subframes and the footer CRC-16.
fn frame(desc: [u8; 2], number: u64, tails: &[u8], subframes: &[u8]) -> Vec<u8> {
    let mut f = vec![0xff, 0xf8, desc[0], desc[1]];
    f.extend(utf8_encode_be_u64(number).unwrap());
    f.extend_from_slice(tails);
    f.push(crc8(&f));
    f.extend_from_slice(subframes);
    let c = crc16(&f);
    f.extend_from_slice(&c.to_be_bytes());
    f
}

#[test]
fn crc_known_vectors() {
    assert_eq!(crc8(b"123456789"), 0xf4);
    // Polynomial 0x8005, seeded with 0, not reflected, no final XOR: the
    // check value of this (unreflected) CRC-16 is 0xFEE8.
    assert_eq!(crc16(b"123456789"), 0xfee8);
}

#[test]
fn first_frame_is_rebased_to_zero() {
    let src = frame([0xc9, 0x18], 5, &[], &[1, 2, 3, 4]);
    let mut of = OffsetFrame::new();
    let (out, header_same, footer_same) = of.process(&src).unwrap();
    assert_eq!(out, frame([0xc9, 0x18], 0, &[], &[1, 2, 3, 4]));
    assert_ne!(out[5], src[5]);
    assert!(!header_same);
    assert!(!footer_same);
    assert_eq!(of.initial_offset, Some(5));
    assert_eq!(of.samples_processed, 4096);
}

#[test]
fn later_frames_count_from_the_first() {
    let mut of = OffsetFrame::new();
    of.process(&frame([0xc9, 0x18], 1000, &[], &[7; 10])).unwrap();
    let (out, _, _) = of.process(&frame([0xc9, 0x18], 1003, &[], &[8; 10])).unwrap();
    assert_eq!(out, frame([0xc9, 0x18], 3, &[], &[8; 10]));
    assert_eq!(of.samples_processed, 8192);
}

#[test]
fn shorter_number_shrinks_the_frame() {
    let mut of = OffsetFrame::new();
    of.process(&frame([0x19, 0x18], 0x1_0000, &[], &[1])).unwrap();
    let src = frame([0x19, 0x18], 0x1_0001, &[], &[1]);
    let (out, _, _) = of.process(&src).unwrap();
    assert_eq!(out, frame([0x19, 0x18], 1, &[], &[1]));
    assert_eq!(out.len() + 3, src.len());
}

#[test]
fn zero_offset_frame_is_unchanged() {
    let src = frame([0x69, 0x18], 0, &[0x0f], &[5, 6, 7]);
    let mut of = OffsetFrame::new();
    let (out, header_same, footer_same) = of.process(&src).unwrap();
    assert_eq!(out, src);
    assert!(header_same);
    assert!(footer_same);
}

#[test]
fn rewritten_crcs_are_valid() {
    let src = frame([0x7c, 0x18], 77, &[0x01, 0x00, 0x30], &[9, 9, 9, 9, 9]);
    let mut of = OffsetFrame { initial_offset: Some(70), samples_processed: 0 };
    let (out, _, _) = of.process(&src).unwrap();
    // sync, desc, number 7, 2-byte block size, 1-byte sample rate
    let header_len = 4 + 1 + 2 + 1;
    assert_eq!(out[4], 7);
    assert_eq!(out[header_len], crc8(&out[..header_len]));
    let n = out.len();
    assert_eq!(&out[n - 2..], &crc16(&out[..n - 2]).to_be_bytes());
    assert_eq!(of.samples_processed, 257);
}

#[test]
fn block_sizes_follow_the_table() {
    let cases: &[(u8, &[u8], u64)] = &[
        (0x1, &[], 192),
        (0x2, &[], 576),
        (0x5, &[], 4608),
        (0x6, &[0x00], 1),
        (0x6, &[0xff], 256),
        (0x7, &[0xff, 0xff], 65536),
        (0x8, &[], 256),
        (0xf, &[], 32768),
    ];
    for (code, tail, samples) in cases {
        let mut of = OffsetFrame::new();
        of.process(&frame([code << 4 | 0x9, 0x18], 0, tail, &[0])).unwrap();
        assert_eq!(of.samples_processed, *samples, "code {:#x}", code);
    }
}

#[test]
fn samples_add_up_over_a_track() {
    let frames = vec![
        frame([0xc9, 0x18], 10, &[], &[1]),
        frame([0x69, 0x18], 11, &[0x7f], &[2]),
        frame([0x29, 0x18], 12, &[], &[3]),
    ];
    let mut of = OffsetFrame::new();
    let mut out = vec![0xee];
    of.process_all(&frames, &mut out).unwrap();
    assert_eq!(of.samples_processed, 4096 + 128 + 576);
    let mut expected = vec![0xee];
    expected.extend(frame([0xc9, 0x18], 0, &[], &[1]));
    expected.extend(frame([0x69, 0x18], 1, &[0x7f], &[2]));
    expected.extend(frame([0x29, 0x18], 2, &[], &[3]));
    assert_eq!(out, expected);
}

#[test]
fn process_all_stops_at_the_first_bad_frame() {
    let frames = vec![frame([0xc9, 0x18], 3, &[], &[1]), vec![0xff, 0xf8, 0x0c]];
    let mut of = OffsetFrame::new();
    let mut out = vec![0xee];
    assert_eq!(of.process_all(&frames, &mut out), Err(FrameError::Truncated));
    let mut expected = vec![0xee];
    expected.extend(frame([0xc9, 0x18], 0, &[], &[1]));
    assert_eq!(out, expected);
    assert_eq!(of.initial_offset, Some(3));
    assert_eq!(of.samples_processed, 4096);
}

#[test]
fn frame_errors() {
    let mut of = OffsetFrame::new();
    assert_eq!(of.process(&[0xff, 0xf8, 0xc9]), Err(FrameError::Truncated));
    assert_eq!(
        of.process(&frame([0x09, 0x18], 0, &[], &[1])),
        Err(FrameError::ReservedBlockSize)
    );
    assert_eq!(
        of.process(&frame([0xcf, 0x18], 0, &[], &[1])),
        Err(FrameError::InvalidSampleRate)
    );
    assert_eq!(
        of.process(&[0xff, 0xf8, 0xc9, 0x18, 0x80, 0, 0, 0]),
        Err(FrameError::InvalidNumber)
    );
    let short = frame([0x79, 0x18], 0, &[0x01, 0x00], &[]);
    assert_eq!(of.process(&short[..7]), Err(FrameError::Truncated));
    assert_eq!(of.initial_offset, None);
    assert_eq!(of.samples_processed, 0);

    of.process(&frame([0xc9, 0x18], 50, &[], &[1])).unwrap();
    assert_eq!(
        of.process(&frame([0xc9, 0x18], 49, &[], &[1])),
        Err(FrameError::OffsetBeforeStart)
    );
    assert_eq!(of.samples_processed, 4096);
}
