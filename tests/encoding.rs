use flac_tracksplit::ext_utf8::{utf8_decode_be_u64, utf8_encode_be_u64};
use flac_tracksplit::frame::FrameError;

#[test]
fn test_encoding() {
    let inputs: &[u64] = &[0x85, 0x863, 0x18427, 0xf88204, 0x04, 8790];
    for input in inputs {
        let encoded = utf8_encode_be_u64(*input).expect("encoding");
        let decoded = utf8_decode_be_u64(&encoded, 0)
            .unwrap_or_else(|e| panic!("decoding {:?}: {:?}", encoded, e));
        assert_eq!(
            (*input, encoded.len()),
            decoded,
            "received:\n{:#064b} but wanted:\n{:#064b}",
            decoded.0,
            input
        );
    }
}

#[test]
fn encoding_lengths_follow_the_bit_table() {
    let cases: &[(u64, usize)] = &[
        (0x04, 1),
        (0x85, 2),
        (0x863, 3),
        (0x18427, 4),
        (0xf88204, 5),
        (0x8790, 3),
        (0x7f, 1),
        (0x80, 2),
        (0x7ff, 2),
        (0x800, 3),
        (0xffff, 3),
        (0x1_0000, 4),
        (0x1f_ffff, 4),
        (0x20_0000, 5),
        (0x3ff_ffff, 5),
        (0x400_0000, 6),
        (0x7fff_ffff, 6),
        (0x8000_0000, 7),
        (0xf_ffff_ffff, 7),
    ];
    for (input, len) in cases {
        let encoded = utf8_encode_be_u64(*input).expect("encoding");
        assert_eq!(encoded.len(), *len, "length of {:#x}", input);
        assert_eq!(utf8_decode_be_u64(&encoded, 0), Ok((*input, *len)));
    }
}

#[test]
fn encoding_exact_bytes() {
    assert_eq!(utf8_encode_be_u64(0x04).unwrap(), vec![0x04]);
    assert_eq!(utf8_encode_be_u64(0x85).unwrap(), vec![0xc2, 0x85]);
    assert_eq!(utf8_encode_be_u64(0x863).unwrap(), vec![0xe0, 0xa1, 0xa3]);
    assert_eq!(
        utf8_encode_be_u64(0xf_ffff_ffff).unwrap(),
        vec![0xfe, 0xbf, 0xbf, 0xbf, 0xbf, 0xbf, 0xbf]
    );
}

#[test]
fn encoding_rejects_more_than_36_bits() {
    assert_eq!(utf8_encode_be_u64(0x10_0000_0000), Err(FrameError::OffsetTooLarge));
    assert_eq!(utf8_encode_be_u64(u64::MAX), Err(FrameError::OffsetTooLarge));
}

#[test]
fn decoding_rejects_bad_sequences() {
    assert_eq!(utf8_decode_be_u64(&[0x80], 0), Err(FrameError::InvalidNumber));
    assert_eq!(utf8_decode_be_u64(&[0xff], 0), Err(FrameError::InvalidNumber));
    assert_eq!(utf8_decode_be_u64(&[0xc2, 0x05], 0), Err(FrameError::InvalidNumber));
    assert_eq!(utf8_decode_be_u64(&[0xe0, 0xa1], 0), Err(FrameError::Truncated));
    assert_eq!(utf8_decode_be_u64(&[], 0), Err(FrameError::Truncated));
    assert_eq!(utf8_decode_be_u64(&[9, 9, 0x05], 2), Ok((5, 1)));
}
