use claxon::{FlacReader, FlacReaderOptions};
use flac_tracksplit::metadata::{
    write_flac_stream_header, MetadataBlock, Picture, PictureKind, Tag, WriteFlacStreamError,
    WriteMetadataBlockHeaderError,
};
use flac_tracksplit::padding::write_padding;
use flac_tracksplit::stream_info::{
    write_streaminfo, StreamInfo, StreamInfoWriteExt, WriteStreamInfoError,
};
use flac_tracksplit::track::write_track_header;

fn md5_checksum<const N: usize>(checksum: &str) -> Option<[u8; N]> {
    hex::decode(checksum)
        .expect("decoding MD5 checksum hex string")
        .try_into()
        .ok()
}

fn sample_info() -> StreamInfo {
    StreamInfo {
        block_len_min: 4608,
        block_len_max: 4608,
        frame_byte_len_min: 0,
        frame_byte_len_max: 19024,
        sample_rate: 44100,
        channels: 2,
        bits_per_sample: 16,
        n_samples: Some(118981800),
        md5: md5_checksum("2d19476b6abc3ef4e7c32b64110e59a5"),
    }
}

#[test]
fn simple_streaminfo() {
    let si = sample_info();
    let mut buf = Vec::new();
    write_flac_stream_header(&mut buf, &si, &vec![]).unwrap();

    assert_eq!(buf.len(), 4 + 4 + 34);

    let fr = FlacReader::new_ext(
        buf.as_slice(),
        FlacReaderOptions {
            metadata_only: true,
            read_vorbis_comment: false,
        },
    )
    .expect("read back the FLAC header");
    let si_back = fr.streaminfo();
    assert_eq!(Some(si_back.md5sum), si.md5);
    assert_eq!(si_back.channels, si.channels);
}

#[test]
fn simple_padding() {
    let si = sample_info();
    let mut buf = Vec::new();
    let padding_len: u32 = 900000;
    write_flac_stream_header(
        &mut buf,
        &si,
        &vec![MetadataBlock::Padding {
            length: padding_len,
        }],
    )
    .unwrap();

    assert_eq!(buf.len(), 4 + 4 + 34 + 4 + (padding_len as usize));

    FlacReader::new_ext(
        buf.as_slice(),
        FlacReaderOptions {
            metadata_only: true,
            read_vorbis_comment: false,
        },
    )
    .expect("read back the FLAC header");
}

#[test]
fn streaminfo_exact_bytes() {
    let si = sample_info();
    let mut buf = Vec::new();
    write_streaminfo(&mut buf, &si).unwrap();
    let mut expected = vec![0x12, 0x00, 0x12, 0x00, 0x00, 0x00, 0x00, 0x00, 0x4a, 0x50];
    // 44100 << 44 | 1 << 41 | 15 << 36 | 118981800
    let packed: u64 = (44100u64 << 44) | (1 << 41) | (15 << 36) | 118981800;
    expected.extend_from_slice(&packed.to_be_bytes());
    expected.extend_from_slice(&md5_checksum::<16>("2d19476b6abc3ef4e7c32b64110e59a5").unwrap());
    assert_eq!(buf, expected);
}

#[test]
fn streaminfo_round_trip_through_a_flac_parser() {
    let si = sample_info();
    let mut buf = Vec::new();
    write_flac_stream_header(&mut buf, &si, &vec![MetadataBlock::Padding { length: 0 }]).unwrap();
    let fr = FlacReader::new_ext(
        buf.as_slice(),
        FlacReaderOptions {
            metadata_only: true,
            read_vorbis_comment: false,
        },
    )
    .expect("read back the FLAC header");
    let back = fr.streaminfo();
    assert_eq!(Some(back.md5sum), si.md5);
    assert_eq!(back.sample_rate, 44100);
    assert_eq!(back.channels, 2);
    assert_eq!(back.bits_per_sample, 16);
    assert_eq!(back.samples, Some(118981800));
    assert_eq!(back.min_block_size, 4608);
    assert_eq!(back.max_frame_size, Some(19024));
}

#[test]
fn streaminfo_out_of_range_is_refused() {
    let mut buf = vec![7u8];
    let bad = StreamInfo { channels: 9, ..sample_info() };
    assert_eq!(write_streaminfo(&mut buf, &bad), Err(WriteStreamInfoError::FieldOutOfRange));
    assert_eq!(buf, vec![7u8]);
    let bad = StreamInfo { n_samples: Some(1 << 36), ..sample_info() };
    assert_eq!(
        write_flac_stream_header(&mut buf, &bad, &vec![]),
        Err(WriteFlacStreamError::StreamInfo(WriteStreamInfoError::FieldOutOfRange))
    );
    assert_eq!(buf, vec![7u8]);
}

#[test]
fn unknown_and_oversized_blocks_are_refused() {
    let si = sample_info();
    let mut buf = Vec::new();
    assert_eq!(
        write_flac_stream_header(&mut buf, &si, &vec![MetadataBlock::SeekTable]),
        Err(WriteFlacStreamError::Header(WriteMetadataBlockHeaderError::UnknownType))
    );
    assert_eq!(
        write_flac_stream_header(&mut buf, &si, &vec![MetadataBlock::Padding { length: 1 << 24 }]),
        Err(WriteFlacStreamError::Header(WriteMetadataBlockHeaderError::TooLong))
    );
    assert!(buf.is_empty());
}

#[test]
fn only_the_last_block_is_flagged() {
    let si = sample_info();
    let mut buf = Vec::new();
    write_flac_stream_header(
        &mut buf,
        &si,
        &vec![
            MetadataBlock::VorbisComment { vendor: "v".to_string(), tags: vec![] },
            MetadataBlock::Padding { length: 5 },
        ],
    )
    .unwrap();
    assert_eq!(&buf[0..4], b"fLaC");
    assert_eq!(&buf[4..8], &[0x00, 0, 0, 34]);
    assert_eq!(&buf[42..46], &[0x04, 0, 0, 9]);
    assert_eq!(&buf[46..55], &[1, 0, 0, 0, b'v', 0, 0, 0, 0]);
    assert_eq!(&buf[55..59], &[0x81, 0, 0, 5]);
    assert_eq!(&buf[59..], &[0, 0, 0, 0, 0]);
}

#[test]
fn application_blocks_are_refused() {
    let si = sample_info();
    let mut buf = vec![3u8];
    assert_eq!(
        write_flac_stream_header(
            &mut buf,
            &si,
            &vec![
                MetadataBlock::Application { id: 0x74657374, data: vec![1, 2, 3] },
                MetadataBlock::Padding { length: 5 },
            ],
        ),
        Err(WriteFlacStreamError::Header(WriteMetadataBlockHeaderError::UnknownType))
    );
    assert_eq!(buf, vec![3u8]);
    for block in [MetadataBlock::CueSheet, MetadataBlock::Reserved] {
        assert_eq!(
            write_flac_stream_header(&mut buf, &si, &vec![block]),
            Err(WriteFlacStreamError::Header(WriteMetadataBlockHeaderError::UnknownType))
        );
    }
    assert_eq!(buf, vec![3u8]);
}

#[test]
fn padding_is_zeros() {
    let mut buf = vec![9u8];
    write_padding(&mut buf, 3);
    assert_eq!(buf, vec![9, 0, 0, 0]);
}

#[test]
fn md5_and_samples_overrides() {
    let si = sample_info();
    let cleared = si.without_md5().without_samples();
    assert_eq!(cleared.md5, Some([0u8; 16]));
    assert_eq!(cleared.n_samples, None);
    assert_eq!(cleared.sample_rate, 44100);
    let set = cleared.with_md5([1u8; 16]).with_samples(Some(5));
    assert_eq!(set.md5, Some([1u8; 16]));
    assert_eq!(set.n_samples, Some(5));
}

#[test]
fn track_header_reads_back() {
    let si = sample_info();
    let tags = vec![
        Tag { key: "TITLE".to_string(), value: "Foo".to_string() },
        Tag { key: "ARTIST".to_string(), value: "Bär".to_string() },
    ];
    let pictures = vec![Picture {
        media_type: "image/png".to_string(),
        description: String::new(),
        dimensions: Some((2, 3)),
        bits_per_pixel: Some(24),
        indexed_colors: None,
        usage: Some(PictureKind::FrontCover),
        data: vec![0xaa, 0xbb],
    }];
    let mut buf = Vec::new();
    write_track_header(&mut buf, &si, 88200, "tracksplit".to_string(), tags, pictures, 16)
        .unwrap();
    let fr = FlacReader::new_ext(
        buf.as_slice(),
        FlacReaderOptions {
            metadata_only: true,
            read_vorbis_comment: true,
        },
    )
    .expect("read back the track header");
    let back = fr.streaminfo();
    assert_eq!(back.md5sum, [0u8; 16]);
    assert_eq!(back.samples, Some(88200));
    assert_eq!(back.sample_rate, 44100);
    assert_eq!(back.channels, 2);
    assert_eq!(back.bits_per_sample, 16);
    assert_eq!(fr.vendor(), Some("tracksplit"));
    assert_eq!(fr.get_tag("TITLE").collect::<Vec<_>>(), vec!["Foo"]);
    assert_eq!(fr.get_tag("ARTIST").collect::<Vec<_>>(), vec!["Bär"]);

    // STREAMINFO, VORBIS_COMMENT and PICTURE are not last; PADDING is.
    assert_eq!(buf[4], 0x00);
    let vc_start = 4 + 4 + 34;
    assert_eq!(buf[vc_start], 0x04);
    let vc_len = u32::from_be_bytes([0, buf[vc_start + 1], buf[vc_start + 2], buf[vc_start + 3]])
        as usize;
    let pic_start = vc_start + 4 + vc_len;
    assert_eq!(buf[pic_start], 0x06);
    let pic_len = u32::from_be_bytes([0, buf[pic_start + 1], buf[pic_start + 2], buf[pic_start + 3]])
        as usize;
    let pic = &buf[pic_start + 4..pic_start + 4 + pic_len];
    assert_eq!(&pic[0..4], &[0, 0, 0, 3]);
    assert_eq!(&pic[4..8], &[0, 0, 0, 9]);
    assert_eq!(&pic[8..17], b"image/png");
    assert_eq!(&pic[17..21], &[0, 0, 0, 0]);
    assert_eq!(&pic[21..37], &[0, 0, 0, 2, 0, 0, 0, 3, 0, 0, 0, 24, 0, 0, 0, 0]);
    assert_eq!(&pic[37..41], &[0, 0, 0, 2]);
    assert_eq!(&pic[41..], &[0xaa, 0xbb]);
    let pad_start = pic_start + 4 + pic_len;
    assert_eq!(&buf[pad_start..pad_start + 4], &[0x81, 0, 0, 16]);
    assert_eq!(buf.len(), pad_start + 4 + 16);
}

#[test]
fn vorbis_comment_layout() {
    let si = sample_info();
    let mut buf = Vec::new();
    write_flac_stream_header(
        &mut buf,
        &si,
        &vec![MetadataBlock::VorbisComment {
            vendor: "v".to_string(),
            tags: vec![Tag { key: "A".to_string(), value: "bc".to_string() }],
        }],
    )
    .unwrap();
    assert_eq!(
        &buf[42..],
        &[0x84, 0, 0, 17, 1, 0, 0, 0, b'v', 1, 0, 0, 0, 4, 0, 0, 0, b'A', b'=', b'b', b'c']
    );
}
