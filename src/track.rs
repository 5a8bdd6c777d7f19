//! The metadata prelude of one output track.

use vstd::prelude::*;

use crate::bytes::{be_value, zeros};
use crate::metadata::{
    block_bytes, block_header_bytes, blocks_bytes, stream_header_bytes, write_flac_stream_header,
    MetadataBlock, Picture, Tag, WriteFlacStreamError,
};
use crate::stream_info::{
    fits, lemma_streaminfo_read_back, md5_field, samples_field, streaminfo_bytes, StreamInfo,
    StreamInfoWriteExt, STREAMINFO_BYTE_LENGTH,
};

verus! {

/// The STREAMINFO of a track: the source's, with the MD5 unknown and the
/// total samples replaced by those written.
pub open spec fn track_streaminfo(info: StreamInfo, total_samples: u64) -> StreamInfo {
    StreamInfo { md5: None, n_samples: Some(total_samples), ..info }
}

/// The blocks after STREAMINFO in a track: its comments, its pictures,
/// then padding.
pub open spec fn track_blocks(
    vendor: String,
    tags: Vec<Tag>,
    pictures: Seq<Picture>,
    padding: u32,
) -> Seq<MetadataBlock> {
    seq![MetadataBlock::VorbisComment { vendor, tags }] + pictures.map_values(
        |p: Picture| MetadataBlock::Picture { picture: p },
    ) + seq![MetadataBlock::Padding { length: padding }]
}

/// Appends the metadata prelude of a track to `to`: `fLaC`, STREAMINFO
/// with an unknown MD5 and `total_samples` as the total, VORBIS_COMMENT
/// with `vendor` and `tags`, a PICTURE for each of `pictures`, and
/// `padding` zero bytes of PADDING, flagged last. On error `to` is left as
/// it was.
pub fn write_track_header(
    to: &mut Vec<u8>,
    info: &StreamInfo,
    total_samples: u64,
    vendor: String,
    tags: Vec<Tag>,
    pictures: Vec<Picture>,
    padding: u32,
) -> (r: Result<(), WriteFlacStreamError>)
    ensures
        match stream_header_bytes(
            track_streaminfo(*info, total_samples),
            track_blocks(vendor, tags, pictures@, padding),
        ) {
            Ok(x) => r is Ok && final(to)@ == old(to)@ + x,
            Err(e) => r == Err::<(), WriteFlacStreamError>(e) && final(to)@ == old(to)@,
        },
{
    let ghost spec_blocks = track_blocks(vendor, tags, pictures@, padding);
    let ghost pics = pictures@;
    let mut blocks: Vec<MetadataBlock> = Vec::new();
    blocks.push(MetadataBlock::VorbisComment { vendor, tags });
    let n = pictures.len();
    let mut rest = pictures;
    let mut i: usize = 0;
    while rest.len() > 0
        invariant
            i + rest@.len() == pics.len() == n,
            rest@ == pics.subrange(i as int, pics.len() as int),
            blocks@ == spec_blocks.subrange(0, i + 1),
            spec_blocks.len() == pics.len() + 2,
            spec_blocks == track_blocks(vendor, tags, pics, padding),
        decreases rest@.len(),
    {
        let p = rest.remove(0);
        blocks.push(MetadataBlock::Picture { picture: p });
        assert(blocks@ =~= spec_blocks.subrange(0, i + 2));
        i = i + 1;
    }
    blocks.push(MetadataBlock::Padding { length: padding });
    assert(blocks@ =~= spec_blocks);
    let si = info.with_samples(Some(total_samples)).without_md5();
    proof {
        assert(md5_field(si) =~= md5_field(track_streaminfo(*info, total_samples)));
        assert(streaminfo_bytes(si) =~= streaminfo_bytes(track_streaminfo(*info, total_samples)));
        assert(block_bytes(MetadataBlock::StreamInfo(si), false) == block_bytes(
            MetadataBlock::StreamInfo(track_streaminfo(*info, total_samples)),
            false,
        ));
    }
    write_flac_stream_header(to, &si, &blocks)
}

/// Every track's prelude carries, right after the marker, a STREAMINFO
/// block (not flagged last) whose body reads back with an all-zero MD5,
/// `total_samples` as the total, and every other field as in the source.
pub proof fn lemma_track_streaminfo(info: StreamInfo, total_samples: u64, blocks: Seq<MetadataBlock>)
    requires
        fits(info),
        total_samples < 0x10_0000_0000,
        blocks.len() > 0,
        stream_header_bytes(track_streaminfo(info, total_samples), blocks) is Ok,
    ensures
        ({
            let x = stream_header_bytes(track_streaminfo(info, total_samples), blocks)->Ok_0;
            let b = x.subrange(8, 42);
            let packed = be_value(b.subrange(10, 18), 8);
            &&& x[4] == 0
            &&& be_value(x.subrange(5, 8), 3) == STREAMINFO_BYTE_LENGTH
            &&& b.subrange(18, 34) == zeros(16)
            &&& packed & 0xf_ffff_ffff == total_samples
            &&& be_value(b.subrange(0, 2), 2) == info.block_len_min
            &&& be_value(b.subrange(2, 4), 2) == info.block_len_max
            &&& be_value(b.subrange(4, 7), 3) == info.frame_byte_len_min
            &&& be_value(b.subrange(7, 10), 3) == info.frame_byte_len_max
            &&& packed >> 44u64 == info.sample_rate
            &&& (packed >> 41u64) & 7 == info.channels - 1
            &&& (packed >> 36u64) & 0x1f == info.bits_per_sample - 1
        }),
{
    let ti = track_streaminfo(info, total_samples);
    let x = stream_header_bytes(ti, blocks)->Ok_0;
    let body = streaminfo_bytes(ti);
    lemma_streaminfo_read_back(ti);
    let first = block_bytes(MetadataBlock::StreamInfo(ti), false)->Ok_0;
    assert(first == block_header_bytes(false, 0, 34) + body);
    assert(x.subrange(8, 42) =~= body);
    assert(x.subrange(5, 8) =~= block_header_bytes(false, 0, 34).subrange(1, 4));
    assert((8 * 3nat) as u64 == 24u64);
    assert(34u64 < (1u64 << 24u64)) by (bit_vector);
    crate::bytes::lemma_be_round_trip(34, 3);
    assert(x.subrange(5, 8) =~= crate::bytes::be_bytes(34, 3));
    assert(md5_field(ti) =~= zeros(16));
    assert(samples_field(ti) == total_samples);
}

} // verus!
