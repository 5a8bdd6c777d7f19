//! The metadata prelude of a FLAC stream: the `fLaC` marker and a run of
//! metadata blocks, the last one flagged as such.

use vstd::prelude::*;
use vstd::utf8::encode_utf8;

use crate::bytes::{
    append_slice, be_bytes, be_value, le32, lemma_be_round_trip, push_be, push_le32, zeros,
};
use crate::padding::write_padding;
use crate::stream_info::{
    fits, streaminfo_bytes, write_streaminfo, StreamInfo, WriteStreamInfoError,
};

verus! {

/// A tag: a key and its value, as in `KEY=value`.
#[derive(Debug, Clone)]
pub struct Tag {
    pub key: String,
    pub value: String,
}

/// What a picture shows, as FLAC's picture types name it.
#[derive(Debug, Clone, Copy, PartialEq, Eq, Structural)]
pub enum PictureKind {
    FileIcon,
    OtherIcon,
    FrontCover,
    BackCover,
    Leaflet,
    Media,
    LeadArtistPerformerSoloist,
    ArtistPerformer,
    Conductor,
    BandOrchestra,
    Composer,
    Lyricist,
    RecordingLocation,
    RecordingSession,
    Performance,
    ScreenCapture,
    Illustration,
    BandArtistLogo,
    PublisherStudioLogo,
}

/// An attached picture.
#[derive(Debug, Clone)]
pub struct Picture {
    /// The MIME type of `data`.
    pub media_type: String,
    /// A description of the picture.
    pub description: String,
    /// Width and height in pixels, if known.
    pub dimensions: Option<(u32, u32)>,
    /// Bits per pixel, if known.
    pub bits_per_pixel: Option<u32>,
    /// The size of the palette, for an indexed-color picture.
    pub indexed_colors: Option<u32>,
    /// What the picture shows, if known.
    pub usage: Option<PictureKind>,
    /// The encoded picture.
    pub data: Vec<u8>,
}

/// A metadata block. Only STREAMINFO, PADDING, VORBIS_COMMENT and PICTURE
/// blocks can be written.
pub enum MetadataBlock {
    StreamInfo(StreamInfo),
    Padding { length: u32 },
    Application { id: u32, data: Vec<u8> },
    SeekTable,
    VorbisComment { vendor: String, tags: Vec<Tag> },
    CueSheet,
    Picture { picture: Picture },
    Reserved,
}

/// Errors that can occur while a metadata block is framed.
#[derive(Debug, Clone, Copy, PartialEq, Eq, Structural)]
pub enum WriteMetadataBlockHeaderError {
    /// A kind of block that this writer does not lay out.
    UnknownType,
    /// The block's body does not fit its 24-bit length.
    TooLong,
}

/// Errors that `write_flac_stream_header` can return.
#[derive(Debug, Clone, Copy, PartialEq, Eq, Structural)]
pub enum WriteFlacStreamError {
    /// A block could not be framed.
    Header(WriteMetadataBlockHeaderError),
    /// A STREAMINFO block could not be written.
    StreamInfo(WriteStreamInfoError),
}

/// The four bytes that open a FLAC stream.
pub open spec fn stream_marker() -> Seq<u8> {
    seq![0x66u8, 0x4cu8, 0x61u8, 0x43u8]
}

/// The largest body length (exclusive) that a block header can state.
pub const MAX_BLOCK_LENGTH: usize = 0x100_0000;

/// The 7-bit type of a block.
pub open spec fn block_type_code(b: MetadataBlock) -> u8 {
    match b {
        MetadataBlock::StreamInfo(_) => 0,
        MetadataBlock::Padding { .. } => 1,
        MetadataBlock::Application { .. } => 2,
        MetadataBlock::SeekTable => 3,
        MetadataBlock::VorbisComment { .. } => 4,
        MetadataBlock::CueSheet => 5,
        MetadataBlock::Picture { .. } => 6,
        MetadataBlock::Reserved => 127,
    }
}

/// The FLAC picture type of a picture's usage; "Other" where it has none.
pub open spec fn picture_type_spec(usage: Option<PictureKind>) -> u32 {
    match usage {
        None => 0,
        Some(k) => match k {
            PictureKind::FileIcon => 1,
            PictureKind::OtherIcon => 2,
            PictureKind::FrontCover => 3,
            PictureKind::BackCover => 4,
            PictureKind::Leaflet => 5,
            PictureKind::Media => 6,
            PictureKind::LeadArtistPerformerSoloist => 7,
            PictureKind::ArtistPerformer => 8,
            PictureKind::Conductor => 9,
            PictureKind::BandOrchestra => 10,
            PictureKind::Composer => 11,
            PictureKind::Lyricist => 12,
            PictureKind::RecordingLocation => 13,
            PictureKind::RecordingSession => 14,
            PictureKind::Performance => 15,
            PictureKind::ScreenCapture => 16,
            PictureKind::Illustration => 18,
            PictureKind::BandArtistLogo => 19,
            PictureKind::PublisherStudioLogo => 20,
        },
    }
}

/// The UTF-8 bytes of a string.
pub open spec fn text_bytes(s: String) -> Seq<u8> {
    encode_utf8(s@)
}

/// A 32-bit value as four big-endian bytes.
pub open spec fn be32(v: u32) -> Seq<u8> {
    be_bytes(v as u64, 4)
}

/// One comment: its length, little-endian, then `KEY=value`.
pub open spec fn comment_bytes(t: Tag) -> Seq<u8> {
    let c = text_bytes(t.key) + seq![0x3du8] + text_bytes(t.value);
    le32(c.len() as u32) + c
}

/// The comments for the first `k` tags.
pub open spec fn comments_bytes(tags: Seq<Tag>, k: nat) -> Seq<u8>
    decreases k,
{
    if k == 0 {
        Seq::empty()
    } else {
        comments_bytes(tags, (k - 1) as nat) + comment_bytes(tags[k - 1])
    }
}

/// The body of a VORBIS_COMMENT block: the vendor string, the number of
/// comments, then the comments, with little-endian lengths.
pub open spec fn vorbis_comment_bytes(vendor: String, tags: Seq<Tag>) -> Seq<u8> {
    le32(text_bytes(vendor).len() as u32) + text_bytes(vendor) + le32(tags.len() as u32)
        + comments_bytes(tags, tags.len())
}

/// The body of a PICTURE block, with big-endian fields; unknown values are
/// written as 0.
pub open spec fn picture_bytes(p: Picture) -> Seq<u8> {
    let (w, h) = match p.dimensions {
        Some(d) => d,
        None => (0u32, 0u32),
    };
    let bpp = match p.bits_per_pixel {
        Some(b) => b,
        None => 0,
    };
    let colors = match p.indexed_colors {
        Some(c) => c,
        None => 0,
    };
    be32(picture_type_spec(p.usage)) + be32(text_bytes(p.media_type).len() as u32) + text_bytes(
        p.media_type,
    ) + be32(text_bytes(p.description).len() as u32) + text_bytes(p.description) + be32(w)
        + be32(h) + be32(bpp) + be32(colors) + be32(p.data@.len() as u32) + p.data@
}

/// The body of a block, or why it has none: this writer lays out
/// STREAMINFO, PADDING, VORBIS_COMMENT and PICTURE blocks, and refuses
/// APPLICATION, SEEKTABLE, CUESHEET and reserved ones.
pub open spec fn block_body(b: MetadataBlock) -> Result<Seq<u8>, WriteFlacStreamError> {
    match b {
        MetadataBlock::StreamInfo(info) => if fits(info) {
            Ok(streaminfo_bytes(info))
        } else {
            Err(WriteFlacStreamError::StreamInfo(WriteStreamInfoError::FieldOutOfRange))
        },
        MetadataBlock::Padding { length } => Ok(zeros(length as nat)),
        MetadataBlock::VorbisComment { vendor, tags } => Ok(vorbis_comment_bytes(vendor, tags@)),
        MetadataBlock::Picture { picture } => Ok(picture_bytes(picture)),
        _ => Err(WriteFlacStreamError::Header(WriteMetadataBlockHeaderError::UnknownType)),
    }
}

/// A block header: the last-block flag and the type in one byte, then the
/// body's length in 24 big-endian bits.
pub open spec fn block_header_bytes(is_last: bool, code: u8, length: nat) -> Seq<u8> {
    seq![if is_last { code | 0x80 } else { code }] + be_bytes(length as u64, 3)
}

/// A whole block, header and body.
pub open spec fn block_bytes(b: MetadataBlock, is_last: bool) -> Result<
    Seq<u8>,
    WriteFlacStreamError,
> {
    match block_body(b) {
        Err(e) => Err(e),
        Ok(body) => if body.len() >= MAX_BLOCK_LENGTH {
            Err(WriteFlacStreamError::Header(WriteMetadataBlockHeaderError::TooLong))
        } else {
            Ok(block_header_bytes(is_last, block_type_code(b), body.len()) + body)
        },
    }
}

/// The first `k` blocks of `bs`, each flagged last exactly when it is the
/// last of `bs`.
pub open spec fn blocks_bytes(bs: Seq<MetadataBlock>, k: nat) -> Result<
    Seq<u8>,
    WriteFlacStreamError,
>
    decreases k,
{
    if k == 0 {
        Ok(Seq::empty())
    } else {
        match blocks_bytes(bs, (k - 1) as nat) {
            Err(e) => Err(e),
            Ok(acc) => match block_bytes(bs[k - 1], k == bs.len()) {
                Err(e) => Err(e),
                Ok(x) => Ok(acc + x),
            },
        }
    }
}

/// The prelude: the marker, the STREAMINFO block, then `bs`.
pub open spec fn stream_header_bytes(info: StreamInfo, bs: Seq<MetadataBlock>) -> Result<
    Seq<u8>,
    WriteFlacStreamError,
> {
    match block_bytes(MetadataBlock::StreamInfo(info), bs.len() == 0) {
        Err(e) => Err(e),
        Ok(first) => match blocks_bytes(bs, bs.len()) {
            Err(e) => Err(e),
            Ok(rest) => Ok(stream_marker() + first + rest),
        },
    }
}

/// The blocks of a prelude one by one: STREAMINFO, then `bs`, each flagged
/// last exactly when it is the final one.
pub open spec fn encoded_blocks(info: StreamInfo, bs: Seq<MetadataBlock>) -> Seq<Seq<u8>> {
    Seq::new(
        bs.len() + 1,
        |j: int|
            if j == 0 {
                block_bytes(MetadataBlock::StreamInfo(info), bs.len() == 0)->Ok_0
            } else {
                block_bytes(bs[j - 1], j == bs.len())->Ok_0
            },
    )
}

/// The byte strings of `e`, one after another.
pub open spec fn concat(e: Seq<Seq<u8>>) -> Seq<u8>
    decreases e.len(),
{
    if e.len() == 0 {
        Seq::empty()
    } else {
        concat(e.drop_last()) + e.last()
    }
}

/// A block whose header states its own extent, and whose last-block flag
/// (the top bit of its first byte) is `is_last`.
pub open spec fn framed(x: Seq<u8>, is_last: bool) -> bool {
    &&& x.len() >= 4
    &&& be_value(x.subrange(1, 4), 3) + 4 == x.len()
    &&& (x[0] >= 0x80) == is_last
}

proof fn lemma_block_framed(b: MetadataBlock, is_last: bool)
    requires
        block_bytes(b, is_last) is Ok,
    ensures
        framed(block_bytes(b, is_last)->Ok_0, is_last),
{
    let x = block_bytes(b, is_last)->Ok_0;
    let body = block_body(b)->Ok_0;
    let len = body.len();
    let code = block_type_code(b);
    assert(code < 0x80);
    assert(code < 0x80 ==> (code | 0x80) >= 0x80 && code < 0x80) by (bit_vector);
    assert(x.subrange(1, 4) =~= be_bytes(len as u64, 3));
    let l = len as u64;
    assert((8 * 3nat) as u64 == 24u64);
    assert(l < 0x100_0000 ==> l < (1u64 << 24u64)) by (bit_vector);
    lemma_be_round_trip(l, 3);
}

proof fn lemma_concat_cons(a: Seq<u8>, r: Seq<Seq<u8>>)
    ensures
        concat(seq![a] + r) == a + concat(r),
    decreases r.len(),
{
    if r.len() == 0 {
        assert(seq![a] + r =~= seq![a]);
        assert(seq![a].drop_last() =~= Seq::<Seq<u8>>::empty());
        assert(a + Seq::<u8>::empty() =~= a);
        assert(Seq::<u8>::empty() + a =~= a);
        assert(concat(seq![a]) == concat(seq![a].drop_last()) + a);
    } else {
        assert((seq![a] + r).drop_last() =~= seq![a] + r.drop_last());
        lemma_concat_cons(a, r.drop_last());
        assert((seq![a] + r).last() == r.last());
        assert(a + concat(r.drop_last()) + r.last() =~= a + (concat(r.drop_last()) + r.last()));
    }
}

proof fn lemma_blocks_prefix(info: StreamInfo, bs: Seq<MetadataBlock>, k: nat)
    requires
        k <= bs.len(),
        blocks_bytes(bs, k) is Ok,
    ensures
        blocks_bytes(bs, k)->Ok_0 == concat(encoded_blocks(info, bs).subrange(1, k + 1int)),
        forall|j: int| 0 <= j < k ==> block_bytes(#[trigger] bs[j], j + 1 == bs.len()) is Ok,
    decreases k,
{
    let e = encoded_blocks(info, bs);
    if k == 0 {
        assert(e.subrange(1, 1) =~= Seq::<Seq<u8>>::empty());
    } else {
        lemma_blocks_prefix(info, bs, (k - 1) as nat);
        assert(e.subrange(1, k + 1int).drop_last() =~= e.subrange(1, k as int));
    }
}

/// A prelude is the marker and then its blocks, each of which states its
/// own length; the final block is flagged last and no earlier one is.
pub proof fn lemma_only_last_block_flagged(info: StreamInfo, bs: Seq<MetadataBlock>)
    requires
        stream_header_bytes(info, bs) is Ok,
    ensures
        ({
            let e = encoded_blocks(info, bs);
            &&& stream_header_bytes(info, bs)->Ok_0 == stream_marker() + concat(e)
            &&& forall|j: int| 0 <= j < e.len() ==> framed(#[trigger] e[j], j == bs.len())
        }),
{
    let e = encoded_blocks(info, bs);
    lemma_blocks_prefix(info, bs, bs.len());
    assert(e.subrange(1, bs.len() + 1int) =~= e.drop_first());
    assert(e =~= seq![e[0]] + e.drop_first());
    lemma_concat_cons(e[0], e.drop_first());
    assert forall|j: int| 0 <= j < e.len() implies framed(#[trigger] e[j], j == bs.len()) by {
        if j == 0 {
            lemma_block_framed(MetadataBlock::StreamInfo(info), bs.len() == 0);
        } else {
            assert(block_bytes(bs[j - 1], (j - 1) + 1 == bs.len()) is Ok);
            lemma_block_framed(bs[j - 1], j == bs.len());
        }
    }
}

/// The FLAC picture type of a picture's usage.
pub fn picture_type(usage: Option<PictureKind>) -> (r: u32)
    ensures
        r == picture_type_spec(usage),
{
    match usage {
        None => 0,
        Some(k) => match k {
            PictureKind::FileIcon => 1,
            PictureKind::OtherIcon => 2,
            PictureKind::FrontCover => 3,
            PictureKind::BackCover => 4,
            PictureKind::Leaflet => 5,
            PictureKind::Media => 6,
            PictureKind::LeadArtistPerformerSoloist => 7,
            PictureKind::ArtistPerformer => 8,
            PictureKind::Conductor => 9,
            PictureKind::BandOrchestra => 10,
            PictureKind::Composer => 11,
            PictureKind::Lyricist => 12,
            PictureKind::RecordingLocation => 13,
            PictureKind::RecordingSession => 14,
            PictureKind::Performance => 15,
            PictureKind::ScreenCapture => 16,
            PictureKind::Illustration => 18,
            PictureKind::BandArtistLogo => 19,
            PictureKind::PublisherStudioLogo => 20,
        },
    }
}

fn append_text(out: &mut Vec<u8>, s: &String)
    ensures
        final(out)@ == old(out)@ + text_bytes(*s),
{
    append_slice(out, s.as_str().as_bytes());
}

fn text_len(s: &String) -> (r: usize)
    ensures
        r == text_bytes(*s).len(),
{
    s.as_str().as_bytes().len()
}

fn comment(t: &Tag) -> (r: Vec<u8>)
    ensures
        r@ == comment_bytes(*t),
{
    let mut c: Vec<u8> = Vec::new();
    append_text(&mut c, &t.key);
    c.push(0x3du8);
    append_text(&mut c, &t.value);
    let mut r: Vec<u8> = Vec::new();
    push_le32(&mut r, c.len() as u32);
    append_slice(&mut r, c.as_slice());
    assert(c@ =~= text_bytes(t.key) + seq![0x3du8] + text_bytes(t.value));
    r
}

fn vorbis_comment_body(vendor: &String, tags: &Vec<Tag>) -> (r: Vec<u8>)
    ensures
        r@ == vorbis_comment_bytes(*vendor, tags@),
{
    let mut out: Vec<u8> = Vec::new();
    push_le32(&mut out, text_len(vendor) as u32);
    append_text(&mut out, vendor);
    push_le32(&mut out, tags.len() as u32);
    let ghost head = out@;
    let mut i: usize = 0;
    while i < tags.len()
        invariant
            i <= tags@.len(),
            out@ == head + comments_bytes(tags@, i as nat),
        decreases tags@.len() - i,
    {
        let c = comment(&tags[i]);
        append_slice(&mut out, c.as_slice());
        assert(out@ =~= head + comments_bytes(tags@, (i + 1) as nat));
        i = i + 1;
    }
    assert(out@ =~= vorbis_comment_bytes(*vendor, tags@));
    out
}

fn picture_body(p: &Picture) -> (r: Vec<u8>)
    ensures
        r@ == picture_bytes(*p),
{
    let (w, h) = match p.dimensions {
        Some(d) => d,
        None => (0u32, 0u32),
    };
    let bpp = match p.bits_per_pixel {
        Some(b) => b,
        None => 0,
    };
    let colors = match p.indexed_colors {
        Some(c) => c,
        None => 0,
    };
    let mut out: Vec<u8> = Vec::new();
    push_be(&mut out, picture_type(p.usage) as u64, 4);
    push_be(&mut out, text_len(&p.media_type) as u32 as u64, 4);
    append_text(&mut out, &p.media_type);
    push_be(&mut out, text_len(&p.description) as u32 as u64, 4);
    append_text(&mut out, &p.description);
    push_be(&mut out, w as u64, 4);
    push_be(&mut out, h as u64, 4);
    push_be(&mut out, bpp as u64, 4);
    push_be(&mut out, colors as u64, 4);
    push_be(&mut out, p.data.len() as u32 as u64, 4);
    append_slice(&mut out, p.data.as_slice());
    assert(out@ =~= picture_bytes(*p));
    out
}

/// The body of a block.
fn block_body_of(b: &MetadataBlock) -> (r: Result<Vec<u8>, WriteFlacStreamError>)
    ensures
        match block_body(*b) {
            Ok(x) => r is Ok && r->Ok_0@ == x,
            Err(e) => r == Err::<Vec<u8>, WriteFlacStreamError>(e),
        },
{
    let mut out: Vec<u8> = Vec::new();
    match b {
        MetadataBlock::StreamInfo(info) => match write_streaminfo(&mut out, info) {
            Ok(()) => {},
            Err(e) => return Err(WriteFlacStreamError::StreamInfo(e)),
        },
        MetadataBlock::Padding { length } => write_padding(&mut out, *length),
        MetadataBlock::VorbisComment { vendor, tags } => {
            out = vorbis_comment_body(vendor, tags);
        },
        MetadataBlock::Picture { picture } => {
            out = picture_body(picture);
        },
        _ => return Err(WriteFlacStreamError::Header(WriteMetadataBlockHeaderError::UnknownType)),
    }
    assert(out@ =~= block_body(*b)->Ok_0);
    Ok(out)
}

/// Appends a block header: the last-block flag and the 7-bit type, then
/// the body's length in 24 bits; fails, writing nothing, where the length
/// does not fit.
fn write_metadata_block_header(to: &mut Vec<u8>, is_last: bool, block_type: u8, length: usize) -> (r:
    Result<(), WriteMetadataBlockHeaderError>)
    requires
        block_type < 0x80,
    ensures
        r is Ok <==> length < MAX_BLOCK_LENGTH,
        r is Ok ==> final(to)@ == old(to)@ + block_header_bytes(is_last, block_type, length as nat),
        r is Err ==> final(to)@ == old(to)@ && r->Err_0 == WriteMetadataBlockHeaderError::TooLong,
{
    if length >= MAX_BLOCK_LENGTH {
        return Err(WriteMetadataBlockHeaderError::TooLong);
    }
    let header = if is_last {
        block_type | 0x80
    } else {
        block_type
    };
    to.push(header);
    push_be(to, length as u64, 3);
    assert(to@ =~= old(to)@ + block_header_bytes(is_last, block_type, length as nat));
    Ok(())
}

/// A whole block, header and body.
fn encode_block(b: &MetadataBlock, is_last: bool) -> (r: Result<Vec<u8>, WriteFlacStreamError>)
    ensures
        match block_bytes(*b, is_last) {
            Ok(x) => r is Ok && r->Ok_0@ == x,
            Err(e) => r == Err::<Vec<u8>, WriteFlacStreamError>(e),
        },
{
    let body = match block_body_of(b) {
        Ok(x) => x,
        Err(e) => return Err(e),
    };
    let code: u8 = match b {
        MetadataBlock::StreamInfo(_) => 0,
        MetadataBlock::Padding { .. } => 1,
        MetadataBlock::Application { .. } => 2,
        MetadataBlock::SeekTable => 3,
        MetadataBlock::VorbisComment { .. } => 4,
        MetadataBlock::CueSheet => 5,
        MetadataBlock::Picture { .. } => 6,
        MetadataBlock::Reserved => 127,
    };
    let mut out: Vec<u8> = Vec::new();
    match write_metadata_block_header(&mut out, is_last, code, body.len()) {
        Ok(()) => {},
        Err(e) => return Err(WriteFlacStreamError::Header(e)),
    }
    append_slice(&mut out, body.as_slice());
    Ok(out)
}

/// Appends the header of a FLAC stream to `to`: the bytes `fLaC`, the
/// STREAMINFO block, then `blocks` in order, with only the last block
/// flagged as last. On error `to` is left as it was.
pub fn write_flac_stream_header(
    to: &mut Vec<u8>,
    info: &StreamInfo,
    blocks: &Vec<MetadataBlock>,
) -> (r: Result<(), WriteFlacStreamError>)
    ensures
        match stream_header_bytes(*info, blocks@) {
            Ok(x) => r is Ok && final(to)@ == old(to)@ + x,
            Err(e) => r == Err::<(), WriteFlacStreamError>(e) && final(to)@ == old(to)@,
        },
{
    let first = match encode_block(&MetadataBlock::StreamInfo(*info), blocks.len() == 0) {
        Ok(x) => x,
        Err(e) => return Err(e),
    };
    let mut rest: Vec<u8> = Vec::new();
    let mut i: usize = 0;
    while i < blocks.len()
        invariant
            i <= blocks@.len(),
            blocks_bytes(blocks@, i as nat) == Ok::<Seq<u8>, WriteFlacStreamError>(rest@),
            block_bytes(MetadataBlock::StreamInfo(*info), blocks@.len() == 0) == Ok::<
                Seq<u8>,
                WriteFlacStreamError,
            >(first@),
        decreases blocks@.len() - i,
    {
        let x = match encode_block(&blocks[i], i + 1 == blocks.len()) {
            Ok(x) => x,
            Err(e) => {
                proof {
                    assert(blocks_bytes(blocks@, (i + 1) as nat) == Err::<Seq<u8>, WriteFlacStreamError>(e));
                    lemma_blocks_error_persists(blocks@, (i + 1) as nat);
                }
                return Err(e);
            },
        };
        append_slice(&mut rest, x.as_slice());
        i = i + 1;
    }
    to.push(0x66u8);
    to.push(0x4cu8);
    to.push(0x61u8);
    to.push(0x43u8);
    append_slice(to, first.as_slice());
    append_slice(to, rest.as_slice());
    assert(to@ =~= old(to)@ + (stream_marker() + first@ + rest@));
    Ok(())
}

proof fn lemma_blocks_error_persists(bs: Seq<MetadataBlock>, k: nat)
    requires
        k <= bs.len(),
        blocks_bytes(bs, k) is Err,
    ensures
        blocks_bytes(bs, bs.len()) == blocks_bytes(bs, k),
    decreases bs.len() - k,
{
    if k < bs.len() {
        lemma_blocks_error_persists(bs, k + 1);
    }
}

} // verus!
