//! Rewriting FLAC frames so that a track starts at sample zero.

use vstd::prelude::*;

use crate::crc::{crc16_ansi, crc8_ccitt, footer_crc, header_crc};
use crate::ext_utf8::{
    decode_spec, encode_spec, encoded_width, lemma_decode_prefix, lemma_round_trip,
    utf8_decode_be_u64, utf8_encode_be_u64, UTF8_INT_LIMIT,
};

verus! {

/// Why a frame could not be rewritten.
#[derive(Debug, Clone, Copy, PartialEq, Eq, Structural)]
pub enum FrameError {
    /// The frame ends before a field it must hold.
    Truncated,
    /// The frame or sample number is not a valid extended-UTF-8 sequence.
    InvalidNumber,
    /// The block-size code is the reserved `0b0000`.
    ReservedBlockSize,
    /// The sample-rate code is `0b1111`, which would mimic the sync code.
    InvalidSampleRate,
    /// The frame's number lies before the first frame of the track.
    OffsetBeforeStart,
    /// The rebased number needs more than 36 bits.
    OffsetTooLarge,
}

/// The largest number of samples that one frame can hold.
pub const MAX_BLOCK_SAMPLES: u64 = 65536;

/// Where the fields of a frame's header lie, and what they say.
pub struct FrameLayout {
    /// The frame or sample number.
    pub number: u64,
    /// How many bytes encode the number (it starts at byte 4).
    pub number_len: usize,
    /// How many header bytes precede the header CRC-8.
    pub header_len: usize,
    /// How many samples the frame's block holds.
    pub block_samples: u64,
}

/// The block-size code: the high nibble of the third byte.
pub open spec fn block_size_code(f: Seq<u8>) -> u8 {
    f[2] >> 4
}

/// The sample-rate code: the low nibble of the third byte.
pub open spec fn sample_rate_code(f: Seq<u8>) -> u8 {
    f[2] & 0x0f
}

/// How many bytes follow the number to give the block size.
pub open spec fn block_tail_len(code: u8) -> usize {
    if code == 6 {
        1
    } else if code == 7 {
        2
    } else {
        0
    }
}

/// How many bytes follow the block-size tail to give the sample rate.
pub open spec fn rate_tail_len(code: u8) -> usize {
    if code == 12 {
        1
    } else if code == 13 || code == 14 {
        2
    } else {
        0
    }
}

/// The samples in a block, from its block-size code and tail.
pub open spec fn block_samples_of(code: u8, tail: Seq<u8>) -> u64 {
    if code == 1 {
        192
    } else if code == 2 {
        576
    } else if code == 3 {
        1152
    } else if code == 4 {
        2304
    } else if code == 5 {
        4608
    } else if code == 6 {
        (tail[0] + 1) as u64
    } else if code == 7 {
        (tail[0] * 256 + tail[1] + 1) as u64
    } else if code == 8 {
        256
    } else if code == 9 {
        512
    } else if code == 10 {
        1024
    } else if code == 11 {
        2048
    } else if code == 12 {
        4096
    } else if code == 13 {
        8192
    } else if code == 14 {
        16384
    } else if code == 15 {
        32768
    } else {
        0
    }
}

/// Reads a frame's header in byte order, failing at the first field that is
/// missing or invalid. A frame holds at least its header, the header CRC-8
/// and the two bytes of the footer CRC-16.
pub open spec fn parse_frame(f: Seq<u8>) -> Result<FrameLayout, FrameError> {
    if f.len() < 4 {
        Err(FrameError::Truncated)
    } else {
        match decode_spec(f.subrange(4, f.len() as int)) {
            Err(e) => Err(e),
            Ok((n, w)) => {
                let bc = block_size_code(f);
                let rc = sample_rate_code(f);
                let p = 4 + w;
                let bt = block_tail_len(bc);
                let rt = rate_tail_len(rc);
                if bc == 0 {
                    Err(FrameError::ReservedBlockSize)
                } else if f.len() < p + bt {
                    Err(FrameError::Truncated)
                } else if rc == 15 {
                    Err(FrameError::InvalidSampleRate)
                } else if f.len() < p + bt + rt + 3 {
                    Err(FrameError::Truncated)
                } else {
                    Ok(
                        FrameLayout {
                            number: n,
                            number_len: w,
                            header_len: (p + bt + rt) as usize,
                            block_samples: block_samples_of(bc, f.subrange(p, p + bt)),
                        },
                    )
                }
            },
        }
    }
}

/// A 16-bit value as two big-endian bytes.
pub open spec fn be16(v: u16) -> Seq<u8> {
    seq![(v >> 8) as u8, v as u8]
}

/// The header with its number replaced by `m`: sync and descriptor, the
/// encoding of `m`, then the block-size and sample-rate tails.
pub open spec fn rebased_header(f: Seq<u8>, lay: FrameLayout, m: u64) -> Seq<u8> {
    f.subrange(0, 4) + encode_spec(m) + f.subrange(4 + lay.number_len, lay.header_len as int)
}

/// The rebased frame up to its footer: the header, its fresh CRC-8, and the
/// subframes as they stand.
pub open spec fn rebased_body(f: Seq<u8>, lay: FrameLayout, m: u64) -> Seq<u8> {
    let h = rebased_header(f, lay, m);
    h.push(crc8_ccitt(h)) + f.subrange(lay.header_len + 1, f.len() - 2)
}

/// The rebased frame: its body and the body's fresh CRC-16.
pub open spec fn rebased_frame(f: Seq<u8>, lay: FrameLayout, m: u64) -> Seq<u8> {
    let b = rebased_body(f, lay, m);
    b + be16(crc16_ansi(b))
}

/// The offset that is subtracted from a frame's number: the one recorded,
/// or else the frame's own number.
pub open spec fn base_for(initial: Option<u64>, number: u64) -> u64 {
    match initial {
        Some(b) => b,
        None => number,
    }
}

/// What rewriting frame `f` gives where `initial` is the offset recorded so
/// far: the frame's layout, the offset subtracted, or the error.
pub open spec fn frame_outcome(f: Seq<u8>, initial: Option<u64>) -> Result<
    (FrameLayout, u64),
    FrameError,
> {
    match parse_frame(f) {
        Err(e) => Err(e),
        Ok(lay) => {
            let base = base_for(initial, lay.number);
            if lay.number < base {
                Err(FrameError::OffsetBeforeStart)
            } else if lay.number - base >= UTF8_INT_LIMIT {
                Err(FrameError::OffsetTooLarge)
            } else {
                Ok((lay, base))
            }
        },
    }
}

/// Rewriter state for one output track.
pub struct OffsetFrame {
    /// The number of the track's first frame, once a frame was rewritten.
    pub initial_offset: Option<u64>,
    /// The samples of all blocks rewritten so far.
    pub samples_processed: u64,
}

impl OffsetFrame {
    /// A rewriter that has seen no frame.
    pub fn new() -> (r: OffsetFrame)
        ensures
            r.initial_offset is None,
            r.samples_processed == 0,
    {
        OffsetFrame { initial_offset: None, samples_processed: 0 }
    }

    /// Rewrites one FLAC frame so that its number counts from the track's
    /// first frame, and recomputes both CRCs. The first frame rewritten
    /// fixes the offset. The number is written in its shortest form, so
    /// the frame comes out shorter where the new number needs fewer bytes.
    /// Returns the new frame and whether its header and footer CRCs equal
    /// those of the source frame. The new frame reads back as a frame whose
    /// two CRCs are right; a well-formed frame that already counts from
    /// zero comes back unchanged. On error nothing changes.
    pub fn process(&mut self, frame: &[u8]) -> (r: Result<(Vec<u8>, bool, bool), FrameError>)
        requires
            old(self).samples_processed <= u64::MAX - MAX_BLOCK_SAMPLES,
        ensures
            match frame_outcome(frame@, old(self).initial_offset) {
                Ok((lay, base)) => {
                    &&& r is Ok
                    &&& r->Ok_0.0@ == rebased_frame(frame@, lay, (lay.number - base) as u64)
                    &&& r->Ok_0.1 == (crc8_ccitt(rebased_header(frame@, lay, (lay.number - base) as u64))
                        == frame@[lay.header_len as int])
                    &&& r->Ok_0.2 == (be16(crc16_ansi(rebased_body(frame@, lay, (lay.number - base) as u64)))
                        == frame@.subrange(frame@.len() - 2, frame@.len() as int))
                    &&& final(self).initial_offset == Some(base)
                    &&& final(self).samples_processed == old(self).samples_processed + lay.block_samples
                },
                Err(e) => r == Err::<(Vec<u8>, bool, bool), FrameError>(e) && *final(self) == *old(self),
            },
            r is Ok ==> ({
                let out = r->Ok_0.0@;
                let hl = parse_frame(out)->Ok_0.header_len as int;
                &&& parse_frame(out) is Ok
                &&& out[hl] == crc8_ccitt(out.subrange(0, hl))
                &&& out.subrange(out.len() - 2, out.len() as int) == be16(
                    crc16_ansi(out.subrange(0, out.len() - 2)),
                )
            }),
            well_formed_frame(frame@) && (old(self).initial_offset == Some(0u64) || (
            old(self).initial_offset is None && parse_frame(frame@)->Ok_0.number == 0)) ==> (r is Ok
                && r->Ok_0.0@ == frame@ && r->Ok_0.1 && r->Ok_0.2),
    {
        proof {
            if well_formed_frame(frame@) {
                lemma_zero_offset_identity(frame@);
            }
            if frame_outcome(frame@, old(self).initial_offset) is Ok {
                lemma_rebased_crcs_valid(frame@, old(self).initial_offset);
            }
        }
        let lay = match read_layout(frame) {
            Ok(l) => l,
            Err(e) => return Err(e),
        };
        let base = match self.initial_offset {
            Some(b) => b,
            None => lay.number,
        };
        if lay.number < base {
            return Err(FrameError::OffsetBeforeStart);
        }
        let enc = match utf8_encode_be_u64(lay.number - base) {
            Ok(v) => v,
            Err(e) => return Err(e),
        };
        let (out, header_same, footer_same) = rebase(frame, &lay, &enc, Ghost((lay.number - base) as u64));
        self.initial_offset = Some(base);
        self.samples_processed = self.samples_processed + lay.block_samples;
        Ok((out, header_same, footer_same))
    }

    /// Rewrites `frames` in order, appending each rewritten frame to `out`,
    /// and stops at the first frame that fails.
    pub fn process_all(&mut self, frames: &Vec<Vec<u8>>, out: &mut Vec<u8>) -> (r: Result<
        (),
        FrameError,
    >)
        requires
            old(self).samples_processed + frames@.len() * MAX_BLOCK_SAMPLES <= u64::MAX,
        ensures
            match rewrite_frames(frames.deep_view(), old(self).initial_offset) {
                Ok((bytes, start, samples)) => {
                    &&& r is Ok
                    &&& final(out)@ == old(out)@ + bytes
                    &&& final(self).initial_offset == start
                    &&& final(self).samples_processed == old(self).samples_processed + samples
                },
                Err(e) => {
                    &&& r == Err::<(), FrameError>(e)
                    &&& exists|k: int|
                        0 <= k < frames@.len() && #[trigger] failed_at(
                            frames.deep_view(),
                            old(self).initial_offset,
                            k,
                            e,
                        ) && final(out)@ == old(out)@ + rewrite_frames(
                            frames.deep_view().take(k),
                            old(self).initial_offset,
                        )->Ok_0.0 && final(self).initial_offset == rewrite_frames(
                            frames.deep_view().take(k),
                            old(self).initial_offset,
                        )->Ok_0.1 && final(self).samples_processed == old(self).samples_processed
                            + rewrite_frames(frames.deep_view().take(k), old(self).initial_offset)->Ok_0.2
                },
            },
    {
        let ghost dv = frames.deep_view();
        let ghost init = self.initial_offset;
        let ghost samples0 = self.samples_processed;
        let mut i: usize = 0;
        assert(dv.take(0) =~= Seq::<Seq<u8>>::empty());
        while i < frames.len()
            invariant
                i <= frames@.len(),
                dv == frames.deep_view(),
                dv.len() == frames@.len(),
                init == old(self).initial_offset,
                samples0 == old(self).samples_processed,
                samples0 + frames@.len() * MAX_BLOCK_SAMPLES <= u64::MAX,
                rewrite_frames(dv.take(i as int), init) is Ok,
                out@ == old(out)@ + rewrite_frames(dv.take(i as int), init)->Ok_0.0,
                self.initial_offset == rewrite_frames(dv.take(i as int), init)->Ok_0.1,
                self.samples_processed == samples0 + rewrite_frames(dv.take(i as int), init)->Ok_0.2,
                self.samples_processed <= samples0 + i * MAX_BLOCK_SAMPLES,
            decreases frames@.len() - i,
        {
            let ghost next = dv.take(i + 1);
            assert(next.drop_last() =~= dv.take(i as int));
            assert(next.last() == frames@[i as int]@);
            let (bytes, _, _) = match self.process(frames[i].as_slice()) {
                Ok(v) => v,
                Err(e) => {
                    proof {
                        lemma_error_persists(dv, init, (i + 1) as nat);
                        assert(failed_at(dv, init, i as int, e));
                    }
                    return Err(e);
                },
            };
            append_range(out, bytes.as_slice(), 0, bytes.len());
            i = i + 1;
        }
        assert(dv.take(i as int) =~= dv);
        Ok(())
    }
}

/// A frame as a correct encoder writes it: its header reads, its number is
/// in the shortest form, and both of its CRCs are right.
pub open spec fn well_formed_frame(f: Seq<u8>) -> bool {
    &&& parse_frame(f) is Ok
    &&& f.subrange(4, 4 + parse_frame(f)->Ok_0.number_len) == encode_spec(parse_frame(f)->Ok_0.number)
    &&& f[parse_frame(f)->Ok_0.header_len as int] == crc8_ccitt(
        f.subrange(0, parse_frame(f)->Ok_0.header_len as int),
    )
    &&& f.subrange(f.len() - 2, f.len() as int) == be16(crc16_ansi(f.subrange(0, f.len() - 2)))
}

/// A frame that already counts from zero, whose number is in its shortest
/// encoding and whose two CRCs are correct, comes out of the rewriter
/// byte for byte as it went in: with a recorded offset of zero, and as the
/// first frame of a track where its number is zero.
pub proof fn lemma_zero_offset_identity(f: Seq<u8>)
    requires
        well_formed_frame(f),
    ensures
        frame_outcome(f, Some(0u64)) == Ok::<(FrameLayout, u64), FrameError>(
            (parse_frame(f)->Ok_0, 0u64),
        ),
        parse_frame(f)->Ok_0.number == 0 ==> frame_outcome(f, None) == Ok::<
            (FrameLayout, u64),
            FrameError,
        >((parse_frame(f)->Ok_0, 0u64)),
        rebased_frame(f, parse_frame(f)->Ok_0, parse_frame(f)->Ok_0.number) == f,
        crc8_ccitt(rebased_header(f, parse_frame(f)->Ok_0, parse_frame(f)->Ok_0.number))
            == f[parse_frame(f)->Ok_0.header_len as int],
        be16(crc16_ansi(rebased_body(f, parse_frame(f)->Ok_0, parse_frame(f)->Ok_0.number)))
            == f.subrange(f.len() - 2, f.len() as int),
{
    let lay = parse_frame(f)->Ok_0;
    let n = lay.number;
    let w = lay.number_len;
    let hl = lay.header_len as int;
    reveal_with_fuel(decode_spec, 1);
    assert(w >= 1);
    assert(f.subrange(4, 4 + w).len() == w);
    assert(encode_spec(n).len() == encoded_width(n));
    assert(n < UTF8_INT_LIMIT);
    let h = rebased_header(f, lay, n);
    assert(h =~= f.subrange(0, hl));
    let b = rebased_body(f, lay, n);
    assert(b =~= f.subrange(0, f.len() - 2));
    assert(rebased_frame(f, lay, n) =~= f);
}

/// Every rewritten frame reads back as a frame whose header CRC-8 is the
/// CRC of the header bytes before it, and whose footer CRC-16 is the CRC of
/// all bytes before it, the new header CRC-8 among them.
pub proof fn lemma_rebased_crcs_valid(f: Seq<u8>, initial: Option<u64>)
    requires
        frame_outcome(f, initial) is Ok,
    ensures
        ({
            let (lay, base) = frame_outcome(f, initial)->Ok_0;
            let out = rebased_frame(f, lay, (lay.number - base) as u64);
            &&& parse_frame(out) is Ok
            &&& parse_frame(out)->Ok_0.number == lay.number - base
            &&& parse_frame(out)->Ok_0.block_samples == lay.block_samples
            &&& out[parse_frame(out)->Ok_0.header_len as int] == crc8_ccitt(
                out.subrange(0, parse_frame(out)->Ok_0.header_len as int),
            )
            &&& out.subrange(out.len() - 2, out.len() as int) == be16(
                crc16_ansi(out.subrange(0, out.len() - 2)),
            )
        }),
{
    let (lay, base) = frame_outcome(f, initial)->Ok_0;
    let m = (lay.number - base) as u64;
    let out = rebased_frame(f, lay, m);
    let h = rebased_header(f, lay, m);
    let b = rebased_body(f, lay, m);
    let w = lay.number_len;
    let w2 = encoded_width(m);
    let hl = lay.header_len as int;
    let hl2 = h.len() as int;
    lemma_round_trip(m);
    reveal_with_fuel(decode_spec, 1);
    let bc = block_size_code(f);
    let rc = sample_rate_code(f);
    let bt = block_tail_len(bc);
    let rt = rate_tail_len(rc);
    assert(hl == 4 + w + bt + rt);
    assert(hl2 == 4 + w2 + bt + rt);
    assert(out.len() == hl2 + f.len() - hl);
    assert(out[2] == f[2]);
    let tail = out.subrange(4, out.len() as int);
    assert(tail.subrange(0, w2 as int) =~= encode_spec(m));
    lemma_decode_prefix(tail, m);
    assert(out.subrange(4 + w2, 4 + w2 + bt) =~= f.subrange(4 + w, 4 + w + bt));
    assert(out.subrange(0, hl2) =~= h);
    assert(out[hl2] == crc8_ccitt(h));
    assert(out.subrange(0, out.len() - 2) =~= b);
    assert(out.subrange(out.len() - 2, out.len() as int) =~= be16(crc16_ansi(b)));
}

/// Rewriting `frames` in order, starting from the recorded offset
/// `initial`: the concatenated output, the offset recorded at the end, and
/// the samples of all blocks; or the first error.
pub open spec fn rewrite_frames(frames: Seq<Seq<u8>>, initial: Option<u64>) -> Result<
    (Seq<u8>, Option<u64>, int),
    FrameError,
>
    decreases frames.len(),
{
    if frames.len() == 0 {
        Ok((Seq::empty(), initial, 0))
    } else {
        match rewrite_frames(frames.drop_last(), initial) {
            Err(e) => Err(e),
            Ok((acc, start, samples)) => match frame_outcome(frames.last(), start) {
                Err(e) => Err(e),
                Ok((lay, base)) => Ok(
                    (
                        acc + rebased_frame(frames.last(), lay, (lay.number - base) as u64),
                        Some(base),
                        samples + lay.block_samples,
                    ),
                ),
            },
        }
    }
}

/// The frames before `k` rewrite without error, and frame `k` then fails
/// with `e`.
pub open spec fn failed_at(frames: Seq<Seq<u8>>, initial: Option<u64>, k: int, e: FrameError) -> bool {
    &&& rewrite_frames(frames.take(k), initial) is Ok
    &&& frame_outcome(frames[k], rewrite_frames(frames.take(k), initial)->Ok_0.1) == Err::<
        (FrameLayout, u64),
        FrameError,
    >(e)
}

/// The samples of the blocks of `frames`, read from their headers.
pub open spec fn total_block_samples(frames: Seq<Seq<u8>>) -> int
    decreases frames.len(),
{
    if frames.len() == 0 {
        0
    } else {
        total_block_samples(frames.drop_last()) + parse_frame(frames.last())->Ok_0.block_samples
    }
}

/// After a sequence of frames is rewritten, the samples counted are the sum
/// of their blocks' sample counts.
pub proof fn lemma_samples_accumulate(frames: Seq<Seq<u8>>, initial: Option<u64>)
    requires
        rewrite_frames(frames, initial) is Ok,
    ensures
        rewrite_frames(frames, initial)->Ok_0.2 == total_block_samples(frames),
    decreases frames.len(),
{
    if frames.len() > 0 {
        lemma_samples_accumulate(frames.drop_last(), initial);
    }
}

proof fn lemma_error_persists(frames: Seq<Seq<u8>>, initial: Option<u64>, j: nat)
    requires
        j <= frames.len(),
        rewrite_frames(frames.take(j as int), initial) is Err,
    ensures
        rewrite_frames(frames, initial) == rewrite_frames(frames.take(j as int), initial),
    decreases frames.len(),
{
    if j == frames.len() {
        assert(frames.take(j as int) =~= frames);
    } else {
        assert(frames.drop_last().take(j as int) =~= frames.take(j as int));
        lemma_error_persists(frames.drop_last(), initial, j);
    }
}

/// Reads the layout of a frame's header.
fn read_layout(frame: &[u8]) -> (r: Result<FrameLayout, FrameError>)
    ensures
        r == parse_frame(frame@),
        r is Ok ==> r->Ok_0.block_samples <= MAX_BLOCK_SAMPLES,
{
    let len = frame.len();
    if len < 4 {
        return Err(FrameError::Truncated);
    }
    let (number, w) = match utf8_decode_be_u64(frame, 4) {
        Ok(p) => p,
        Err(e) => return Err(e),
    };
    let bc = frame[2] >> 4;
    let rc = frame[2] & 0x0f;
    if bc == 0 {
        return Err(FrameError::ReservedBlockSize);
    }
    let p = 4 + w;
    let bt: usize = if bc == 6 {
        1
    } else if bc == 7 {
        2
    } else {
        0
    };
    if len - p < bt {
        return Err(FrameError::Truncated);
    }
    if rc == 15 {
        return Err(FrameError::InvalidSampleRate);
    }
    let rt: usize = if rc == 12 {
        1
    } else if rc == 13 || rc == 14 {
        2
    } else {
        0
    };
    if len - p - bt < rt + 3 {
        return Err(FrameError::Truncated);
    }
    let samples = block_samples(bc, frame, p);
    Ok(FrameLayout { number, number_len: w, header_len: p + bt + rt, block_samples: samples })
}

/// Builds the rebased frame from the source frame and the encoding `enc`
/// of its new number `m`, with whether each CRC kept its old value.
fn rebase(frame: &[u8], lay: &FrameLayout, enc: &Vec<u8>, m: Ghost<u64>) -> (r: (Vec<u8>, bool, bool))
    requires
        parse_frame(frame@) == Ok::<FrameLayout, FrameError>(*lay),
        enc@ == encode_spec(m@),
    ensures
        r.0@ == rebased_frame(frame@, *lay, m@),
        r.1 == (crc8_ccitt(rebased_header(frame@, *lay, m@)) == frame@[lay.header_len as int]),
        r.2 == (be16(crc16_ansi(rebased_body(frame@, *lay, m@))) == frame@.subrange(
            frame@.len() - 2,
            frame@.len() as int,
        )),
{
    let len = frame.len();
    let hl = lay.header_len;
    let mut out: Vec<u8> = Vec::with_capacity(len);
    append_range(&mut out, frame, 0, 4);
    append_range(&mut out, enc.as_slice(), 0, enc.len());
    append_range(&mut out, frame, 4 + lay.number_len, hl);
    assert(out@ =~= rebased_header(frame@, *lay, m@));
    let hcrc = header_crc(out.as_slice());
    out.push(hcrc);
    append_range(&mut out, frame, hl + 1, len - 2);
    assert(out@ =~= rebased_body(frame@, *lay, m@));
    let fcrc = footer_crc(out.as_slice());
    out.push((fcrc >> 8) as u8);
    out.push(fcrc as u8);
    assert(out@ =~= rebased_frame(frame@, *lay, m@));
    let header_same = hcrc == frame[hl];
    let footer_same = (fcrc >> 8) as u8 == frame[len - 2] && fcrc as u8 == frame[len - 1];
    assert(footer_same == (be16(fcrc) == frame@.subrange(len - 2, len as int))) by {
        if footer_same {
            assert(be16(fcrc) =~= frame@.subrange(len - 2, len as int));
        } else if be16(fcrc) == frame@.subrange(len - 2, len as int) {
            assert(be16(fcrc)[0] == frame@.subrange(len - 2, len as int)[0]);
            assert(be16(fcrc)[1] == frame@.subrange(len - 2, len as int)[1]);
        }
    }
    (out, header_same, footer_same)
}

impl Default for OffsetFrame {
    fn default() -> (r: OffsetFrame)
        ensures
            r.initial_offset is None,
            r.samples_processed == 0,
    {
        OffsetFrame::new()
    }
}

/// The samples in the block of `frame`, whose block-size code is `code` and
/// whose block-size tail starts at `pos`.
fn block_samples(code: u8, frame: &[u8], pos: usize) -> (r: u64)
    requires
        pos + block_tail_len(code) <= frame@.len(),
    ensures
        r == block_samples_of(
            code,
            frame@.subrange(pos as int, pos + block_tail_len(code)),
        ),
        r <= MAX_BLOCK_SAMPLES,
{
    let ghost tail = frame@.subrange(pos as int, pos + block_tail_len(code));
    if code == 1 {
        192
    } else if code == 2 {
        576
    } else if code == 3 {
        1152
    } else if code == 4 {
        2304
    } else if code == 5 {
        4608
    } else if code == 6 {
        assert(tail[0] == frame[pos as int]);
        frame[pos] as u64 + 1
    } else if code == 7 {
        assert(tail[0] == frame[pos as int] && tail[1] == frame[pos + 1]);
        frame[pos] as u64 * 256 + frame[pos + 1] as u64 + 1
    } else if code == 8 {
        256
    } else if code == 9 {
        512
    } else if code == 10 {
        1024
    } else if code == 11 {
        2048
    } else if code == 12 {
        4096
    } else if code == 13 {
        8192
    } else if code == 14 {
        16384
    } else if code == 15 {
        32768
    } else {
        0
    }
}

/// Appends `src[from..to]` to `out`.
fn append_range(out: &mut Vec<u8>, src: &[u8], from: usize, to: usize)
    requires
        from <= to <= src@.len(),
    ensures
        final(out)@ == old(out)@ + src@.subrange(from as int, to as int),
{
    let mut i = from;
    while i < to
        invariant
            from <= i <= to <= src@.len(),
            out@ == old(out)@ + src@.subrange(from as int, i as int),
        decreases to - i,
    {
        out.push(src[i]);
        assert(out@ =~= old(out)@ + src@.subrange(from as int, i + 1));
        i = i + 1;
    }
}

} // verus!
