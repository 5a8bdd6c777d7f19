//! The STREAMINFO metadata block.

use vstd::prelude::*;

use crate::bytes::{be_bytes, be_value, lemma_be_round_trip, push_be};

verus! {

/// The FLAC STREAMINFO block, as plain values.
#[derive(Debug, Clone, Copy, PartialEq, Eq)]
pub struct StreamInfo {
    /// The fewest samples per block.
    pub block_len_min: u16,
    /// The most samples per block.
    pub block_len_max: u16,
    /// The fewest bytes in a frame (0 when unknown); 24 bits.
    pub frame_byte_len_min: u32,
    /// The most bytes in a frame (0 when unknown); 24 bits.
    pub frame_byte_len_max: u32,
    /// Samples per second, 1 to 655350.
    pub sample_rate: u32,
    /// The number of channels, 1 to 8.
    pub channels: u32,
    /// Bits per sample, 4 to 32.
    pub bits_per_sample: u32,
    /// Samples per channel in the stream, if known; 36 bits.
    pub n_samples: Option<u64>,
    /// The MD5 of the decoded audio, if known.
    pub md5: Option<[u8; 16]>,
}

/// Why a STREAMINFO block could not be written.
#[derive(Debug, Clone, Copy, PartialEq, Eq, Structural)]
pub enum WriteStreamInfoError {
    /// A field does not fit the width or the range that the block gives it.
    FieldOutOfRange,
}

/// The byte length of a STREAMINFO block's body.
pub const STREAMINFO_BYTE_LENGTH: u32 = 34;

/// The fields fit the widths and ranges of the block.
pub open spec fn fits(info: StreamInfo) -> bool {
    &&& info.frame_byte_len_min < 0x100_0000
    &&& info.frame_byte_len_max < 0x100_0000
    &&& 1 <= info.sample_rate <= 655350
    &&& 1 <= info.channels <= 8
    &&& 4 <= info.bits_per_sample <= 32
    &&& (info.n_samples matches Some(n) ==> n < 0x10_0000_0000)
}

/// The total sample count as written: 0 stands for unknown.
pub open spec fn samples_field(info: StreamInfo) -> u64 {
    match info.n_samples {
        Some(n) => n,
        None => 0,
    }
}

/// The MD5 as written: sixteen zero bytes stand for unknown.
pub open spec fn md5_field(info: StreamInfo) -> Seq<u8> {
    match info.md5 {
        Some(m) => m@,
        None => Seq::new(16, |i: int| 0u8),
    }
}

/// The 64 packed bits: 20 of sample rate, 3 of channels less one, 5 of
/// bits per sample less one, 36 of total samples.
pub open spec fn packed_field(info: StreamInfo) -> u64 {
    ((info.sample_rate as u64) << 44u64) | (((info.channels - 1) as u64) << 41u64) | ((
    (info.bits_per_sample - 1) as u64) << 36u64) | samples_field(info)
}

/// The 34 bytes of a STREAMINFO block's body, big-endian throughout.
pub open spec fn streaminfo_bytes(info: StreamInfo) -> Seq<u8> {
    be_bytes(info.block_len_min as u64, 2) + be_bytes(info.block_len_max as u64, 2) + be_bytes(
        info.frame_byte_len_min as u64,
        3,
    ) + be_bytes(info.frame_byte_len_max as u64, 3) + be_bytes(packed_field(info), 8)
        + md5_field(info)
}

/// Checks that the fields fit the block.
pub fn streaminfo_fits(info: &StreamInfo) -> (r: bool)
    ensures
        r == fits(*info),
{
    let samples_fit = match info.n_samples {
        Some(n) => n < 0x10_0000_0000,
        None => true,
    };
    info.frame_byte_len_min < 0x100_0000 && info.frame_byte_len_max < 0x100_0000 && 1
        <= info.sample_rate && info.sample_rate <= 655350 && 1 <= info.channels
        && info.channels <= 8 && 4 <= info.bits_per_sample && info.bits_per_sample <= 32
        && samples_fit
}

/// Appends the 34-byte body of a STREAMINFO block to `to`; fails, writing
/// nothing, where a field does not fit.
pub fn write_streaminfo(to: &mut Vec<u8>, info: &StreamInfo) -> (r: Result<(), WriteStreamInfoError>)
    ensures
        fits(*info) <==> r is Ok,
        r is Ok ==> final(to)@ == old(to)@ + streaminfo_bytes(*info),
        r is Err ==> final(to)@ == old(to)@ && r->Err_0 == WriteStreamInfoError::FieldOutOfRange,
{
    if !streaminfo_fits(info) {
        return Err(WriteStreamInfoError::FieldOutOfRange);
    }
    push_be(to, info.block_len_min as u64, 2);
    push_be(to, info.block_len_max as u64, 2);
    push_be(to, info.frame_byte_len_min as u64, 3);
    push_be(to, info.frame_byte_len_max as u64, 3);
    let samples: u64 = match info.n_samples {
        Some(n) => n,
        None => 0,
    };
    let packed: u64 = ((info.sample_rate as u64) << 44u64) | (((info.channels - 1) as u64)
        << 41u64) | (((info.bits_per_sample - 1) as u64) << 36u64) | samples;
    push_be(to, packed, 8);
    let ghost before_md5 = to@;
    match info.md5 {
        Some(m) => {
            let mut i: usize = 0;
            while i < 16
                invariant
                    i <= 16,
                    m@.len() == 16,
                    to@ == before_md5 + m@.subrange(0, i as int),
                decreases 16 - i,
            {
                to.push(m[i]);
                assert(to@ =~= before_md5 + m@.subrange(0, i + 1));
                i = i + 1;
            }
            assert(m@.subrange(0, 16) =~= m@);
        },
        None => {
            let mut i: usize = 0;
            while i < 16
                invariant
                    i <= 16,
                    to@ == before_md5 + Seq::new(i as nat, |j: int| 0u8),
                decreases 16 - i,
            {
                to.push(0u8);
                assert(to@ =~= before_md5 + Seq::new((i + 1) as nat, |j: int| 0u8));
                i = i + 1;
            }
        },
    }
    assert(to@ =~= old(to)@ + streaminfo_bytes(*info));
    Ok(())
}

/// Reading a STREAMINFO body back field by field gives the fields it was
/// written from: the block and frame sizes, the sample rate, the channels,
/// the bits per sample, the total samples (0 when unknown) and the MD5
/// (zeros when unknown).
pub proof fn lemma_streaminfo_read_back(info: StreamInfo)
    requires
        fits(info),
    ensures
        ({
            let b = streaminfo_bytes(info);
            let packed = be_value(b.subrange(10, 18), 8);
            &&& b.len() == STREAMINFO_BYTE_LENGTH
            &&& be_value(b.subrange(0, 2), 2) == info.block_len_min
            &&& be_value(b.subrange(2, 4), 2) == info.block_len_max
            &&& be_value(b.subrange(4, 7), 3) == info.frame_byte_len_min
            &&& be_value(b.subrange(7, 10), 3) == info.frame_byte_len_max
            &&& packed >> 44u64 == info.sample_rate
            &&& (packed >> 41u64) & 7 == info.channels - 1
            &&& (packed >> 36u64) & 0x1f == info.bits_per_sample - 1
            &&& packed & 0xf_ffff_ffff == samples_field(info)
            &&& b.subrange(18, 34) == md5_field(info)
        }),
{
    let b = streaminfo_bytes(info);
    let p = packed_field(info);
    assert(b.subrange(0, 2) =~= be_bytes(info.block_len_min as u64, 2));
    assert(b.subrange(2, 4) =~= be_bytes(info.block_len_max as u64, 2));
    assert(b.subrange(4, 7) =~= be_bytes(info.frame_byte_len_min as u64, 3));
    assert(b.subrange(7, 10) =~= be_bytes(info.frame_byte_len_max as u64, 3));
    assert(b.subrange(10, 18) =~= be_bytes(p, 8));
    assert(b.subrange(18, 34) =~= md5_field(info));
    let a = info.block_len_min as u64;
    let c = info.block_len_max as u64;
    let d = info.frame_byte_len_min as u64;
    let e = info.frame_byte_len_max as u64;
    assert(a < 0x1_0000 ==> a < (1u64 << 16u64)) by (bit_vector);
    assert(c < 0x1_0000 ==> c < (1u64 << 16u64)) by (bit_vector);
    assert(d < 0x100_0000 ==> d < (1u64 << 24u64)) by (bit_vector);
    assert(e < 0x100_0000 ==> e < (1u64 << 24u64)) by (bit_vector);
    lemma_be_round_trip(a, 2);
    lemma_be_round_trip(c, 2);
    lemma_be_round_trip(d, 3);
    lemma_be_round_trip(e, 3);
    lemma_be_round_trip(p, 8);
    let sr = info.sample_rate as u64;
    let ch = (info.channels - 1) as u64;
    let bps = (info.bits_per_sample - 1) as u64;
    let n = samples_field(info);
    assert(sr < 0x10_0000 && ch < 8 && bps < 32 && n < 0x10_0000_0000 ==> ({
        let q = (sr << 44u64) | (ch << 41u64) | (bps << 36u64) | n;
        &&& q >> 44u64 == sr
        &&& (q >> 41u64) & 7 == ch
        &&& (q >> 36u64) & 0x1f == bps
        &&& q & 0xf_ffff_ffff == n
    })) by (bit_vector);
}

/// Overriding the MD5 and the total sample count of a STREAMINFO block.
pub trait StreamInfoWriteExt: Sized {
    /// Overrides the MD5 sum of the stream.
    fn with_md5(self, md5sum: [u8; 16]) -> Self;

    /// Sets the MD5 to the "unknown" value, sixteen zero bytes.
    fn without_md5(self) -> Self;

    /// Overrides the number of samples in the stream.
    fn with_samples(self, samples: Option<u64>) -> Self;

    /// Sets the sample count to the "unknown" value.
    fn without_samples(self) -> Self;
}

impl StreamInfoWriteExt for StreamInfo {
    fn with_md5(self, md5sum: [u8; 16]) -> (r: StreamInfo)
        ensures
            r == (StreamInfo { md5: Some(md5sum), ..self }),
    {
        StreamInfo { md5: Some(md5sum), ..self }
    }

    fn without_md5(self) -> (r: StreamInfo)
        ensures
            r == (StreamInfo { md5: r.md5, ..self }),
            r.md5 is Some,
            r.md5->Some_0@ == Seq::new(16, |i: int| 0u8),
    {
        let r = self.with_md5([0u8; 16]);
        assert(r.md5->Some_0@ =~= Seq::new(16, |i: int| 0u8));
        r
    }

    fn with_samples(self, samples: Option<u64>) -> (r: StreamInfo)
        ensures
            r == (StreamInfo { n_samples: samples, ..self }),
    {
        StreamInfo { n_samples: samples, ..self }
    }

    fn without_samples(self) -> (r: StreamInfo)
        ensures
            r == (StreamInfo { n_samples: None, ..self }),
    {
        self.with_samples(None)
    }
}

} // verus!
