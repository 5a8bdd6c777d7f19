//! The variable-width big-endian integer that FLAC frame headers use for
//! frame and sample numbers: UTF-8's prefix scheme stretched to 7 bytes,
//! which carries up to 36 bits.

use vstd::prelude::*;

use crate::frame::FrameError;

verus! {

/// The largest value (exclusive) that the 7-byte form can carry.
pub const UTF8_INT_LIMIT: u64 = 0x10_0000_0000;

/// How many bytes a sequence starting with `b0` occupies; 0 for a byte that
/// cannot start one.
pub open spec fn width_of_lead(b0: u8) -> usize {
    if b0 <= 0x7f {
        1
    } else if 0xc0 <= b0 && b0 <= 0xdf {
        2
    } else if 0xe0 <= b0 && b0 <= 0xef {
        3
    } else if 0xf0 <= b0 && b0 <= 0xf7 {
        4
    } else if 0xf8 <= b0 && b0 <= 0xfb {
        5
    } else if 0xfc <= b0 && b0 <= 0xfd {
        6
    } else if b0 == 0xfe {
        7
    } else {
        0
    }
}

/// The data bits of the leading byte of a `w`-byte sequence.
pub open spec fn lead_mask(w: usize) -> u8 {
    if w == 1 {
        0x7f
    } else if w == 2 {
        0x1f
    } else if w == 3 {
        0x0f
    } else if w == 4 {
        0x07
    } else if w == 5 {
        0x03
    } else if w == 6 {
        0x01
    } else {
        0x00
    }
}

/// The length prefix of the leading byte of a `w`-byte sequence.
pub open spec fn lead_prefix(w: usize) -> u8 {
    if w == 2 {
        0xc0
    } else if w == 3 {
        0xe0
    } else if w == 4 {
        0xf0
    } else if w == 5 {
        0xf8
    } else if w == 6 {
        0xfc
    } else if w == 7 {
        0xfe
    } else {
        0x00
    }
}

/// A continuation byte has the form `0b10xx_xxxx`.
pub open spec fn is_continuation(b: u8) -> bool {
    b & 0xc0 == 0x80
}

/// The smallest width that holds `x`, from its count of significant bits:
/// up to 7 bits in 1 byte, 11 in 2, 16 in 3, 21 in 4, 26 in 5, 31 in 6,
/// 36 in 7; 0 where `x` needs more than 36 bits.
pub open spec fn encoded_width(x: u64) -> usize {
    if x < 0x80 {
        1
    } else if x < 0x800 {
        2
    } else if x < 0x1_0000 {
        3
    } else if x < 0x20_0000 {
        4
    } else if x < 0x400_0000 {
        5
    } else if x < 0x8000_0000 {
        6
    } else if x < 0x10_0000_0000 {
        7
    } else {
        0
    }
}

/// How far `x` is shifted right to give the data bits of byte `i` of a
/// `w`-byte sequence.
pub open spec fn shift_of(w: usize, i: int) -> u64 {
    (6 * (w - 1 - i)) as u64
}

/// The encoding of `x`: the leading byte carries the length prefix and the
/// most significant bits, each further byte `0b10` and six more bits.
pub open spec fn encode_spec(x: u64) -> Seq<u8> {
    let w = encoded_width(x);
    Seq::new(
        w as nat,
        |i: int|
            if i == 0 {
                (lead_prefix(w) as u64 | (x >> shift_of(w, 0))) as u8
            } else {
                (0x80u64 | ((x >> shift_of(w, i)) & 0x3f)) as u8
            },
    )
}

/// The value that the first `k` bytes of `s` spell: the data bits of the
/// leading byte, then six bits from each continuation byte, most
/// significant first.
pub open spec fn fold_bytes(s: Seq<u8>, k: nat) -> u64
    decreases k,
{
    if k <= 1 {
        (s[0] & lead_mask(width_of_lead(s[0]))) as u64
    } else {
        (fold_bytes(s, (k - 1) as nat) << 6) | ((s[k - 1] & 0x3f) as u64)
    }
}

/// Decoding the sequence at the start of `s`: its value and width.
pub open spec fn decode_spec(s: Seq<u8>) -> Result<(u64, usize), FrameError> {
    if s.len() == 0 {
        Err(FrameError::Truncated)
    } else {
        let w = width_of_lead(s[0]);
        if w == 0 {
            Err(FrameError::InvalidNumber)
        } else if s.len() < w {
            Err(FrameError::Truncated)
        } else if exists|j: int| 1 <= j < w && !is_continuation(#[trigger] s[j]) {
            Err(FrameError::InvalidNumber)
        } else {
            Ok((fold_bytes(s, w as nat), w))
        }
    }
}

fn lead_width(b0: u8) -> (w: usize)
    ensures
        w == width_of_lead(b0),
{
    if b0 <= 0x7f {
        1
    } else if 0xc0 <= b0 && b0 <= 0xdf {
        2
    } else if 0xe0 <= b0 && b0 <= 0xef {
        3
    } else if 0xf0 <= b0 && b0 <= 0xf7 {
        4
    } else if 0xf8 <= b0 && b0 <= 0xfb {
        5
    } else if 0xfc <= b0 && b0 <= 0xfd {
        6
    } else if b0 == 0xfe {
        7
    } else {
        0
    }
}

fn mask_for(w: usize) -> (m: u8)
    ensures
        m == lead_mask(w),
{
    if w == 1 {
        0x7f
    } else if w == 2 {
        0x1f
    } else if w == 3 {
        0x0f
    } else if w == 4 {
        0x07
    } else if w == 5 {
        0x03
    } else if w == 6 {
        0x01
    } else {
        0x00
    }
}

fn prefix_for(w: usize) -> (p: u8)
    ensures
        p == lead_prefix(w),
{
    if w == 2 {
        0xc0
    } else if w == 3 {
        0xe0
    } else if w == 4 {
        0xf0
    } else if w == 5 {
        0xf8
    } else if w == 6 {
        0xfc
    } else if w == 7 {
        0xfe
    } else {
        0x00
    }
}

fn width_for(x: u64) -> (w: usize)
    ensures
        w == encoded_width(x),
{
    if x < 0x80 {
        1
    } else if x < 0x800 {
        2
    } else if x < 0x1_0000 {
        3
    } else if x < 0x20_0000 {
        4
    } else if x < 0x400_0000 {
        5
    } else if x < 0x8000_0000 {
        6
    } else if x < 0x10_0000_0000 {
        7
    } else {
        0
    }
}

/// Decodes the integer that starts at `buf[pos]`, returning its value and
/// the number of bytes it occupies. Continuation bytes are checked.
pub fn utf8_decode_be_u64(buf: &[u8], pos: usize) -> (r: Result<(u64, usize), FrameError>)
    requires
        pos <= buf@.len(),
    ensures
        r == decode_spec(buf@.subrange(pos as int, buf@.len() as int)),
{
    let ghost s = buf@.subrange(pos as int, buf@.len() as int);
    if pos >= buf.len() {
        return Err(FrameError::Truncated);
    }
    let b0 = buf[pos];
    assert(s[0] == b0);
    let w = lead_width(b0);
    if w == 0 {
        return Err(FrameError::InvalidNumber);
    }
    if buf.len() - pos < w {
        return Err(FrameError::Truncated);
    }
    let mut state: u64 = (b0 & mask_for(w)) as u64;
    let mut k: usize = 1;
    while k < w
        invariant
            1 <= k <= w <= 7,
            w == width_of_lead(s[0]),
            s.len() >= w,
            pos + w <= buf@.len() <= usize::MAX,
            s == buf@.subrange(pos as int, buf@.len() as int),
            state == fold_bytes(s, k as nat),
            forall|j: int| 1 <= j < k ==> is_continuation(#[trigger] s[j]),
        decreases w - k,
    {
        let b = buf[pos + k];
        assert(s[k as int] == b);
        if b & 0xc0 != 0x80 {
            assert(!is_continuation(s[k as int]));
            return Err(FrameError::InvalidNumber);
        }
        state = (state << 6) | ((b & 0x3f) as u64);
        k = k + 1;
    }
    Ok((state, w))
}

/// Encodes `input` in the shortest form that holds it; fails with
/// `OffsetTooLarge` where it needs more than 36 bits.
pub fn utf8_encode_be_u64(input: u64) -> (r: Result<Vec<u8>, FrameError>)
    ensures
        input < UTF8_INT_LIMIT <==> r is Ok,
        r is Ok ==> r->Ok_0@ == encode_spec(input),
        r is Err ==> r->Err_0 == FrameError::OffsetTooLarge,
{
    let w = width_for(input);
    if w == 0 {
        return Err(FrameError::OffsetTooLarge);
    }
    let ghost enc = encode_spec(input);
    let mut out: Vec<u8> = Vec::with_capacity(w);
    let lead = (prefix_for(w) as u64 | (input >> (6 * (w - 1)) as u64)) as u8;
    out.push(lead);
    let mut i: usize = 1;
    while i < w
        invariant
            1 <= i <= w <= 7,
            w == encoded_width(input),
            enc == encode_spec(input),
            out@ == enc.subrange(0, i as int),
        decreases w - i,
    {
        let b = (0x80u64 | ((input >> (6 * (w - 1 - i)) as u64) & 0x3f)) as u8;
        out.push(b);
        assert(out@ =~= enc.subrange(0, i + 1));
        i = i + 1;
    }
    assert(out@ =~= enc);
    Ok(out)
}

proof fn lemma_continuation(t: u64)
    ensures
        is_continuation((0x80u64 | (t & 0x3f)) as u8),
        (((0x80u64 | (t & 0x3f)) as u8) & 0x3f) as u64 == t & 0x3f,
{
    assert(((((0x80u64 | (t & 0x3f)) as u8) & 0xc0) == 0x80) && ((((0x80u64 | (t
        & 0x3f)) as u8) & 0x3f) as u64 == t & 0x3f)) by (bit_vector);
}

proof fn lemma_splice(x: u64, a: u64, b: u64)
    requires
        b == a + 6,
        a <= 30,
    ensures
        ((x >> b) << 6) | ((x >> a) & 0x3f) == x >> a,
        x >> 0u64 == x,
{
    assert(((x >> b) << 6) | ((x >> a) & 0x3f) == x >> a && x >> 0u64 == x) by (bit_vector)
        requires
            b == a + 6,
            a <= 30,
    ;
}

proof fn lemma_lead(x: u64)
    requires
        x < UTF8_INT_LIMIT,
    ensures
        ({
            let w = encoded_width(x);
            let b0 = (lead_prefix(w) as u64 | (x >> shift_of(w, 0))) as u8;
            width_of_lead(b0) == w && (b0 & lead_mask(w)) as u64 == x >> shift_of(w, 0)
        }),
{
    let w = encoded_width(x);
    if w == 1 {
        assert(shift_of(w, 0) == 0);
        assert(x < 0x80 ==> (0x00u64 | (x >> 0u64)) as u8 <= 0x7f && (((0x00u64 | (x >> 0u64))
            as u8) & 0x7f) as u64 == x >> 0u64) by (bit_vector);
    } else if w == 2 {
        assert(shift_of(w, 0) == 6);
        assert(0x80 <= x < 0x800 ==> 0xc0 <= (0xc0u64 | (x >> 6u64)) as u8 <= 0xdf && (((0xc0u64
            | (x >> 6u64)) as u8) & 0x1f) as u64 == x >> 6u64) by (bit_vector);
    } else if w == 3 {
        assert(shift_of(w, 0) == 12);
        assert(0x800 <= x < 0x1_0000 ==> 0xe0 <= (0xe0u64 | (x >> 12u64)) as u8 <= 0xef && (((
        0xe0u64 | (x >> 12u64)) as u8) & 0x0f) as u64 == x >> 12u64) by (bit_vector);
    } else if w == 4 {
        assert(shift_of(w, 0) == 18);
        assert(0x1_0000 <= x < 0x20_0000 ==> 0xf0 <= (0xf0u64 | (x >> 18u64)) as u8 <= 0xf7 && (((
        0xf0u64 | (x >> 18u64)) as u8) & 0x07) as u64 == x >> 18u64) by (bit_vector);
    } else if w == 5 {
        assert(shift_of(w, 0) == 24);
        assert(0x20_0000 <= x < 0x400_0000 ==> 0xf8 <= (0xf8u64 | (x >> 24u64)) as u8 <= 0xfb
            && (((0xf8u64 | (x >> 24u64)) as u8) & 0x03) as u64 == x >> 24u64) by (bit_vector);
    } else if w == 6 {
        assert(shift_of(w, 0) == 30);
        assert(0x400_0000 <= x < 0x8000_0000 ==> 0xfc <= (0xfcu64 | (x >> 30u64)) as u8 <= 0xfd
            && (((0xfcu64 | (x >> 30u64)) as u8) & 0x01) as u64 == x >> 30u64) by (bit_vector);
    } else {
        assert(shift_of(w, 0) == 36);
        assert(0x8000_0000 <= x < 0x10_0000_0000 ==> (0xfeu64 | (x >> 36u64)) as u8 == 0xfe && (((
        0xfeu64 | (x >> 36u64)) as u8) & 0x00) as u64 == x >> 36u64) by (bit_vector);
    }
}

proof fn lemma_fold_prefix(x: u64, k: nat)
    requires
        x < UTF8_INT_LIMIT,
        1 <= k <= encoded_width(x),
    ensures
        fold_bytes(encode_spec(x), k) == x >> shift_of(encoded_width(x), k - 1),
    decreases k,
{
    let w = encoded_width(x);
    let s = encode_spec(x);
    if k == 1 {
        lemma_lead(x);
    } else {
        lemma_fold_prefix(x, (k - 1) as nat);
        lemma_continuation(x >> shift_of(w, k - 1));
        lemma_splice(x, shift_of(w, k - 1), shift_of(w, k - 2));
    }
}

/// Decoding the encoding of any value below 2^36 gives back the value and
/// the encoding's length.
pub proof fn lemma_round_trip(x: u64)
    requires
        x < UTF8_INT_LIMIT,
    ensures
        encode_spec(x).len() == encoded_width(x),
        1 <= encoded_width(x) <= 7,
        decode_spec(encode_spec(x)) == Ok::<(u64, usize), FrameError>((x, encoded_width(x))),
{
    let w = encoded_width(x);
    let s = encode_spec(x);
    lemma_lead(x);
    assert(width_of_lead(s[0]) == w);
    assert forall|j: int| 1 <= j < w implies is_continuation(#[trigger] s[j]) by {
        lemma_continuation(x >> shift_of(w, j));
    }
    lemma_fold_prefix(x, w as nat);
    lemma_splice(x, 0, 6);
}

proof fn lemma_fold_same_prefix(s: Seq<u8>, t: Seq<u8>, k: nat)
    requires
        1 <= k <= s.len(),
        k <= t.len(),
        s.subrange(0, k as int) == t.subrange(0, k as int),
    ensures
        fold_bytes(s, k) == fold_bytes(t, k),
    decreases k,
{
    assert(s[0] == s.subrange(0, k as int)[0]);
    assert(t[0] == t.subrange(0, k as int)[0]);
    if k > 1 {
        assert(s[k - 1] == s.subrange(0, k as int)[k - 1]);
        assert(t[k - 1] == t.subrange(0, k as int)[k - 1]);
        assert(s.subrange(0, k - 1) =~= s.subrange(0, k as int).subrange(0, k - 1));
        assert(t.subrange(0, k - 1) =~= t.subrange(0, k as int).subrange(0, k - 1));
        lemma_fold_same_prefix(s, t, (k - 1) as nat);
    }
}

/// Whatever follows the encoding of a value below 2^36, decoding reads
/// back that value and the encoding's length.
pub proof fn lemma_decode_prefix(s: Seq<u8>, x: u64)
    requires
        x < UTF8_INT_LIMIT,
        encoded_width(x) <= s.len(),
        s.subrange(0, encoded_width(x) as int) == encode_spec(x),
    ensures
        decode_spec(s) == Ok::<(u64, usize), FrameError>((x, encoded_width(x))),
{
    let w = encoded_width(x);
    let e = encode_spec(x);
    lemma_round_trip(x);
    assert(e.subrange(0, w as int) =~= e);
    assert(s[0] == e[0]);
    assert forall|j: int| 1 <= j < w implies is_continuation(#[trigger] s[j]) by {
        assert(s[j] == s.subrange(0, w as int)[j]);
        assert(is_continuation(e[j]));
    }
    lemma_fold_same_prefix(s, e, w as nat);
}

} // verus!
