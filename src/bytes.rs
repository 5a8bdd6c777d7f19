//! Appending integers and byte strings to a byte sink.

use vstd::prelude::*;

verus! {

/// The last `n` bytes of `v`, most significant first.
pub open spec fn be_bytes(v: u64, n: nat) -> Seq<u8> {
    Seq::new(n, |i: int| (v >> ((8 * (n - 1 - i)) as u64)) as u8)
}

/// A 32-bit value as four little-endian bytes.
pub open spec fn le32(v: u32) -> Seq<u8> {
    seq![v as u8, (v >> 8u32) as u8, (v >> 16u32) as u8, (v >> 24u32) as u8]
}

/// `n` zero bytes.
pub open spec fn zeros(n: nat) -> Seq<u8> {
    Seq::new(n, |i: int| 0u8)
}

/// Appends the last `n` bytes of `v` to `out`, most significant first.
pub(crate) fn push_be(out: &mut Vec<u8>, v: u64, n: usize)
    requires
        n <= 8,
    ensures
        final(out)@ == old(out)@ + be_bytes(v, n as nat),
{
    let mut i: usize = 0;
    while i < n
        invariant
            i <= n <= 8,
            out@ == old(out)@ + be_bytes(v, n as nat).subrange(0, i as int),
        decreases n - i,
    {
        out.push((v >> (8 * (n - 1 - i)) as u64) as u8);
        assert(out@ =~= old(out)@ + be_bytes(v, n as nat).subrange(0, i + 1));
        i = i + 1;
    }
    assert(be_bytes(v, n as nat).subrange(0, n as int) =~= be_bytes(v, n as nat));
}

/// Appends `v` to `out` as four little-endian bytes.
pub(crate) fn push_le32(out: &mut Vec<u8>, v: u32)
    ensures
        final(out)@ == old(out)@ + le32(v),
{
    out.push(v as u8);
    out.push((v >> 8u32) as u8);
    out.push((v >> 16u32) as u8);
    out.push((v >> 24u32) as u8);
    assert(out@ =~= old(out)@ + le32(v));
}

/// Appends all of `src` to `out`.
pub(crate) fn append_slice(out: &mut Vec<u8>, src: &[u8])
    ensures
        final(out)@ == old(out)@ + src@,
{
    let mut i: usize = 0;
    while i < src.len()
        invariant
            i <= src@.len(),
            out@ == old(out)@ + src@.subrange(0, i as int),
        decreases src@.len() - i,
    {
        out.push(src[i]);
        assert(out@ =~= old(out)@ + src@.subrange(0, i + 1));
        i = i + 1;
    }
    assert(src@.subrange(0, i as int) =~= src@);
}

/// The big-endian value of the first `k` bytes of `s`.
pub open spec fn be_value(s: Seq<u8>, k: nat) -> u64
    decreases k,
{
    if k == 0 {
        0
    } else {
        (be_value(s, (k - 1) as nat) << 8u64) | (s[k - 1] as u64)
    }
}

proof fn lemma_byte_splice(v: u64, a: u64, b: u64)
    requires
        b == a + 8,
        a <= 56,
    ensures
        ((v >> b) << 8u64) | ((v >> a) as u8 as u64) == v >> a,
{
    assert(((v >> b) << 8u64) | ((v >> a) as u8 as u64) == v >> a) by (bit_vector)
        requires
            b == a + 8,
            a <= 56,
    ;
}

proof fn lemma_be_prefix(v: u64, n: nat, k: nat)
    requires
        1 <= n <= 8,
        k <= n,
        n < 8 ==> v < (1u64 << ((8 * n) as u64)),
    ensures
        be_value(be_bytes(v, n), k) == v >> ((8 * (n - k)) as u64),
    decreases k,
{
    if k == 0 {
        if n == 8 {
            assert(v >> 64u64 == 0) by (bit_vector);
        } else {
            let s = (8 * n) as u64;
            assert(v < (1u64 << s) && s < 64 ==> v >> s == 0) by (bit_vector);
        }
    } else {
        lemma_be_prefix(v, n, (k - 1) as nat);
        lemma_byte_splice(v, (8 * (n - k)) as u64, (8 * (n - k + 1)) as u64);
    }
}

/// Reading back `n` big-endian bytes of a value that fits them gives the
/// value.
pub proof fn lemma_be_round_trip(v: u64, n: nat)
    requires
        1 <= n <= 8,
        n < 8 ==> v < (1u64 << ((8 * n) as u64)),
    ensures
        be_value(be_bytes(v, n), n) == v,
{
    lemma_be_prefix(v, n, n);
    assert(v >> 0u64 == v) by (bit_vector);
}

} // verus!
