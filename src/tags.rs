//! Choosing the tags of one track from the tags of a whole disc.

use vstd::prelude::*;
use vstd::string::StringSliceAdditionalSpecFns;
use vstd::utf8::is_char_boundary;

use crate::metadata::{text_bytes, Tag};

verus! {

/// The decimal digits of `n`, in ASCII.
pub open spec fn decimal(n: nat) -> Seq<u8>
    decreases n,
{
    if n < 10 {
        seq![(0x30 + n) as u8]
    } else {
        decimal(n / 10).push((0x30 + n % 10) as u8)
    }
}

/// The suffix `[N]` that marks a tag as belonging to track `n`.
pub open spec fn index_suffix(n: u32) -> Seq<u8> {
    seq![0x5bu8] + decimal(n as nat) + seq![0x5du8]
}

/// `CUESHEET`, in ASCII.
pub open spec fn cuesheet_key() -> Seq<u8> {
    seq![0x43u8, 0x55u8, 0x45u8, 0x53u8, 0x48u8, 0x45u8, 0x45u8, 0x54u8]
}

/// `LOG`, in ASCII.
pub open spec fn log_key() -> Seq<u8> {
    seq![0x4cu8, 0x4fu8, 0x47u8]
}

/// The key under which a tag with key bytes `key` is kept for track `n`:
/// without its suffix where it ends with `[n]` (the `[` then starts a
/// character, as it always does in UTF-8); as it is where it ends with no
/// `]` and is neither `CUESHEET` nor `LOG`; otherwise the tag is dropped.
pub open spec fn kept_key(key: Seq<u8>, n: u32) -> Option<Seq<u8>> {
    let s = index_suffix(n);
    let mid = key.len() - s.len();
    if key.len() >= s.len() && key.subrange(mid, key.len() as int) == s && is_char_boundary(
        key,
        mid,
    ) {
        Some(key.subrange(0, mid))
    } else if (key.len() == 0 || key.last() != 0x5du8) && key != cuesheet_key() && key
        != log_key() {
        Some(key)
    } else {
        None
    }
}

/// A tag as its key's bytes and its value's characters.
pub open spec fn tag_view(t: Tag) -> (Seq<u8>, Seq<char>) {
    (text_bytes(t.key), t.value@)
}

/// The tags of track `n` among `tags`, in order.
pub open spec fn tags_for_track(tags: Seq<Tag>, n: u32) -> Seq<(Seq<u8>, Seq<char>)>
    decreases tags.len(),
{
    if tags.len() == 0 {
        Seq::empty()
    } else {
        let rest = tags_for_track(tags.drop_last(), n);
        match kept_key(text_bytes(tags.last().key), n) {
            Some(k) => rest.push((k, tags.last().value@)),
            None => rest,
        }
    }
}

pub(crate) fn push_decimal(out: &mut Vec<u8>, n: u32)
    ensures
        final(out)@ == old(out)@ + decimal(n as nat),
    decreases n,
{
    if n >= 10 {
        push_decimal(out, n / 10);
    }
    out.push((0x30 + n % 10) as u8);
    assert(out@ =~= old(out)@ + decimal(n as nat));
}

fn same_bytes(a: &[u8], b: &[u8], from: usize) -> (r: bool)
    requires
        from + b@.len() == a@.len(),
    ensures
        r == (a@.subrange(from as int, a@.len() as int) == b@),
{
    let _ = a.len();
    let mut i: usize = 0;
    while i < b.len()
        invariant
            from + b@.len() == a@.len() <= usize::MAX,
            i <= b@.len(),
            forall|j: int| 0 <= j < i ==> a@[from + j] == b@[j],
        decreases b@.len() - i,
    {
        if a[from + i] != b[i] {
            assert(a@.subrange(from as int, a@.len() as int)[i as int] != b@[i as int]);
            return false;
        }
        i = i + 1;
    }
    assert(a@.subrange(from as int, a@.len() as int) =~= b@);
    true
}

fn equals_ascii(a: &[u8], b: &Vec<u8>) -> (r: bool)
    ensures
        r == (a@ == b@),
{
    if a.len() != b.len() {
        return false;
    }
    assert(a@.subrange(0, a@.len() as int) =~= a@);
    same_bytes(a, b.as_slice(), 0)
}

/// The key under which `key` is kept for track `n`, if it is.
fn track_key(key: &String, n: u32) -> (r: Option<String>)
    ensures
        match kept_key(text_bytes(*key), n) {
            Some(k) => r is Some && text_bytes(r->Some_0) == k,
            None => r is None,
        },
{
    let s = key.as_str();
    let kb = s.as_bytes();
    let mut suffix: Vec<u8> = Vec::new();
    suffix.push(0x5bu8);
    push_decimal(&mut suffix, n);
    suffix.push(0x5du8);
    assert(suffix@ =~= index_suffix(n));
    if kb.len() >= suffix.len() {
        let mid = kb.len() - suffix.len();
        if same_bytes(kb, suffix.as_slice(), mid) && s.is_char_boundary(mid) {
            let (head, _) = s.split_at(mid);
            let k = head.to_owned();
            assert(text_bytes(k) == head.spec_bytes());
            return Some(k);
        }
    }
    let cuesheet: Vec<u8> = vec![0x43u8, 0x55u8, 0x45u8, 0x53u8, 0x48u8, 0x45u8, 0x45u8, 0x54u8];
    let log: Vec<u8> = vec![0x4cu8, 0x4fu8, 0x47u8];
    assert(cuesheet@ =~= cuesheet_key());
    assert(log@ =~= log_key());
    let open_ended = kb.len() == 0 || kb[kb.len() - 1] != 0x5du8;
    if open_ended && !equals_ascii(kb, &cuesheet) && !equals_ascii(kb, &log) {
        Some(key.clone())
    } else {
        None
    }
}

/// The tags of track `number`: those whose key ends with `[number]`, with
/// that suffix taken off, and those whose key ends with no `]` and is
/// neither `CUESHEET` nor `LOG`, in their order among `tags`.
pub fn track_tags(tags: &Vec<Tag>, number: u32) -> (r: Vec<Tag>)
    ensures
        r@.map_values(|t: Tag| tag_view(t)) == tags_for_track(tags@, number),
{
    let mut out: Vec<Tag> = Vec::new();
    let mut i: usize = 0;
    while i < tags.len()
        invariant
            i <= tags@.len(),
            out@.map_values(|t: Tag| tag_view(t)) == tags_for_track(tags@.subrange(0, i as int), number),
        decreases tags@.len() - i,
    {
        let t = &tags[i];
        assert(tags@.subrange(0, i + 1).drop_last() =~= tags@.subrange(0, i as int));
        match track_key(&t.key, number) {
            Some(k) => {
                out.push(Tag { key: k, value: t.value.clone() });
                assert(out@.map_values(|t: Tag| tag_view(t)) =~= tags_for_track(
                    tags@.subrange(0, i + 1),
                    number,
                ));
            },
            None => {},
        }
        i = i + 1;
    }
    assert(tags@.subrange(0, i as int) =~= tags@);
    out
}

} // verus!
