//! Where a track's file goes: `<artist>/<album>/<file name>`, from its tags.

use vstd::prelude::*;
use vstd::string::StringSliceAdditionalSpecFns;

use crate::bytes::append_slice;
use crate::metadata::{text_bytes, Tag};
use crate::tags::{decimal, push_decimal};

verus! {

/// The three path segments of a track's file, in ASCII.
#[derive(Debug, Clone, PartialEq, Eq)]
pub struct TrackPath {
    pub artist: Vec<u8>,
    pub album: Vec<u8>,
    pub file_name: Vec<u8>,
}

/// A byte kept as it is in a path segment: ASCII letters and digits, and
/// ` _ - , . ! & ( ) [ ] { } < >`.
pub open spec fn allowed(b: u8) -> bool {
    (0x30 <= b <= 0x39) || (0x41 <= b <= 0x5a) || (0x61 <= b <= 0x7a) || b == 0x20 || b == 0x5f
        || b == 0x2d || b == 0x2c || b == 0x2e || b == 0x21 || b == 0x26 || b == 0x28 || b
        == 0x29 || b == 0x5b || b == 0x5d || b == 0x7b || b == 0x7d || b == 0x3c || b == 0x3e
}

/// The bytes after the first of a UTF-8 character.
pub open spec fn continues_char(b: u8) -> bool {
    0x80 <= b <= 0xbf
}

/// A segment made safe: each character that is not allowed becomes `_`
/// (a character of several UTF-8 bytes becomes one `_`).
pub open spec fn sanitize(s: Seq<u8>) -> Seq<u8>
    decreases s.len(),
{
    if s.len() == 0 {
        Seq::empty()
    } else {
        let r = sanitize(s.drop_last());
        let b = s.last();
        if continues_char(b) {
            r
        } else if allowed(b) {
            r.push(b)
        } else {
            r.push(0x5fu8)
        }
    }
}

/// The value of the first tag with key `key`, as bytes.
pub open spec fn tag_value(tags: Seq<Tag>, key: Seq<u8>) -> Option<Seq<u8>>
    decreases tags.len(),
{
    if tags.len() == 0 {
        None
    } else if text_bytes(tags[0].key) == key {
        Some(text_bytes(tags[0].value))
    } else {
        tag_value(tags.drop_first(), key)
    }
}

/// The value of ASCII decimal digits.
pub open spec fn digits_value(s: Seq<u8>) -> int
    decreases s.len(),
{
    if s.len() == 0 {
        0
    } else {
        digits_value(s.drop_last()) * 10 + (s.last() - 0x30)
    }
}

/// `s` read as a decimal number: one or more ASCII digits, below 2^32.
pub open spec fn parse_number(s: Seq<u8>) -> Option<u32> {
    if s.len() > 0 && (forall|i: int| 0 <= i < s.len() ==> 0x30 <= #[trigger] s[i] <= 0x39)
        && digits_value(s) <= u32::MAX {
        Some(digits_value(s) as u32)
    } else {
        None
    }
}

/// A number in decimal, with at least two digits.
pub open spec fn two_digits(n: u32) -> Seq<u8> {
    if n < 10 {
        seq![0x30u8] + decimal(n as nat)
    } else {
        decimal(n as nat)
    }
}

/// The artist segment: `ALBUMARTIST`, else `ARTIST`, else `Unknown Artist`.
pub open spec fn artist_segment(tags: Seq<Tag>) -> Seq<u8> {
    sanitize(
        match tag_value(tags, "ALBUMARTIST".spec_bytes()) {
            Some(v) => v,
            None => match tag_value(tags, "ARTIST".spec_bytes()) {
                Some(v) => v,
                None => "Unknown Artist".spec_bytes(),
            },
        },
    )
}

/// The album segment: `ALBUM`, else `Unknown Album`, after `<DATE> - `
/// where there is a `DATE`.
pub open spec fn album_segment(tags: Seq<Tag>) -> Seq<u8> {
    let album = match tag_value(tags, "ALBUM".spec_bytes()) {
        Some(v) => v,
        None => "Unknown Album".spec_bytes(),
    };
    sanitize(
        match tag_value(tags, "DATE".spec_bytes()) {
            Some(d) => d + " - ".spec_bytes() + album,
            None => album,
        },
    )
}

/// The disc prefix `<DISCNUMBER>-`, only where `TOTALDISCS` is a number
/// above 1 and `DISCNUMBER` a number.
pub open spec fn disc_prefix(tags: Seq<Tag>) -> Seq<u8> {
    let total = match tag_value(tags, "TOTALDISCS".spec_bytes()) {
        Some(v) => parse_number(v),
        None => None,
    };
    let disc = match tag_value(tags, "DISCNUMBER".spec_bytes()) {
        Some(v) => parse_number(v),
        None => None,
    };
    if total matches Some(t) && t > 1 && disc is Some {
        two_digits(disc->Some_0) + "-".spec_bytes()
    } else {
        Seq::empty()
    }
}

/// The file name `[<disc>-]<track>.<TITLE>.flac`, where both `TITLE` and
/// `TRACKNUMBER` are present; a track number that is not a number is 99.
pub open spec fn file_name_segment(tags: Seq<Tag>) -> Option<Seq<u8>> {
    match (tag_value(tags, "TITLE".spec_bytes()), tag_value(tags, "TRACKNUMBER".spec_bytes())) {
        (Some(title), Some(n)) => {
            let number = match parse_number(n) {
                Some(k) => k,
                None => 99,
            };
            Some(
                sanitize(
                    disc_prefix(tags) + two_digits(number) + ".".spec_bytes() + title
                        + ".flac".spec_bytes(),
                ),
            )
        },
        _ => None,
    }
}

fn find_value(tags: &Vec<Tag>, key: &[u8]) -> (r: Option<usize>)
    ensures
        match tag_value(tags@, key@) {
            Some(v) => r is Some && r->Some_0 < tags@.len() && text_bytes(tags@[r->Some_0 as int].value) == v,
            None => r is None,
        },
{
    let mut i: usize = 0;
    assert(tags@.subrange(0, tags@.len() as int) =~= tags@);
    while i < tags.len()
        invariant
            i <= tags@.len(),
            tag_value(tags@, key@) == tag_value(tags@.subrange(i as int, tags@.len() as int), key@),
        decreases tags@.len() - i,
    {
        let ghost rest = tags@.subrange(i as int, tags@.len() as int);
        assert(rest[0] == tags@[i as int]);
        assert(rest.drop_first() =~= tags@.subrange(i + 1, tags@.len() as int));
        let k = tags[i].key.as_str().as_bytes();
        if k.len() == key.len() && same(k, key) {
            return Some(i);
        }
        i = i + 1;
    }
    None
}

fn same(a: &[u8], b: &[u8]) -> (r: bool)
    requires
        a@.len() == b@.len(),
    ensures
        r == (a@ == b@),
{
    let mut i: usize = 0;
    while i < a.len()
        invariant
            a@.len() == b@.len(),
            i <= a@.len(),
            forall|j: int| 0 <= j < i ==> a@[j] == b@[j],
        decreases a@.len() - i,
    {
        if a[i] != b[i] {
            return false;
        }
        i = i + 1;
    }
    assert(a@ =~= b@);
    true
}

/// The value of the first tag with key `key`, as bytes.
fn value_of(tags: &Vec<Tag>, key: &str) -> (r: Option<Vec<u8>>)
    ensures
        match tag_value(tags@, key.spec_bytes()) {
            Some(v) => r is Some && r->Some_0@ == v,
            None => r is None,
        },
{
    match find_value(tags, key.as_bytes()) {
        Some(i) => {
            let mut v: Vec<u8> = Vec::new();
            append_slice(&mut v, tags[i].value.as_str().as_bytes());
            Some(v)
        },
        None => None,
    }
}

proof fn lemma_digits_grow(s: Seq<u8>, k: int)
    requires
        0 <= k <= s.len(),
        forall|i: int| 0 <= i < s.len() ==> 0x30 <= #[trigger] s[i] <= 0x39,
    ensures
        digits_value(s.subrange(0, k)) <= digits_value(s),
        digits_value(s.subrange(0, k)) >= 0,
    decreases s.len() - k,
{
    if k < s.len() {
        lemma_digits_grow(s, k + 1);
        assert(s.subrange(0, k + 1).drop_last() =~= s.subrange(0, k));
        lemma_digits_nonneg(s.subrange(0, k));
    } else {
        assert(s.subrange(0, k) =~= s);
        lemma_digits_nonneg(s);
    }
}

proof fn lemma_digits_nonneg(s: Seq<u8>)
    requires
        forall|i: int| 0 <= i < s.len() ==> 0x30 <= #[trigger] s[i] <= 0x39,
    ensures
        digits_value(s) >= 0,
    decreases s.len(),
{
    if s.len() > 0 {
        lemma_digits_nonneg(s.drop_last());
    }
}

/// Reads ASCII decimal digits as a number below 2^32.
pub fn parse_decimal(s: &[u8]) -> (r: Option<u32>)
    ensures
        r == parse_number(s@),
{
    if s.len() == 0 {
        return None;
    }
    let mut i: usize = 0;
    while i < s.len()
        invariant
            i <= s@.len(),
            forall|j: int| 0 <= j < i ==> 0x30 <= #[trigger] s@[j] <= 0x39,
        decreases s@.len() - i,
    {
        if s[i] < 0x30 || s[i] > 0x39 {
            return None;
        }
        i = i + 1;
    }
    let mut acc: u64 = 0;
    let mut k: usize = 0;
    while k < s.len()
        invariant
            k <= s@.len(),
            forall|j: int| 0 <= j < s@.len() ==> 0x30 <= #[trigger] s@[j] <= 0x39,
            acc == digits_value(s@.subrange(0, k as int)),
            acc <= u32::MAX,
        decreases s@.len() - k,
    {
        assert(s@.subrange(0, k + 1).drop_last() =~= s@.subrange(0, k as int));
        let next: u64 = acc * 10 + (s[k] - 0x30) as u64;
        if next > u32::MAX as u64 {
            proof {
                lemma_digits_grow(s@, k + 1);
            }
            return None;
        }
        acc = next;
        k = k + 1;
    }
    assert(s@.subrange(0, k as int) =~= s@);
    Some(acc as u32)
}

fn push_two_digits(out: &mut Vec<u8>, n: u32)
    ensures
        final(out)@ == old(out)@ + two_digits(n),
{
    if n < 10 {
        out.push(0x30u8);
    }
    push_decimal(out, n);
    assert(out@ =~= old(out)@ + two_digits(n));
}

fn sanitized(raw: &[u8]) -> (r: Vec<u8>)
    ensures
        r@ == sanitize(raw@),
{
    let mut out: Vec<u8> = Vec::new();
    let mut i: usize = 0;
    while i < raw.len()
        invariant
            i <= raw@.len(),
            out@ == sanitize(raw@.subrange(0, i as int)),
        decreases raw@.len() - i,
    {
        assert(raw@.subrange(0, i + 1).drop_last() =~= raw@.subrange(0, i as int));
        let b = raw[i];
        if 0x80 <= b && b <= 0xbf {
        } else if (0x30 <= b && b <= 0x39) || (0x41 <= b && b <= 0x5a) || (0x61 <= b && b <= 0x7a)
            || b == 0x20 || b == 0x5f || b == 0x2d || b == 0x2c || b == 0x2e || b == 0x21 || b
            == 0x26 || b == 0x28 || b == 0x29 || b == 0x5b || b == 0x5d || b == 0x7b || b == 0x7d
            || b == 0x3c || b == 0x3e {
            out.push(b);
        } else {
            out.push(0x5fu8);
        }
        i = i + 1;
    }
    assert(raw@.subrange(0, i as int) =~= raw@);
    out
}

fn disc_prefix_of(tags: &Vec<Tag>) -> (r: Vec<u8>)
    ensures
        r@ == disc_prefix(tags@),
{
    let total = match value_of(tags, "TOTALDISCS") {
        Some(v) => parse_decimal(v.as_slice()),
        None => None,
    };
    let disc = match value_of(tags, "DISCNUMBER") {
        Some(v) => parse_decimal(v.as_slice()),
        None => None,
    };
    let mut out: Vec<u8> = Vec::new();
    match (total, disc) {
        (Some(t), Some(d)) => {
            if t > 1 {
                push_two_digits(&mut out, d);
                append_slice(&mut out, "-".as_bytes());
            }
        },
        _ => {},
    }
    out
}

/// The segments of the path of a track's file, from its tags:
/// `<artist>/<album>/<file name>`; `None` where the tags lack `TITLE` or
/// `TRACKNUMBER`.
pub fn track_path(tags: &Vec<Tag>) -> (r: Option<TrackPath>)
    ensures
        match file_name_segment(tags@) {
            Some(f) => r is Some && r->Some_0.artist@ == artist_segment(tags@) && r->Some_0.album@
                == album_segment(tags@) && r->Some_0.file_name@ == f,
            None => r is None,
        },
{
    let title = match value_of(tags, "TITLE") {
        Some(v) => v,
        None => return None,
    };
    let number = match value_of(tags, "TRACKNUMBER") {
        Some(v) => match parse_decimal(v.as_slice()) {
            Some(k) => k,
            None => 99,
        },
        None => return None,
    };
    let mut name = disc_prefix_of(tags);
    push_two_digits(&mut name, number);
    append_slice(&mut name, ".".as_bytes());
    append_slice(&mut name, title.as_slice());
    append_slice(&mut name, ".flac".as_bytes());
    let artist_raw = match value_of(tags, "ALBUMARTIST") {
        Some(v) => v,
        None => match value_of(tags, "ARTIST") {
            Some(v) => v,
            None => {
                let mut v: Vec<u8> = Vec::new();
                append_slice(&mut v, "Unknown Artist".as_bytes());
                v
            },
        },
    };
    let album = match value_of(tags, "ALBUM") {
        Some(v) => v,
        None => {
            let mut v: Vec<u8> = Vec::new();
            append_slice(&mut v, "Unknown Album".as_bytes());
            v
        },
    };
    let album_raw = match value_of(tags, "DATE") {
        Some(d) => {
            let mut v = d;
            append_slice(&mut v, " - ".as_bytes());
            append_slice(&mut v, album.as_slice());
            v
        },
        None => album,
    };
    Some(
        TrackPath {
            artist: sanitized(artist_raw.as_slice()),
            album: sanitized(album_raw.as_slice()),
            file_name: sanitized(name.as_slice()),
        },
    )
}

} // verus!
