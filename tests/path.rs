use flac_tracksplit::metadata::Tag;
use flac_tracksplit::path::{parse_decimal, track_path, TrackPath};

fn tag(key: &str, value: &str) -> Tag {
    Tag { key: key.to_string(), value: value.to_string() }
}

fn text(b: &[u8]) -> String {
    String::from_utf8(b.to_vec()).unwrap()
}

fn segments(p: &TrackPath) -> (String, String, String) {
    (text(&p.artist), text(&p.album), text(&p.file_name))
}

#[test]
fn fallback_artist_and_album() {
    let p = track_path(&vec![tag("TITLE", "Foo"), tag("TRACKNUMBER", "3")]).unwrap();
    assert_eq!(
        segments(&p),
        ("Unknown Artist".to_string(), "Unknown Album".to_string(), "03.Foo.flac".to_string())
    );
}

#[test]
fn album_artist_wins_and_date_prefixes_album() {
    let p = track_path(&vec![
        tag("ARTIST", "Solo"),
        tag("ALBUMARTIST", "Band"),
        tag("ALBUM", "Live"),
        tag("DATE", "1999"),
        tag("TITLE", "Intro"),
        tag("TRACKNUMBER", "12"),
    ])
    .unwrap();
    assert_eq!(
        segments(&p),
        ("Band".to_string(), "1999 - Live".to_string(), "12.Intro.flac".to_string())
    );
    let p = track_path(&vec![tag("ARTIST", "Solo"), tag("TITLE", "X"), tag("TRACKNUMBER", "1")])
        .unwrap();
    assert_eq!(text(&p.artist), "Solo");
}

#[test]
fn disc_prefix_only_for_several_discs() {
    let mut tags = vec![
        tag("DISCNUMBER", "2"),
        tag("TOTALDISCS", "2"),
        tag("TRACKNUMBER", "7"),
        tag("TITLE", "Foo"),
    ];
    assert_eq!(text(&track_path(&tags).unwrap().file_name), "02-07.Foo.flac");
    tags[1] = tag("TOTALDISCS", "1");
    assert_eq!(text(&track_path(&tags).unwrap().file_name), "07.Foo.flac");
}

#[test]
fn unsafe_characters_become_underscores() {
    let p = track_path(&vec![
        tag("TITLE", "a/b?c"),
        tag("TRACKNUMBER", "1"),
        tag("ARTIST", "AC/DC"),
        tag("ALBUM", "Ünï"),
    ])
    .unwrap();
    assert_eq!(text(&p.file_name), "01.a_b_c.flac");
    assert_eq!(text(&p.artist), "AC_DC");
    assert_eq!(text(&p.album), "_n_");
}

#[test]
fn unparsable_track_number_is_99_and_missing_title_gives_none() {
    let p = track_path(&vec![tag("TITLE", "T"), tag("TRACKNUMBER", "x1")]).unwrap();
    assert_eq!(text(&p.file_name), "99.T.flac");
    assert_eq!(track_path(&vec![tag("TRACKNUMBER", "1")]), None);
    assert_eq!(track_path(&vec![tag("TITLE", "T")]), None);
}

#[test]
fn decimal_parsing() {
    assert_eq!(parse_decimal(b"0"), Some(0));
    assert_eq!(parse_decimal(b"007"), Some(7));
    assert_eq!(parse_decimal(b"4294967295"), Some(u32::MAX));
    assert_eq!(parse_decimal(b"4294967296"), None);
    assert_eq!(parse_decimal(b""), None);
    assert_eq!(parse_decimal(b"+1"), None);
    assert_eq!(parse_decimal(b"1 "), None);
}
