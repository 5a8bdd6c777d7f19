use flac_tracksplit::cue::{
    packet_step, track_windows, Cue, PacketStep, TrackWindow, LEAD_OUT_TRACK_NUMBER,
};
use flac_tracksplit::metadata::Tag;
use flac_tracksplit::range::{sample_range, RangeError, SampleRange};
use flac_tracksplit::tags::track_tags;

fn window(number: u32, start_ts: u64, end_ts: u64) -> TrackWindow {
    TrackWindow { number, start_ts, end_ts }
}

#[test]
fn lead_out_ends_the_last_track() {
    let cues = vec![
        Cue { index: 1, start_ts: 0 },
        Cue { index: 2, start_ts: 44100 },
        Cue { index: LEAD_OUT_TRACK_NUMBER, start_ts: 88200 },
    ];
    assert_eq!(
        track_windows(&cues, 100000),
        vec![window(1, 0, 44100), window(2, 44100, 88200)]
    );
}

#[test]
fn without_lead_out_the_stream_end_closes() {
    let cues = vec![Cue { index: 1, start_ts: 0 }, Cue { index: 2, start_ts: 500 }];
    assert_eq!(track_windows(&cues, 900), vec![window(1, 0, 500), window(2, 500, 900)]);
    assert_eq!(track_windows(&vec![], 900), vec![]);
}

#[test]
fn range_clamps_to_the_stream() {
    // 10 000 ms at 44.1 kHz
    let r = sample_range(441000, 44100, -500, 20000).unwrap();
    assert_eq!(
        r,
        SampleRange { from_ms: 9500, to_ms: 10000, from_sample: 418950, to_sample: 441000 }
    );
}

#[test]
fn range_plain_and_empty() {
    let r = sample_range(441000, 44100, 1000, 2000).unwrap();
    assert_eq!((r.from_sample, r.to_sample), (44100, 88200));
    assert_eq!(sample_range(441000, 44100, 20000, 30000), Err(RangeError::Empty));
    assert_eq!(sample_range(441000, 44100, 3000, 1000), Err(RangeError::Empty));
    let r = sample_range(441000, 44100, -20000, -1000).unwrap();
    assert_eq!((r.from_ms, r.to_ms), (0, 9000));
}

fn tag(key: &str, value: &str) -> Tag {
    Tag { key: key.to_string(), value: value.to_string() }
}

fn pairs(tags: &[Tag]) -> Vec<(String, String)> {
    tags.iter().map(|t| (t.key.clone(), t.value.clone())).collect()
}

#[test]
fn tags_of_one_track() {
    let disc = vec![
        tag("ALBUM", "A"),
        tag("TITLE[1]", "One"),
        tag("TITLE[12]", "Twelve"),
        tag("TITLE[2]", "Two"),
        tag("CUESHEET", "..."),
        tag("LOG", "..."),
        tag("ODD]", "x"),
        tag("DATE", "1999"),
    ];
    assert_eq!(
        pairs(&track_tags(&disc, 2)),
        vec![
            ("ALBUM".to_string(), "A".to_string()),
            ("TITLE".to_string(), "Two".to_string()),
            ("DATE".to_string(), "1999".to_string()),
        ]
    );
    assert_eq!(
        pairs(&track_tags(&disc, 12)),
        vec![
            ("ALBUM".to_string(), "A".to_string()),
            ("TITLE".to_string(), "Twelve".to_string()),
            ("DATE".to_string(), "1999".to_string()),
        ]
    );
    assert_eq!(pairs(&track_tags(&vec![tag("Ä[3]", "v")], 3)), vec![("Ä".to_string(), "v".to_string())]);
}

#[test]
fn packet_steps() {
    let w = window(2, 1000, 2000);
    assert_eq!(packet_step(&w, 1000, 500, false), PacketStep::Keep);
    assert_eq!(packet_step(&w, 1500, 500, false), PacketStep::KeepAndEnd);
    assert_eq!(packet_step(&w, 1800, 500, false), PacketStep::KeepAndEnd);
    assert_eq!(packet_step(&w, 500, 500, false), PacketStep::Misplaced);
    assert_eq!(packet_step(&w, 500, 500, true), PacketStep::Skip);
    assert_eq!(packet_step(&w, 900, 500, true), PacketStep::Keep);
    assert_eq!(packet_step(&w, u64::MAX, u64::MAX, false), PacketStep::KeepAndEnd);
}
