//! Track windows from a CUE sheet.

use vstd::prelude::*;

verus! {

/// The track number that marks the lead-out: the end of the disc.
pub const LEAD_OUT_TRACK_NUMBER: u32 = 170;

/// A CUE sheet entry: a track number and the sample where it starts.
#[derive(Debug, Clone, Copy, PartialEq, Eq, Structural)]
pub struct Cue {
    pub index: u32,
    pub start_ts: u64,
}

/// A track's number and its samples `[start_ts, end_ts)`.
#[derive(Debug, Clone, Copy, PartialEq, Eq, Structural)]
pub struct TrackWindow {
    pub number: u32,
    pub start_ts: u64,
    pub end_ts: u64,
}

/// The windows of the tracks of `cues`: each entry ends where the next one
/// starts; a lead-out that follows an entry ends it and is consumed; the
/// last entry ends at `last_ts`.
pub open spec fn windows(cues: Seq<Cue>, last_ts: u64) -> Seq<TrackWindow>
    decreases cues.len(),
{
    if cues.len() == 0 {
        Seq::empty()
    } else if cues.len() == 1 {
        seq![TrackWindow { number: cues[0].index, start_ts: cues[0].start_ts, end_ts: last_ts }]
    } else {
        let w = TrackWindow {
            number: cues[0].index,
            start_ts: cues[0].start_ts,
            end_ts: cues[1].start_ts,
        };
        if cues[1].index == LEAD_OUT_TRACK_NUMBER {
            seq![w] + windows(cues.subrange(2, cues.len() as int), last_ts)
        } else {
            seq![w] + windows(cues.subrange(1, cues.len() as int), last_ts)
        }
    }
}

/// The window of each track of `cues`, in order; `last_ts` ends the last
/// track where no lead-out does.
pub fn track_windows(cues: &Vec<Cue>, last_ts: u64) -> (r: Vec<TrackWindow>)
    ensures
        r@ == windows(cues@, last_ts),
{
    let mut out: Vec<TrackWindow> = Vec::new();
    let n = cues.len();
    let mut i: usize = 0;
    assert(cues@.subrange(0, n as int) =~= cues@);
    while i < n
        invariant
            i <= n == cues@.len(),
            windows(cues@, last_ts) == out@ + windows(cues@.subrange(i as int, n as int), last_ts),
        decreases n - i,
    {
        let ghost rest = cues@.subrange(i as int, n as int);
        let c = cues[i];
        if i + 1 == n {
            out.push(TrackWindow { number: c.index, start_ts: c.start_ts, end_ts: last_ts });
            assert(windows(cues@.subrange(n as int, n as int), last_ts) =~= Seq::<TrackWindow>::empty());
            i = i + 1;
        } else {
            let next = cues[i + 1];
            out.push(TrackWindow { number: c.index, start_ts: c.start_ts, end_ts: next.start_ts });
            if next.index == LEAD_OUT_TRACK_NUMBER {
                assert(rest.subrange(2, rest.len() as int) =~= cues@.subrange(i + 2, n as int));
                i = i + 2;
            } else {
                assert(rest.subrange(1, rest.len() as int) =~= cues@.subrange(i + 1, n as int));
                i = i + 1;
            }
        }
        assert(windows(cues@, last_ts) =~= out@ + windows(cues@.subrange(i as int, n as int), last_ts));
    }
    assert(cues@.subrange(n as int, n as int) =~= Seq::<Cue>::empty());
    out
}

/// What to do with a packet while a track's frames are gathered.
#[derive(Debug, Clone, Copy, PartialEq, Eq, Structural)]
pub enum PacketStep {
    /// The packet ends before the window: pass over it.
    Skip,
    /// The packet belongs to the track, and more follow.
    Keep,
    /// The packet belongs to the track and reaches its end.
    KeepAndEnd,
    /// The packet starts before the window, so an earlier track ended too
    /// soon.
    Misplaced,
}

/// The step for a packet of `dur` samples starting at `ts`. With
/// `lead_in`, packets that end by the window's start are passed over and
/// one that straddles it is kept; without it, any packet that starts
/// before the window is misplaced. A kept packet that reaches the window's
/// end is the track's last.
pub open spec fn packet_step_spec(w: TrackWindow, ts: u64, dur: u64, lead_in: bool) -> PacketStep {
    if lead_in && ts + dur <= w.start_ts {
        PacketStep::Skip
    } else if !lead_in && ts < w.start_ts {
        PacketStep::Misplaced
    } else if ts + dur >= w.end_ts {
        PacketStep::KeepAndEnd
    } else {
        PacketStep::Keep
    }
}

/// What to do with a packet of `dur` samples starting at `ts`, for the
/// track of window `w`.
pub fn packet_step(w: &TrackWindow, ts: u64, dur: u64, lead_in: bool) -> (r: PacketStep)
    ensures
        r == packet_step_spec(*w, ts, dur, lead_in),
{
    let end = ts as u128 + dur as u128;
    if lead_in && end <= w.start_ts as u128 {
        PacketStep::Skip
    } else if !lead_in && ts < w.start_ts {
        PacketStep::Misplaced
    } else if end >= w.end_ts as u128 {
        PacketStep::KeepAndEnd
    } else {
        PacketStep::Keep
    }
}

} // verus!
