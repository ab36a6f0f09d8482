//! The frame builder: from samples to display frames, one frame for each
//! timestamp at which a known participant was seen.

use crate::frame::{frame_views, strictly_increasing, Color, Frame, FrameView};
use crate::participants::{assigned_color, find_color, Participant};
use crate::telemetry::Sample;
use crate::time_order::{
    at_time, lemma_at_time_members, lemma_at_time_push, lemma_sort_by_time, lemma_sorted_front,
    lemma_sorted_unique, sort_by_time, sort_samples, sorted_by_time,
};
use crate::track::{nearest_place, Marker, MarkerIndex};
use vstd::prelude::*;

verus! {

/// The id of the marker that a sample lights: the marker nearest to the
/// sample's position.
pub open spec fn marker_of(track: Seq<Marker>, sample: Sample) -> u32 {
    track[nearest_place(track, sample.position)].id
}

/// The frames after one more sample. A sample of an unknown participant
/// changes nothing. A sample with the timestamp of the last frame lights its
/// marker in that frame, in its participant's colour, over a colour that the
/// marker had there. Any other sample opens a new frame with its marker alone.
pub open spec fn frames_with(
    frames: Seq<FrameView>,
    sample: Sample,
    track: Seq<Marker>,
    participants: Seq<Participant>,
) -> Seq<FrameView> {
    match assigned_color(participants, sample.participant_id) {
        None => frames,
        Some(color) => {
            let marker = marker_of(track, sample);
            if frames.len() > 0 && frames.last().timestamp_ms == sample.timestamp_ms {
                frames.update(
                    frames.len() - 1,
                    FrameView {
                        timestamp_ms: sample.timestamp_ms,
                        marker_color: frames.last().marker_color.insert(marker, color),
                    },
                )
            } else {
                frames.push(
                    FrameView {
                        timestamp_ms: sample.timestamp_ms,
                        marker_color: Map::<u32, Color>::empty().insert(marker, color),
                    },
                )
            }
        },
    }
}

/// The frames that a walk along `samples` makes, in their order.
pub open spec fn frames_of(
    samples: Seq<Sample>,
    track: Seq<Marker>,
    participants: Seq<Participant>,
) -> Seq<FrameView>
    decreases samples.len(),
{
    if samples.len() == 0 {
        Seq::empty()
    } else {
        frames_with(
            frames_of(samples.drop_last(), track, participants),
            samples.last(),
            track,
            participants,
        )
    }
}

/// The frames built from `samples`: those of a walk along the samples in
/// ascending order of their timestamps, samples of one timestamp in the
/// order of their arrival.
pub open spec fn build_frames(
    samples: Seq<Sample>,
    track: Seq<Marker>,
    participants: Seq<Participant>,
) -> Seq<FrameView> {
    frames_of(sort_by_time(samples), track, participants)
}

/// Along sorted samples every frame is later than the one before it, none
/// is later than the last sample, and there are no more frames than samples.
pub proof fn lemma_frames_increasing(
    samples: Seq<Sample>,
    track: Seq<Marker>,
    participants: Seq<Participant>,
)
    requires
        sorted_by_time(samples),
    ensures
        strictly_increasing(frames_of(samples, track, participants)),
        frames_of(samples, track, participants).len() <= samples.len(),
        forall|k: int|
            0 <= k < frames_of(samples, track, participants).len() ==> (#[trigger] frames_of(
                samples,
                track,
                participants,
            )[k]).timestamp_ms <= samples.last().timestamp_ms,
    decreases samples.len(),
{
    if samples.len() > 0 {
        let front = samples.drop_last();
        let last = samples.last();
        lemma_sorted_front(samples);
        lemma_frames_increasing(front, track, participants);
        let before = frames_of(front, track, participants);
        let after = frames_of(samples, track, participants);
        assert(after == frames_with(before, last, track, participants));
        assert forall|k: int| 0 <= k < before.len() implies (#[trigger] before[k]).timestamp_ms
            <= last.timestamp_ms by {
            assert(front.len() > 0);
            assert(samples[front.len() - 1].timestamp_ms <= samples[samples.len() - 1].timestamp_ms);
        }
        assert forall|i: int, j: int| 0 <= i < j < after.len() implies (#[trigger] after[i]).timestamp_ms
            < (#[trigger] after[j]).timestamp_ms by {
            if j < before.len() {
                assert(before[i].timestamp_ms < before[j].timestamp_ms);
            } else {
                assert(before[i].timestamp_ms < before[before.len() - 1].timestamp_ms || i
                    == before.len() - 1);
            }
        }
    }
}

/// The frames built from any samples are strictly increasing in time: no
/// timestamp is split across two frames.
pub proof fn lemma_build_increasing(
    samples: Seq<Sample>,
    track: Seq<Marker>,
    participants: Seq<Participant>,
)
    ensures
        strictly_increasing(build_frames(samples, track, participants)),
        build_frames(samples, track, participants).len() <= samples.len(),
{
    lemma_sort_by_time(samples);
    lemma_frames_increasing(sort_by_time(samples), track, participants);
}

/// Builds the display frames of `samples`. The samples are sorted ascending
/// by timestamp, those of one timestamp staying in the order of their
/// arrival, and walked in that order: each sample of a known participant
/// lights the marker nearest to it in the frame of its timestamp, a later
/// sample overwriting an earlier one at the same marker. Samples of unknown
/// participants are passed over.
pub fn build<I: MarkerIndex>(samples: &Vec<Sample>, track: &I, participants: &Vec<Participant>) -> (frames:
    Vec<Frame>)
    ensures
        frame_views(frames@) == build_frames(samples@, track.markers(), participants@),
        strictly_increasing(frame_views(frames@)),
        frames@.len() <= samples@.len(),
{
    let sorted = sort_samples(samples);
    let mut frames: Vec<Frame> = Vec::new();
    let mut open = Frame::new(0);
    let mut has_open = false;
    let mut i: usize = 0;
    while i < sorted.len()
        invariant
            i <= sorted@.len(),
            has_open ==> frames_of(sorted@.take(i as int), track.markers(), participants@) == frame_views(
                frames@,
            ).push(open@),
            !has_open ==> frames@.len() == 0 && frames_of(
                sorted@.take(i as int),
                track.markers(),
                participants@,
            ).len() == 0,
        decreases sorted@.len() - i,
    {
        let sample = sorted[i];
        proof {
            assert(sorted@.take(i + 1).drop_last() =~= sorted@.take(i as int));
        }
        let ghost before = frames_of(sorted@.take(i as int), track.markers(), participants@);
        match find_color(participants, sample.participant_id) {
            None => {},
            Some(color) => {
                let marker = track.nearest_marker(sample.position);
                if has_open && open.timestamp_ms() == sample.timestamp_ms {
                    open.set_marker_color(marker, color);
                    proof {
                        assert(frames_with(before, sample, track.markers(), participants@) =~= frame_views(
                            frames@,
                        ).push(open@));
                    }
                } else {
                    if has_open {
                        frames.push(open);
                        proof {
                            assert(frame_views(frames@) =~= before);
                        }
                    } else {
                        proof {
                            assert(frame_views(frames@) =~= before);
                        }
                    }
                    open = Frame::new(sample.timestamp_ms);
                    open.set_marker_color(marker, color);
                    has_open = true;
                }
            },
        }
        i += 1;
    }
    proof {
        assert(sorted@.take(sorted@.len() as int) =~= sorted@);
    }
    if has_open {
        frames.push(open);
        proof {
            assert(frame_views(frames@) =~= build_frames(samples@, track.markers(), participants@));
        }
    } else {
        proof {
            assert(frame_views(frames@) =~= build_frames(samples@, track.markers(), participants@));
        }
    }
    proof {
        lemma_build_increasing(samples@, track.markers(), participants@);
    }
    frames
}

/// No two samples carry the same timestamp.
pub open spec fn distinct_times(s: Seq<Sample>) -> bool {
    forall|i: int, j: int|
        0 <= i < j < s.len() ==> (#[trigger] s[i]).timestamp_ms != (#[trigger] s[j]).timestamp_ms
}

/// Among samples of distinct timestamps, a sample is the only one of its
/// timestamp.
proof fn lemma_at_time_single(s: Seq<Sample>, p: int)
    requires
        distinct_times(s),
        0 <= p < s.len(),
    ensures
        at_time(s, s[p].timestamp_ms) == seq![s[p]],
    decreases s.len(),
{
    let t = s[p].timestamp_ms;
    let front = s.drop_last();
    if p == s.len() - 1 {
        lemma_at_time_members(front, t);
        assert forall|i: int| 0 <= i < front.len() implies (#[trigger] front[i]).timestamp_ms
            != t by {
            assert(s[i].timestamp_ms != s[p].timestamp_ms);
        }
        assert(at_time(s, t) =~= seq![s[p]]);
    } else {
        assert(distinct_times(front)) by {
            assert forall|i: int, j: int| 0 <= i < j < front.len() implies (#[trigger] front[i]).timestamp_ms
                != (#[trigger] front[j]).timestamp_ms by {
                assert(s[i].timestamp_ms != s[j].timestamp_ms);
            }
        }
        assert(front[p] == s[p]);
        lemma_at_time_single(front, p);
        assert(s[p].timestamp_ms != s[s.len() - 1].timestamp_ms);
    }
}

/// A rearrangement of samples of distinct timestamps has distinct
/// timestamps too, and holds the same samples.
proof fn lemma_rearranged_distinct(a: Seq<Sample>, b: Seq<Sample>)
    requires
        a.to_multiset() == b.to_multiset(),
        distinct_times(a),
    ensures
        distinct_times(b),
        forall|x: Sample| a.contains(x) <==> b.contains(x),
{
    broadcast use vstd::seq_lib::group_to_multiset_ensures;

    assert(a.no_duplicates()) by {
        assert forall|i: int, j: int| 0 <= i < a.len() && 0 <= j < a.len() && i != j implies a[i]
            != a[j] by {
            if i < j {
                assert(a[i].timestamp_ms != a[j].timestamp_ms);
            } else {
                assert(a[j].timestamp_ms != a[i].timestamp_ms);
            }
        }
    }
    a.lemma_multiset_has_no_duplicates();
    b.lemma_multiset_has_no_duplicates_conv();
    assert forall|x: Sample| a.contains(x) <==> b.contains(x) by {
        assert(a.contains(x) <==> a.to_multiset().count(x) > 0);
        assert(b.contains(x) <==> b.to_multiset().count(x) > 0);
    }
    assert forall|i: int, j: int| 0 <= i < j < b.len() implies (#[trigger] b[i]).timestamp_ms != (
    #[trigger] b[j]).timestamp_ms by {
        assert(b[i] != b[j]);
        assert(b.contains(b[i]));
        assert(b.contains(b[j]));
        assert(a.contains(b[i]));
        assert(a.contains(b[j]));
        let p = choose|p: int| 0 <= p < a.len() && a[p] == b[i];
        let q = choose|q: int| 0 <= q < a.len() && a[q] == b[j];
        if p < q {
            assert(a[p].timestamp_ms != a[q].timestamp_ms);
        } else {
            assert(a[q].timestamp_ms != a[p].timestamp_ms);
        }
    }
}

/// Building does not depend on the order in which samples of distinct
/// timestamps arrive: any rearrangement of them gives the same frames.
pub proof fn lemma_build_order_insensitive(
    a: Seq<Sample>,
    b: Seq<Sample>,
    track: Seq<Marker>,
    participants: Seq<Participant>,
)
    requires
        a.to_multiset() == b.to_multiset(),
        distinct_times(a),
    ensures
        sort_by_time(a) == sort_by_time(b),
        build_frames(a, track, participants) == build_frames(b, track, participants),
{
    lemma_rearranged_distinct(a, b);
    lemma_sort_by_time(a);
    lemma_sort_by_time(b);
    assert forall|t: i64| #[trigger] at_time(sort_by_time(a), t) == at_time(sort_by_time(b), t) by {
        assert(at_time(sort_by_time(a), t) == at_time(a, t));
        assert(at_time(sort_by_time(b), t) == at_time(b, t));
        lemma_at_time_members(a, t);
        lemma_at_time_members(b, t);
        if exists|p: int| 0 <= p < a.len() && (#[trigger] a[p]).timestamp_ms == t {
            let p = choose|p: int| 0 <= p < a.len() && (#[trigger] a[p]).timestamp_ms == t;
            assert(a.contains(a[p]));
            assert(b.contains(a[p]));
            let q = choose|q: int| 0 <= q < b.len() && b[q] == a[p];
            lemma_at_time_single(a, p);
            lemma_at_time_single(b, q);
        } else {
            if exists|q: int| 0 <= q < b.len() && (#[trigger] b[q]).timestamp_ms == t {
                let q = choose|q: int| 0 <= q < b.len() && (#[trigger] b[q]).timestamp_ms == t;
                assert(b.contains(b[q]));
                assert(a.contains(b[q]));
                let p = choose|p: int| 0 <= p < a.len() && a[p] == b[q];
                assert(a[p].timestamp_ms == t);
            }
            assert(at_time(a, t) =~= at_time(b, t));
        }
    }
    lemma_sorted_unique(sort_by_time(a), sort_by_time(b));
}

/// Building is a function of its input: two runs on the same samples, track
/// and participants show the same frames.
pub proof fn lemma_build_deterministic(
    first: Seq<Frame>,
    second: Seq<Frame>,
    samples: Seq<Sample>,
    track: Seq<Marker>,
    participants: Seq<Participant>,
)
    requires
        frame_views(first) == build_frames(samples, track, participants),
        frame_views(second) == build_frames(samples, track, participants),
    ensures
        frame_views(first) == frame_views(second),
        first.len() == second.len(),
        forall|i: int| 0 <= i < first.len() ==> (#[trigger] first[i])@ == second[i]@,
{
    assert(frame_views(first).len() == first.len());
    assert(frame_views(second).len() == second.len());
    assert forall|i: int| 0 <= i < first.len() implies (#[trigger] first[i])@ == second[i]@ by {
        assert(frame_views(first)[i] == first[i]@);
        assert(frame_views(second)[i] == second[i]@);
    }
}

/// The colours that a run of samples leaves behind when each sample of a
/// known participant, in turn, lights its marker.
pub open spec fn colors_left(
    group: Seq<Sample>,
    track: Seq<Marker>,
    participants: Seq<Participant>,
) -> Map<u32, Color>
    decreases group.len(),
{
    if group.len() == 0 {
        Map::empty()
    } else {
        let before = colors_left(group.drop_last(), track, participants);
        match assigned_color(participants, group.last().participant_id) {
            None => before,
            Some(color) => before.insert(marker_of(track, group.last()), color),
        }
    }
}

/// Some sample of the run is of a known participant.
pub open spec fn any_known(group: Seq<Sample>, participants: Seq<Participant>) -> bool {
    exists|i: int|
        0 <= i < group.len() && assigned_color(participants, (#[trigger] group[i]).participant_id)
            is Some
}

/// A run without a sample of a known participant lights nothing.
proof fn lemma_colors_left_none(
    group: Seq<Sample>,
    track: Seq<Marker>,
    participants: Seq<Participant>,
)
    requires
        !any_known(group, participants),
    ensures
        colors_left(group, track, participants) == Map::<u32, Color>::empty(),
    decreases group.len(),
{
    if group.len() > 0 {
        let front = group.drop_last();
        assert(!any_known(front, participants)) by {
            if any_known(front, participants) {
                let i = choose|i: int|
                    0 <= i < front.len() && assigned_color(
                        participants,
                        (#[trigger] front[i]).participant_id,
                    ) is Some;
                assert(assigned_color(participants, group[i].participant_id) is Some);
            }
        }
        lemma_colors_left_none(front, track, participants);
        assert(assigned_color(participants, group[group.len() - 1].participant_id) is None);
    }
}

/// What one more sample at the end does to `any_known`.
proof fn lemma_any_known_push(group: Seq<Sample>, x: Sample, participants: Seq<Participant>)
    ensures
        any_known(group.push(x), participants) <==> any_known(group, participants)
            || assigned_color(participants, x.participant_id) is Some,
{
    let longer = group.push(x);
    if any_known(longer, participants) {
        let i = choose|i: int|
            0 <= i < longer.len() && assigned_color(
                participants,
                (#[trigger] longer[i]).participant_id,
            ) is Some;
        if i < group.len() {
            assert(assigned_color(participants, group[i].participant_id) is Some);
        }
    }
    if any_known(group, participants) {
        let i = choose|i: int|
            0 <= i < group.len() && assigned_color(
                participants,
                (#[trigger] group[i]).participant_id,
            ) is Some;
        assert(assigned_color(participants, longer[i].participant_id) is Some);
    }
    if assigned_color(participants, x.participant_id) is Some {
        assert(assigned_color(participants, longer[group.len() as int].participant_id) is Some);
    }
}

/// Along sorted samples, each frame shows what the samples of its timestamp
/// leave behind, and every timestamp with a sample of a known participant
/// has its frame.
proof fn lemma_frames_content(
    samples: Seq<Sample>,
    track: Seq<Marker>,
    participants: Seq<Participant>,
)
    requires
        sorted_by_time(samples),
    ensures
        forall|k: int|
            0 <= k < frames_of(samples, track, participants).len() ==> {
                let frame = #[trigger] frames_of(samples, track, participants)[k];
                &&& any_known(at_time(samples, frame.timestamp_ms), participants)
                &&& frame.marker_color == colors_left(
                    at_time(samples, frame.timestamp_ms),
                    track,
                    participants,
                )
            },
        forall|t: i64| #[trigger]
            any_known(at_time(samples, t), participants) ==> exists|k: int|
                0 <= k < frames_of(samples, track, participants).len() && (#[trigger] frames_of(
                    samples,
                    track,
                    participants,
                )[k]).timestamp_ms == t,
    decreases samples.len(),
{
    if samples.len() == 0 {
        assert forall|t: i64| #[trigger]
            any_known(at_time(samples, t), participants) implies exists|k: int|
            0 <= k < frames_of(samples, track, participants).len() && (#[trigger] frames_of(
                samples,
                track,
                participants,
            )[k]).timestamp_ms == t by {
        }
    } else {
        let front = samples.drop_last();
        let x = samples.last();
        lemma_sorted_front(samples);
        lemma_frames_content(front, track, participants);
        lemma_frames_increasing(front, track, participants);
        let before = frames_of(front, track, participants);
        let after = frames_of(samples, track, participants);
        assert(after == frames_with(before, x, track, participants));
        assert(samples == front.push(x));
        assert forall|k: int| 0 <= k < before.len() implies (#[trigger] before[k]).timestamp_ms
            <= x.timestamp_ms by {
            assert(front.len() > 0);
            assert(samples[front.len() - 1].timestamp_ms <= samples[samples.len() - 1].timestamp_ms);
        }
        let known = assigned_color(participants, x.participant_id) is Some;
        let joins = known && before.len() > 0 && before.last().timestamp_ms == x.timestamp_ms;
        // Whether the samples of `x`'s own timestamp before `x` lit anything.
        if known && !joins {
            if any_known(at_time(front, x.timestamp_ms), participants) {
                let k = choose|k: int|
                    0 <= k < before.len() && (#[trigger] before[k]).timestamp_ms == x.timestamp_ms;
                if k < before.len() - 1 {
                    assert(before[k].timestamp_ms < before[before.len() - 1].timestamp_ms);
                }
                assert(false);
            }
            lemma_colors_left_none(at_time(front, x.timestamp_ms), track, participants);
        }
        assert forall|k: int| 0 <= k < after.len() implies {
            let frame = #[trigger] after[k];
            &&& any_known(at_time(samples, frame.timestamp_ms), participants)
            &&& frame.marker_color == colors_left(
                at_time(samples, frame.timestamp_ms),
                track,
                participants,
            )
        } by {
            let t = after[k].timestamp_ms;
            lemma_at_time_push(front, x, t);
            lemma_any_known_push(at_time(front, t), x, participants);
            if k < before.len() {
                assert(before[k].timestamp_ms == t);
                if t == x.timestamp_ms {
                    assert(at_time(samples, t).drop_last() =~= at_time(front, t));
                    if k < before.len() - 1 {
                        assert(before[k].timestamp_ms < before[before.len() - 1].timestamp_ms);
                    }
                }
            } else {
                assert(at_time(samples, t).drop_last() =~= at_time(front, t));
            }
        }
        assert forall|t: i64| #[trigger]
            any_known(at_time(samples, t), participants) implies exists|k: int|
            0 <= k < after.len() && (#[trigger] after[k]).timestamp_ms == t by {
            lemma_at_time_push(front, x, t);
            lemma_any_known_push(at_time(front, t), x, participants);
            if any_known(at_time(front, t), participants) {
                let k = choose|k: int|
                    0 <= k < before.len() && (#[trigger] before[k]).timestamp_ms == t;
                assert(after[k].timestamp_ms == t);
            } else {
                assert(t == x.timestamp_ms && known);
                assert(after[after.len() - 1].timestamp_ms == t);
            }
        }
    }
}

/// What building gives, said without the walk: one frame for each timestamp
/// at which a known participant was seen, and no other; each frame shows
/// what the samples of its timestamp leave behind when they light their
/// markers in the order of their arrival.
pub proof fn lemma_build_content(
    samples: Seq<Sample>,
    track: Seq<Marker>,
    participants: Seq<Participant>,
)
    ensures
        forall|k: int|
            0 <= k < build_frames(samples, track, participants).len() ==> {
                let frame = #[trigger] build_frames(samples, track, participants)[k];
                &&& any_known(at_time(samples, frame.timestamp_ms), participants)
                &&& frame.marker_color == colors_left(
                    at_time(samples, frame.timestamp_ms),
                    track,
                    participants,
                )
            },
        forall|t: i64| #[trigger]
            any_known(at_time(samples, t), participants) ==> exists|k: int|
                0 <= k < build_frames(samples, track, participants).len() && (
                #[trigger] build_frames(samples, track, participants)[k]).timestamp_ms == t,
{
    let sorted = sort_by_time(samples);
    lemma_sort_by_time(samples);
    lemma_frames_content(sorted, track, participants);
    let frames = build_frames(samples, track, participants);
    assert forall|k: int| 0 <= k < frames.len() implies {
        let frame = #[trigger] frames[k];
        &&& any_known(at_time(samples, frame.timestamp_ms), participants)
        &&& frame.marker_color == colors_left(
            at_time(samples, frame.timestamp_ms),
            track,
            participants,
        )
    } by {
        assert(at_time(sorted, frames[k].timestamp_ms) == at_time(samples, frames[k].timestamp_ms));
    }
    assert forall|t: i64| #[trigger]
        any_known(at_time(samples, t), participants) implies exists|k: int|
        0 <= k < frames.len() && (#[trigger] frames[k]).timestamp_ms == t by {
        assert(at_time(sorted, t) == at_time(samples, t));
    }
}

} // verus!
