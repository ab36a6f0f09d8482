//! The frame sequence: frames in strictly ascending order of their
//! timestamps, which only grows at its end.

use crate::frame::{frame_views, strictly_increasing, Frame, FrameView};
use vstd::prelude::*;

verus! {

/// The sequence after a batch of frames has arrived. The frames of the
/// batch are taken in their order; each one that is later than the last
/// frame of the sequence at that moment is added at the end, and each other
/// one is dropped, so that no frame already in the sequence changes and no
/// timestamp comes twice.
pub open spec fn appended(frames: Seq<FrameView>, batch: Seq<FrameView>) -> Seq<FrameView>
    decreases batch.len(),
{
    if batch.len() == 0 {
        frames
    } else {
        let so_far = appended(frames, batch.drop_last());
        if so_far.len() == 0 || so_far.last().timestamp_ms < batch.last().timestamp_ms {
            so_far.push(batch.last())
        } else {
            so_far
        }
    }
}

/// Appending keeps what was there, in place, and keeps the order strict.
pub proof fn lemma_appended(frames: Seq<FrameView>, batch: Seq<FrameView>)
    ensures
        frames.is_prefix_of(appended(frames, batch)),
        appended(frames, batch).len() <= frames.len() + batch.len(),
        strictly_increasing(frames) ==> strictly_increasing(appended(frames, batch)),
        frames.len() > 0 ==> appended(frames, batch).len() > 0,
    decreases batch.len(),
{
    if batch.len() > 0 {
        lemma_appended(frames, batch.drop_last());
        let so_far = appended(frames, batch.drop_last());
        let after = appended(frames, batch);
        if strictly_increasing(frames) {
            assert forall|i: int, j: int| 0 <= i < j < after.len() implies (#[trigger] after[i]).timestamp_ms
                < (#[trigger] after[j]).timestamp_ms by {
                if j < so_far.len() {
                    assert(so_far[i].timestamp_ms < so_far[j].timestamp_ms);
                } else {
                    assert(i == so_far.len() - 1 || so_far[i].timestamp_ms < so_far[so_far.len()
                        - 1].timestamp_ms);
                }
            }
        }
    }
}

/// Of a batch that arrives at an empty sequence the first frame is always
/// taken: the sequence stays empty only if the batch is.
pub proof fn lemma_appended_to_empty(batch: Seq<FrameView>)
    ensures
        appended(Seq::empty(), batch).len() == 0 <==> batch.len() == 0,
        batch.len() > 0 ==> appended(Seq::empty(), batch)[0] == batch[0],
    decreases batch.len(),
{
    if batch.len() > 0 {
        lemma_appended_to_empty(batch.drop_last());
        if batch.len() > 1 {
            assert(batch.drop_last()[0] == batch[0]);
        }
    }
}

/// A batch in strict order that begins after the sequence ends is taken
/// whole.
pub proof fn lemma_appended_whole(frames: Seq<FrameView>, batch: Seq<FrameView>)
    requires
        strictly_increasing(batch),
        frames.len() > 0 && batch.len() > 0 ==> frames.last().timestamp_ms
            < batch.first().timestamp_ms,
    ensures
        appended(frames, batch) == frames + batch,
    decreases batch.len(),
{
    if batch.len() == 0 {
        assert(frames + batch =~= frames);
    } else {
        let front = batch.drop_last();
        assert(strictly_increasing(front)) by {
            assert forall|i: int, j: int| 0 <= i < j < front.len() implies (#[trigger] front[i]).timestamp_ms
                < (#[trigger] front[j]).timestamp_ms by {
                assert(batch[i].timestamp_ms < batch[j].timestamp_ms);
            }
        }
        if front.len() > 0 {
            assert(front.first() == batch[0]);
        }
        lemma_appended_whole(frames, front);
        let so_far = frames + front;
        if so_far.len() > 0 {
            if front.len() > 0 {
                assert(so_far.last() == batch[front.len() - 1]);
                assert(batch[front.len() - 1].timestamp_ms < batch[batch.len() - 1].timestamp_ms);
            } else {
                assert(so_far.last() == frames.last());
                assert(batch.first() == batch.last());
            }
        }
        assert(so_far.push(batch.last()) =~= frames + batch);
    }
}

/// An append-only sequence of frames in strictly ascending order of their
/// timestamps.
pub struct FrameSequence {
    frames: Vec<Frame>,
}

impl View for FrameSequence {
    type V = Seq<FrameView>;

    closed spec fn view(&self) -> Seq<FrameView> {
        frame_views(self.frames@)
    }
}

impl FrameSequence {
    /// The sequence is in order: each frame is later than the one before.
    pub open spec fn well_formed(&self) -> bool {
        strictly_increasing(self@)
    }

    /// A sequence with no frame.
    pub fn new() -> (sequence: FrameSequence)
        ensures
            sequence@.len() == 0,
            sequence.well_formed(),
    {
        FrameSequence { frames: Vec::new() }
    }

    /// The number of frames.
    pub fn len(&self) -> (n: usize)
        ensures
            n == self@.len(),
    {
        self.frames.len()
    }

    /// Whether there is no frame.
    pub fn is_empty(&self) -> (empty: bool)
        ensures
            empty == (self@.len() == 0),
    {
        self.frames.len() == 0
    }

    /// The frame at place `index`, `None` past the end.
    pub fn get(&self, index: usize) -> (frame: Option<&Frame>)
        ensures
            match frame {
                Some(f) => index < self@.len() && f@ == self@[index as int],
                None => index >= self@.len(),
            },
    {
        if index < self.frames.len() {
            Some(&self.frames[index])
        } else {
            None
        }
    }

    /// Takes every frame away.
    pub fn clear(&mut self)
        ensures
            final(self)@.len() == 0,
            final(self).well_formed(),
    {
        self.frames.clear();
    }

    /// Takes in a batch of frames, in its order: each frame that is later
    /// than the last frame of the sequence is added at the end, each other
    /// one is dropped. Returns how many frames were added.
    pub fn append(&mut self, batch: Vec<Frame>) -> (added: usize)
        ensures
            final(self)@ == appended(old(self)@, frame_views(batch@)),
            old(self)@.is_prefix_of(final(self)@),
            added == final(self)@.len() - old(self)@.len(),
            old(self).well_formed() ==> final(self).well_formed(),
    {
        let ghost before = self@;
        let ghost arriving = frame_views(batch@);
        let mut added: usize = 0;
        for frame in taken: batch
            invariant
                taken.seq() == batch@,
                self@ == appended(before, arriving.take(taken.index() as int)),
                added == self@.len() - before.len(),
                arriving == frame_views(batch@),
        {
            let ghost place = taken.index() as int;
            proof {
                assert(arriving.take(place + 1).drop_last() =~= arriving.take(place));
                assert(arriving.take(place + 1).last() == frame@);
                lemma_appended(before, arriving.take(place));
            }
            let count = self.frames.len();
            if count == 0 || self.frames[count - 1].timestamp_ms() < frame.timestamp_ms() {
                let ghost shown = self@;
                self.frames.push(frame);
                proof {
                    assert(self@ =~= shown.push(frame@));
                }
                assert(added < self.frames.len());
                added += 1;
            }
        }
        proof {
            assert(arriving.take(arriving.len() as int) =~= arriving);
            lemma_appended(before, arriving);
        }
        added
    }
}

} // verus!
