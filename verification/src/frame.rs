//! Display frames: the colours of the lit markers at one timestamp.

use vstd::prelude::*;

verus! {

/// A colour, by its red, green and blue parts.
#[derive(Clone, Copy, Debug, PartialEq, Eq, Structural)]
pub struct Color {
    pub r: u8,
    pub g: u8,
    pub b: u8,
}

/// One lit marker of a frame.
#[derive(Clone, Copy, Debug, PartialEq, Eq, Structural)]
pub struct MarkerColor {
    pub marker_id: u32,
    pub color: Color,
}

/// What a frame shows: its timestamp and the colour of each lit marker.
pub struct FrameView {
    pub timestamp_ms: i64,
    pub marker_color: Map<u32, Color>,
}

/// The mapping that a list of lit markers stands for; where a marker is
/// listed more than once, its last entry counts.
pub open spec fn colors_of(entries: Seq<MarkerColor>) -> Map<u32, Color>
    decreases entries.len(),
{
    if entries.len() == 0 {
        Map::empty()
    } else {
        colors_of(entries.drop_last()).insert(entries.last().marker_id, entries.last().color)
    }
}

/// `k` is the last place at which `marker_id` is listed.
pub open spec fn is_last_entry_of(entries: Seq<MarkerColor>, marker_id: u32, k: int) -> bool {
    &&& 0 <= k < entries.len()
    &&& entries[k].marker_id == marker_id
    &&& forall|j: int| k < j < entries.len() ==> (#[trigger] entries[j]).marker_id != marker_id
}

/// A marker is in the mapping exactly where it is listed.
pub proof fn lemma_colors_domain(entries: Seq<MarkerColor>, id: u32)
    ensures
        colors_of(entries).dom().contains(id) <==> exists|i: int|
            0 <= i < entries.len() && (#[trigger] entries[i]).marker_id == id,
    decreases entries.len(),
{
    if entries.len() > 0 {
        let front = entries.drop_last();
        lemma_colors_domain(front, id);
        if colors_of(entries).dom().contains(id) {
            if id == entries.last().marker_id {
                assert(entries[entries.len() - 1].marker_id == id);
            } else {
                assert(colors_of(front).dom().contains(id));
                let i = choose|i: int| 0 <= i < front.len() && (#[trigger] front[i]).marker_id == id;
                assert(entries[i].marker_id == id);
            }
        }
        if exists|i: int| 0 <= i < entries.len() && (#[trigger] entries[i]).marker_id == id {
            let i = choose|i: int| 0 <= i < entries.len() && (#[trigger] entries[i]).marker_id == id;
            if i < entries.len() - 1 {
                assert(front[i].marker_id == id);
            }
        }
    }
}

/// The last entry of a marker gives its colour.
pub proof fn lemma_colors_at(entries: Seq<MarkerColor>, marker_id: u32, k: int)
    requires
        is_last_entry_of(entries, marker_id, k),
    ensures
        colors_of(entries).dom().contains(marker_id),
        colors_of(entries)[marker_id] == entries[k].color,
    decreases entries.len(),
{
    if k < entries.len() - 1 {
        let front = entries.drop_last();
        assert(is_last_entry_of(front, marker_id, k)) by {
            assert forall|j: int| k < j < front.len() implies (#[trigger] front[j]).marker_id
                != marker_id by {
                assert(entries[j].marker_id != marker_id);
            }
        }
        lemma_colors_at(front, marker_id, k);
        assert(entries[entries.len() - 1].marker_id != marker_id);
    }
}

/// Giving the last entry of a marker a new colour changes the mapping at
/// that marker and nowhere else.
pub proof fn lemma_colors_update(entries: Seq<MarkerColor>, marker_id: u32, k: int, color: Color)
    requires
        is_last_entry_of(entries, marker_id, k),
    ensures
        colors_of(entries.update(k, MarkerColor { marker_id, color })) == colors_of(
            entries,
        ).insert(marker_id, color),
    decreases entries.len(),
{
    let changed = entries.update(k, MarkerColor { marker_id, color });
    let front = entries.drop_last();
    if k == entries.len() - 1 {
        assert(changed.drop_last() =~= front);
        assert(colors_of(changed) =~= colors_of(entries).insert(marker_id, color));
    } else {
        assert(is_last_entry_of(front, marker_id, k)) by {
            assert forall|j: int| k < j < front.len() implies (#[trigger] front[j]).marker_id
                != marker_id by {
                assert(entries[j].marker_id != marker_id);
            }
        }
        lemma_colors_update(front, marker_id, k, color);
        assert(changed.drop_last() =~= front.update(k, MarkerColor { marker_id, color }));
        assert(changed.last() == entries.last());
        assert(entries[entries.len() - 1].marker_id != marker_id);
        assert(colors_of(changed) =~= colors_of(entries).insert(marker_id, color));
    }
}

/// The lit markers of one timestamp, each with its colour.
#[derive(Clone, Debug, PartialEq, Eq)]
pub struct Frame {
    timestamp_ms: i64,
    entries: Vec<MarkerColor>,
}

impl View for Frame {
    type V = FrameView;

    closed spec fn view(&self) -> FrameView {
        FrameView { timestamp_ms: self.timestamp_ms, marker_color: colors_of(self.entries@) }
    }
}

impl Frame {
    /// A frame at `timestamp_ms` with no marker lit.
    pub fn new(timestamp_ms: i64) -> (frame: Frame)
        ensures
            frame@.timestamp_ms == timestamp_ms,
            frame@.marker_color == Map::<u32, Color>::empty(),
    {
        Frame { timestamp_ms, entries: Vec::new() }
    }

    /// The frame's timestamp, in milliseconds.
    pub fn timestamp_ms(&self) -> (t: i64)
        ensures
            t == self@.timestamp_ms,
    {
        self.timestamp_ms
    }

    /// The last place at which the marker `marker_id` is listed, or `None`.
    fn find(&self, marker_id: u32) -> (place: Option<usize>)
        ensures
            match place {
                Some(k) => is_last_entry_of(self.entries@, marker_id, k as int),
                None => forall|i: int|
                    0 <= i < self.entries@.len() ==> (#[trigger] self.entries@[i]).marker_id
                        != marker_id,
            },
    {
        let mut i: usize = self.entries.len();
        while i > 0
            invariant
                i <= self.entries@.len(),
                forall|j: int|
                    i <= j < self.entries@.len() ==> (#[trigger] self.entries@[j]).marker_id
                        != marker_id,
            decreases i,
        {
            i -= 1;
            if self.entries[i].marker_id == marker_id {
                return Some(i);
            }
        }
        None
    }

    /// The colour of the marker `marker_id` in this frame, `None` where the
    /// marker is not lit.
    pub fn color_of(&self, marker_id: u32) -> (color: Option<Color>)
        ensures
            color == if self@.marker_color.dom().contains(marker_id) {
                Some(self@.marker_color[marker_id])
            } else {
                None
            },
    {
        proof {
            lemma_colors_domain(self.entries@, marker_id);
        }
        match self.find(marker_id) {
            Some(k) => {
                proof {
                    lemma_colors_at(self.entries@, marker_id, k as int);
                }
                Some(self.entries[k].color)
            },
            None => None,
        }
    }

    /// Lights the marker `marker_id` in `color`. A colour that the marker
    /// had before in this frame is replaced; the other markers keep theirs.
    pub fn set_marker_color(&mut self, marker_id: u32, color: Color)
        ensures
            final(self)@.timestamp_ms == old(self)@.timestamp_ms,
            final(self)@.marker_color == old(self)@.marker_color.insert(marker_id, color),
    {
        match self.find(marker_id) {
            Some(k) => {
                proof {
                    lemma_colors_update(self.entries@, marker_id, k as int, color);
                }
                self.entries.set(k, MarkerColor { marker_id, color });
            },
            None => {
                let ghost before = self.entries@;
                self.entries.push(MarkerColor { marker_id, color });
                assert(self.entries@.drop_last() =~= before);
            },
        }
    }
}

/// What each frame of a sequence shows.
pub open spec fn frame_views(frames: Seq<Frame>) -> Seq<FrameView> {
    Seq::new(frames.len(), |i: int| frames[i]@)
}

/// Each frame is later than the one before it.
pub open spec fn strictly_increasing(frames: Seq<FrameView>) -> bool {
    forall|i: int, j: int|
        0 <= i < j < frames.len() ==> (#[trigger] frames[i]).timestamp_ms < (
        #[trigger] frames[j]).timestamp_ms
}

} // verus!
