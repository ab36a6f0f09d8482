//! The track index: a fixed, ordered set of markers that answers
//! nearest-marker queries.
//!
//! Coordinates are integers in the track's own length unit. Distances are
//! compared by their squares, which order exactly as the Euclidean distances
//! do and need no rounding.

use vstd::prelude::*;

verus! {

/// A point in the plane of the track.
#[derive(Clone, Copy, Debug, PartialEq, Eq, Structural)]
pub struct Position {
    pub x: i32,
    pub y: i32,
}

/// A fixed point on the discretized path of the track.
#[derive(Clone, Copy, Debug, PartialEq, Eq, Structural)]
pub struct Marker {
    pub id: u32,
    pub position: Position,
}

/// The square of the Euclidean distance between two points.
pub open spec fn distance_squared(a: Position, b: Position) -> int {
    (a.x - b.x) * (a.x - b.x) + (a.y - b.y) * (a.y - b.y)
}

/// `i` is the place of the marker nearest to `p`: no marker is nearer, and
/// every marker before it is strictly farther away, so that among equally
/// near markers the first one is meant.
pub open spec fn is_nearest_at(markers: Seq<Marker>, p: Position, i: int) -> bool {
    &&& 0 <= i < markers.len()
    &&& forall|j: int|
        0 <= j < markers.len() ==> distance_squared(markers[i].position, p) <= distance_squared(
            #[trigger] markers[j].position,
            p,
        )
    &&& forall|j: int|
        0 <= j < i ==> distance_squared(markers[i].position, p) < distance_squared(
            #[trigger] markers[j].position,
            p,
        )
}

/// The place of the marker nearest to `p` among the first `n` markers, the
/// first one among equally near markers; 0 where `n` is at most 1.
pub open spec fn nearest_among(markers: Seq<Marker>, p: Position, n: int) -> int
    decreases n,
{
    if n <= 1 {
        0
    } else {
        let best = nearest_among(markers, p, n - 1);
        if distance_squared(markers[n - 1].position, p) < distance_squared(
            markers[best].position,
            p,
        ) {
            n - 1
        } else {
            best
        }
    }
}

/// The place of the marker nearest to `p` in the whole sequence.
pub open spec fn nearest_place(markers: Seq<Marker>, p: Position) -> int {
    nearest_among(markers, p, markers.len() as int)
}

/// `nearest_among` names the first nearest marker of every non-empty prefix.
pub proof fn lemma_nearest_among(markers: Seq<Marker>, p: Position, n: int)
    requires
        1 <= n <= markers.len(),
    ensures
        is_nearest_at(markers.take(n), p, nearest_among(markers, p, n)),
    decreases n,
{
    if n > 1 {
        lemma_nearest_among(markers, p, n - 1);
        let best = nearest_among(markers, p, n - 1);
        let now = nearest_among(markers, p, n);
        assert forall|j: int| 0 <= j < n implies distance_squared(
            markers.take(n)[now].position,
            p,
        ) <= distance_squared(#[trigger] markers.take(n)[j].position, p) by {
            if j < n - 1 {
                assert(markers.take(n - 1)[j] == markers[j]);
            }
        }
        assert forall|j: int| 0 <= j < now implies distance_squared(
            markers.take(n)[now].position,
            p,
        ) < distance_squared(#[trigger] markers.take(n)[j].position, p) by {
            if j < n - 1 {
                assert(markers.take(n - 1)[j] == markers[j]);
            }
        }
    }
}

/// At most one place is that of the nearest marker: a query has one answer.
pub proof fn lemma_nearest_unique(markers: Seq<Marker>, p: Position, i: int, j: int)
    requires
        is_nearest_at(markers, p, i),
        is_nearest_at(markers, p, j),
    ensures
        i == j,
{
    if i < j {
        assert(distance_squared(markers[j].position, p) < distance_squared(
            markers[i].position,
            p,
        ));
    } else if j < i {
        assert(distance_squared(markers[i].position, p) < distance_squared(
            markers[j].position,
            p,
        ));
    }
}

/// On a non-empty marker sequence `nearest_place` is the nearest marker's
/// place, and the only one.
pub proof fn lemma_nearest_place(markers: Seq<Marker>, p: Position)
    requires
        markers.len() > 0,
    ensures
        is_nearest_at(markers, p, nearest_place(markers, p)),
        forall|i: int| is_nearest_at(markers, p, i) ==> i == nearest_place(markers, p),
{
    lemma_nearest_among(markers, p, markers.len() as int);
    assert(markers.take(markers.len() as int) =~= markers);
    assert forall|i: int| is_nearest_at(markers, p, i) implies i == nearest_place(markers, p) by {
        lemma_nearest_unique(markers, p, i, nearest_place(markers, p));
    }
}

/// The square of the distance between two points, computed.
pub fn squared_distance(a: Position, b: Position) -> (d: u128)
    ensures
        d == distance_squared(a, b),
{
    let dx: i128 = a.x as i128 - b.x as i128;
    let dy: i128 = a.y as i128 - b.y as i128;
    assert(0 <= dx * dx <= 0x1_0000_0000 * 0x1_0000_0000) by (nonlinear_arith)
        requires
            -0x1_0000_0000 <= dx <= 0x1_0000_0000,
    ;
    assert(0 <= dy * dy <= 0x1_0000_0000 * 0x1_0000_0000) by (nonlinear_arith)
        requires
            -0x1_0000_0000 <= dy <= 0x1_0000_0000,
    ;
    let sum: i128 = dx * dx + dy * dy;
    sum as u128
}

/// The smallest upright rectangle that holds a set of markers.
#[derive(Clone, Copy, Debug, PartialEq, Eq, Structural)]
pub struct Bounds {
    pub min_x: i32,
    pub max_x: i32,
    pub min_y: i32,
    pub max_y: i32,
}

/// Every marker among the first `n` lies within `b`.
pub open spec fn holds_all(b: Bounds, markers: Seq<Marker>, n: int) -> bool {
    forall|i: int|
        0 <= i < n ==> b.min_x <= (#[trigger] markers[i]).position.x <= b.max_x && b.min_y
            <= markers[i].position.y <= b.max_y
}

/// Each side of `b` touches a marker among the first `n`.
pub open spec fn touches_all(b: Bounds, markers: Seq<Marker>, n: int) -> bool {
    &&& exists|i: int| 0 <= i < n && (#[trigger] markers[i]).position.x == b.min_x
    &&& exists|i: int| 0 <= i < n && (#[trigger] markers[i]).position.x == b.max_x
    &&& exists|i: int| 0 <= i < n && (#[trigger] markers[i]).position.y == b.min_y
    &&& exists|i: int| 0 <= i < n && (#[trigger] markers[i]).position.y == b.max_y
}

/// `b` is the smallest upright rectangle that holds all the markers.
pub open spec fn is_bounds_of(b: Bounds, markers: Seq<Marker>) -> bool {
    holds_all(b, markers, markers.len() as int) && touches_all(b, markers, markers.len() as int)
}

/// What answers nearest-marker queries over a fixed, ordered set of
/// markers. Whatever stands behind it, a plain scan or a spatial index, the
/// answer is the same: the first of the markers nearest to the position.
pub trait MarkerIndex {
    /// The markers, in their order.
    spec fn markers(&self) -> Seq<Marker>;

    /// The id of the marker nearest to `p`; among equally near markers that
    /// of the first in the markers' order.
    fn nearest_marker(&self, p: Position) -> (id: u32)
        ensures
            id == self.markers()[nearest_place(self.markers(), p)].id,
    ;
}

/// An immutable, ordered, non-empty set of markers.
pub struct TrackIndex {
    markers: Vec<Marker>,
}

impl View for TrackIndex {
    type V = Seq<Marker>;

    closed spec fn view(&self) -> Seq<Marker> {
        self.markers@
    }
}

impl TrackIndex {
    /// A track index holds at least one marker.
    #[verifier::type_invariant]
    spec fn well_formed(self) -> bool {
        self.markers@.len() > 0
    }

    /// Builds the index over `markers`, in their order; `None` exactly where
    /// there is no marker at all.
    pub fn new(markers: Vec<Marker>) -> (index: Option<TrackIndex>)
        ensures
            markers@.len() == 0 <==> index is None,
            index matches Some(t) ==> t@ == markers@,
    {
        if markers.len() == 0 {
            None
        } else {
            Some(TrackIndex { markers })
        }
    }

    /// The number of markers.
    pub fn len(&self) -> (n: usize)
        ensures
            n == self@.len(),
            n > 0,
    {
        proof {
            use_type_invariant(self);
        }
        self.markers.len()
    }

    /// The marker at place `i`, `None` where `i` is past the last marker.
    pub fn marker(&self, i: usize) -> (m: Option<Marker>)
        ensures
            m == if i < self@.len() { Some(self@[i as int]) } else { None },
    {
        if i < self.markers.len() {
            Some(self.markers[i])
        } else {
            None
        }
    }

    /// The smallest upright rectangle that holds all the markers.
    pub fn bounds(&self) -> (b: Bounds)
        ensures
            is_bounds_of(b, self@),
    {
        proof {
            use_type_invariant(self);
        }
        let first = self.markers[0].position;
        let mut b = Bounds { min_x: first.x, max_x: first.x, min_y: first.y, max_y: first.y };
        let mut i: usize = 1;
        while i < self.markers.len()
            invariant
                1 <= i <= self.markers@.len(),
                holds_all(b, self.markers@, i as int),
                touches_all(b, self.markers@, i as int),
            decreases self.markers@.len() - i,
        {
            let p = self.markers[i].position;
            let ghost before = b;
            let ghost at_min_x = choose|k: int|
                0 <= k < i && (#[trigger] self.markers@[k]).position.x == before.min_x;
            let ghost at_max_x = choose|k: int|
                0 <= k < i && (#[trigger] self.markers@[k]).position.x == before.max_x;
            let ghost at_min_y = choose|k: int|
                0 <= k < i && (#[trigger] self.markers@[k]).position.y == before.min_y;
            let ghost at_max_y = choose|k: int|
                0 <= k < i && (#[trigger] self.markers@[k]).position.y == before.max_y;
            if p.x < b.min_x {
                b.min_x = p.x;
            }
            if p.x > b.max_x {
                b.max_x = p.x;
            }
            if p.y < b.min_y {
                b.min_y = p.y;
            }
            if p.y > b.max_y {
                b.max_y = p.y;
            }
            proof {
                let here = i as int;
                assert(self.markers@[if p.x < before.min_x {
                    here
                } else {
                    at_min_x
                }].position.x == b.min_x);
                assert(self.markers@[if p.x > before.max_x {
                    here
                } else {
                    at_max_x
                }].position.x == b.max_x);
                assert(self.markers@[if p.y < before.min_y {
                    here
                } else {
                    at_min_y
                }].position.y == b.min_y);
                assert(self.markers@[if p.y > before.max_y {
                    here
                } else {
                    at_max_y
                }].position.y == b.max_y);
            }
            i += 1;
        }
        b
    }

    /// The place of the marker nearest to `p`; among equally near markers the
    /// first in the index's order.
    pub fn nearest_index(&self, p: Position) -> (best: usize)
        ensures
            is_nearest_at(self@, p, best as int),
            best == nearest_place(self@, p),
    {
        proof {
            use_type_invariant(self);
        }
        let mut best: usize = 0;
        let mut best_distance: u128 = squared_distance(self.markers[0].position, p);
        let mut i: usize = 1;
        while i < self.markers.len()
            invariant
                1 <= i <= self.markers@.len(),
                best == nearest_among(self.markers@, p, i as int),
                0 <= best < i,
                best_distance == distance_squared(self.markers@[best as int].position, p),
            decreases self.markers@.len() - i,
        {
            let d = squared_distance(self.markers[i].position, p);
            if d < best_distance {
                best = i;
                best_distance = d;
            }
            i += 1;
        }
        proof {
            lemma_nearest_place(self.markers@, p);
        }
        best
    }

    /// The id of the marker nearest to `p`; among equally near markers that
    /// of the first in the index's order.
    pub fn nearest(&self, p: Position) -> (id: u32)
        ensures
            id == self@[nearest_place(self@, p)].id,
            is_nearest_at(self@, p, nearest_place(self@, p)),
    {
        let best = self.nearest_index(p);
        self.markers[best].id
    }
}

impl MarkerIndex for TrackIndex {
    open spec fn markers(&self) -> Seq<Marker> {
        self@
    }

    fn nearest_marker(&self, p: Position) -> (id: u32) {
        self.nearest(p)
    }
}

} // verus!
