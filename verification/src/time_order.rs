//! Samples in the order of their timestamps: what it means to sort them
//! stably, and that doing so has one result.

use crate::telemetry::Sample;
use vstd::prelude::*;

verus! {

/// The timestamps never fall along the sequence.
pub open spec fn sorted_by_time(s: Seq<Sample>) -> bool {
    forall|i: int, j: int|
        0 <= i < j < s.len() ==> (#[trigger] s[i]).timestamp_ms <= (#[trigger] s[j]).timestamp_ms
}

/// The samples of `s` that carry the timestamp `t`, in their order in `s`.
pub open spec fn at_time(s: Seq<Sample>, t: i64) -> Seq<Sample>
    decreases s.len(),
{
    if s.len() == 0 {
        Seq::empty()
    } else if s.last().timestamp_ms == t {
        at_time(s.drop_last(), t).push(s.last())
    } else {
        at_time(s.drop_last(), t)
    }
}

/// `out` holds the samples of `inp` in ascending order of their timestamps,
/// the samples of one timestamp in the order that they have in `inp`.
pub open spec fn is_stable_sort_of(out: Seq<Sample>, inp: Seq<Sample>) -> bool {
    &&& sorted_by_time(out)
    &&& forall|t: i64| #[trigger] at_time(out, t) == at_time(inp, t)
}

/// `sorted` with `x` put in behind the last sample that is not later than
/// `x`.
pub open spec fn insert_by_time(sorted: Seq<Sample>, x: Sample) -> Seq<Sample>
    decreases sorted.len(),
{
    if sorted.len() == 0 || sorted.last().timestamp_ms <= x.timestamp_ms {
        sorted.push(x)
    } else {
        insert_by_time(sorted.drop_last(), x).push(sorted.last())
    }
}

/// The samples of `s` in ascending order of their timestamps, the samples of
/// one timestamp in the order that they have in `s`.
pub open spec fn sort_by_time(s: Seq<Sample>) -> Seq<Sample>
    decreases s.len(),
{
    if s.len() == 0 {
        Seq::empty()
    } else {
        insert_by_time(sort_by_time(s.drop_last()), s.last())
    }
}

/// What a sample added at the end does to the samples of one timestamp.
pub proof fn lemma_at_time_push(s: Seq<Sample>, x: Sample, t: i64)
    ensures
        at_time(s.push(x), t) == if x.timestamp_ms == t {
            at_time(s, t).push(x)
        } else {
            at_time(s, t)
        },
{
    assert(s.push(x).drop_last() =~= s);
}

/// The samples of one timestamp all carry it, and there are none exactly
/// where the sequence has no sample of that timestamp.
pub proof fn lemma_at_time_members(s: Seq<Sample>, t: i64)
    ensures
        forall|k: int| 0 <= k < at_time(s, t).len() ==> (#[trigger] at_time(s, t)[k]).timestamp_ms == t,
        forall|k: int| 0 <= k < at_time(s, t).len() ==> s.contains(#[trigger] at_time(s, t)[k]),
        at_time(s, t).len() == 0 <==> forall|i: int|
            0 <= i < s.len() ==> (#[trigger] s[i]).timestamp_ms != t,
        at_time(s, t).len() <= s.len(),
    decreases s.len(),
{
    if s.len() > 0 {
        let front = s.drop_last();
        lemma_at_time_members(front, t);
        assert forall|k: int| 0 <= k < at_time(s, t).len() implies s.contains(
            #[trigger] at_time(s, t)[k],
        ) by {
            if k < at_time(front, t).len() {
                let x = at_time(front, t)[k];
                assert(front.contains(x));
                let i = choose|i: int| 0 <= i < front.len() && front[i] == x;
                assert(s[i] == x);
            } else {
                assert(s[s.len() - 1] == at_time(s, t)[k]);
            }
        }
        if at_time(s, t).len() == 0 {
            assert forall|i: int| 0 <= i < s.len() implies (#[trigger] s[i]).timestamp_ms != t by {
                if i < s.len() - 1 {
                    assert(front[i].timestamp_ms != t);
                }
            }
        } else if s.last().timestamp_ms != t {
            let i = choose|i: int| 0 <= i < front.len() && (#[trigger] front[i]).timestamp_ms == t;
            assert(s[i].timestamp_ms == t);
        } else {
            assert(s[s.len() - 1].timestamp_ms == t);
        }
    }
}

/// A sorted sequence without its last sample is sorted.
pub proof fn lemma_sorted_front(s: Seq<Sample>)
    requires
        sorted_by_time(s),
        s.len() > 0,
    ensures
        sorted_by_time(s.drop_last()),
{
    let front = s.drop_last();
    assert forall|i: int, j: int| 0 <= i < j < front.len() implies (#[trigger] front[i]).timestamp_ms
        <= (#[trigger] front[j]).timestamp_ms by {
        assert(s[i].timestamp_ms <= s[j].timestamp_ms);
    }
}

/// Putting a sample into a sorted sequence keeps it sorted, and adds the
/// sample behind those of its own timestamp.
pub proof fn lemma_insert_by_time(sorted: Seq<Sample>, x: Sample)
    requires
        sorted_by_time(sorted),
    ensures
        sorted_by_time(insert_by_time(sorted, x)),
        insert_by_time(sorted, x).len() == sorted.len() + 1,
        forall|k: int|
            0 <= k < insert_by_time(sorted, x).len() ==> #[trigger] insert_by_time(sorted, x)[k]
                == x || sorted.contains(insert_by_time(sorted, x)[k]),
        forall|t: i64| #[trigger]
            at_time(insert_by_time(sorted, x), t) == if t == x.timestamp_ms {
                at_time(sorted, t).push(x)
            } else {
                at_time(sorted, t)
            },
    decreases sorted.len(),
{
    let res = insert_by_time(sorted, x);
    if sorted.len() == 0 || sorted.last().timestamp_ms <= x.timestamp_ms {
        assert forall|i: int, j: int| 0 <= i < j < res.len() implies (#[trigger] res[i]).timestamp_ms
            <= (#[trigger] res[j]).timestamp_ms by {
            if j == res.len() - 1 {
                assert(sorted[i].timestamp_ms <= sorted[sorted.len() - 1].timestamp_ms);
            } else {
                assert(sorted[i].timestamp_ms <= sorted[j].timestamp_ms);
            }
        }
        assert forall|k: int| 0 <= k < res.len() implies #[trigger] res[k] == x || sorted.contains(
            res[k],
        ) by {
            if k < sorted.len() {
                assert(sorted[k] == res[k]);
            }
        }
        assert forall|t: i64| #[trigger]
            at_time(res, t) == if t == x.timestamp_ms {
                at_time(sorted, t).push(x)
            } else {
                at_time(sorted, t)
            } by {
            lemma_at_time_push(sorted, x, t);
        }
    } else {
        let front = sorted.drop_last();
        let last = sorted.last();
        lemma_sorted_front(sorted);
        lemma_insert_by_time(front, x);
        let inner = insert_by_time(front, x);
        assert(res == inner.push(last));
        assert forall|k: int| 0 <= k < inner.len() implies (#[trigger] inner[k]).timestamp_ms
            <= last.timestamp_ms by {
            if inner[k] != x {
                assert(front.contains(inner[k]));
                let i = choose|i: int| 0 <= i < front.len() && front[i] == inner[k];
                assert(sorted[i].timestamp_ms <= sorted[sorted.len() - 1].timestamp_ms);
            }
        }
        assert forall|i: int, j: int| 0 <= i < j < res.len() implies (#[trigger] res[i]).timestamp_ms
            <= (#[trigger] res[j]).timestamp_ms by {
            if j == res.len() - 1 {
                assert(res[i] == inner[i]);
            } else {
                assert(inner[i].timestamp_ms <= inner[j].timestamp_ms);
            }
        }
        assert forall|k: int| 0 <= k < res.len() implies #[trigger] res[k] == x || sorted.contains(
            res[k],
        ) by {
            if k < inner.len() {
                assert(res[k] == inner[k]);
                if inner[k] != x {
                    assert(front.contains(inner[k]));
                    let i = choose|i: int| 0 <= i < front.len() && front[i] == inner[k];
                    assert(sorted[i] == inner[k]);
                }
            } else {
                assert(sorted[sorted.len() - 1] == res[k]);
            }
        }
        assert forall|t: i64| #[trigger]
            at_time(res, t) == if t == x.timestamp_ms {
                at_time(sorted, t).push(x)
            } else {
                at_time(sorted, t)
            } by {
            lemma_at_time_push(inner, last, t);
            assert(at_time(inner, t) == if t == x.timestamp_ms {
                at_time(front, t).push(x)
            } else {
                at_time(front, t)
            });
        }
    }
}

/// `sort_by_time` sorts stably.
pub proof fn lemma_sort_by_time(s: Seq<Sample>)
    ensures
        is_stable_sort_of(sort_by_time(s), s),
        sort_by_time(s).len() == s.len(),
    decreases s.len(),
{
    if s.len() > 0 {
        let front = s.drop_last();
        lemma_sort_by_time(front);
        lemma_insert_by_time(sort_by_time(front), s.last());
        assert forall|t: i64| #[trigger] at_time(sort_by_time(s), t) == at_time(s, t) by {
            assert(at_time(sort_by_time(front), t) == at_time(front, t));
        }
    }
}

/// In a sorted sequence the last sample of the last sample's timestamp is
/// the last sample.
proof fn lemma_at_time_last(s: Seq<Sample>)
    requires
        s.len() > 0,
    ensures
        at_time(s, s.last().timestamp_ms).len() > 0,
        at_time(s, s.last().timestamp_ms).last() == s.last(),
        at_time(s, s.last().timestamp_ms).drop_last() == at_time(
            s.drop_last(),
            s.last().timestamp_ms,
        ),
{
    assert(at_time(s, s.last().timestamp_ms).drop_last() =~= at_time(
        s.drop_last(),
        s.last().timestamp_ms,
    ));
}

/// Two sorted sequences that agree on the samples of every timestamp are
/// one and the same.
pub proof fn lemma_sorted_unique(a: Seq<Sample>, b: Seq<Sample>)
    requires
        sorted_by_time(a),
        sorted_by_time(b),
        forall|t: i64| #[trigger] at_time(a, t) == at_time(b, t),
    ensures
        a == b,
    decreases a.len(),
{
    if a.len() == 0 {
        if b.len() > 0 {
            lemma_at_time_members(b, b[0].timestamp_ms);
            assert(at_time(a, b[0].timestamp_ms) == at_time(b, b[0].timestamp_ms));
        }
        assert(a =~= b);
    } else {
        let ta = a.last().timestamp_ms;
        lemma_at_time_last(a);
        lemma_at_time_members(b, ta);
        assert(at_time(a, ta) == at_time(b, ta));
        assert(b.len() > 0);
        let tb = b.last().timestamp_ms;
        lemma_at_time_last(b);
        lemma_at_time_members(a, tb);
        assert(at_time(a, tb) == at_time(b, tb));
        let j = choose|j: int| 0 <= j < b.len() && (#[trigger] b[j]).timestamp_ms == ta;
        assert(ta <= tb) by {
            if j < b.len() - 1 {
                assert(b[j].timestamp_ms <= b[b.len() - 1].timestamp_ms);
            }
        }
        let i = choose|i: int| 0 <= i < a.len() && (#[trigger] a[i]).timestamp_ms == tb;
        assert(tb <= ta) by {
            if i < a.len() - 1 {
                assert(a[i].timestamp_ms <= a[a.len() - 1].timestamp_ms);
            }
        }
        assert(a.last() == b.last());
        let fa = a.drop_last();
        let fb = b.drop_last();
        lemma_sorted_front(a);
        lemma_sorted_front(b);
        assert forall|t: i64| #[trigger] at_time(fa, t) == at_time(fb, t) by {
            assert(at_time(a, t) == at_time(b, t));
        }
        lemma_sorted_unique(fa, fb);
        assert(a =~= fa.push(a.last()));
        assert(b =~= fb.push(b.last()));
    }
}

/// A stable sort has one result: the one that `sort_by_time` names.
pub proof fn lemma_stable_sort_unique(out: Seq<Sample>, inp: Seq<Sample>)
    requires
        is_stable_sort_of(out, inp),
    ensures
        out == sort_by_time(inp),
{
    lemma_sort_by_time(inp);
    assert forall|t: i64| #[trigger] at_time(out, t) == at_time(sort_by_time(inp), t) by {
        assert(at_time(out, t) == at_time(inp, t));
        assert(at_time(sort_by_time(inp), t) == at_time(inp, t));
    }
    lemma_sorted_unique(out, sort_by_time(inp));
}

/// The samples of one timestamp in two sequences joined are those in the
/// first followed by those in the second.
pub proof fn lemma_at_time_concat(a: Seq<Sample>, b: Seq<Sample>, t: i64)
    ensures
        at_time(a + b, t) == at_time(a, t) + at_time(b, t),
    decreases b.len(),
{
    if b.len() == 0 {
        assert(a + b =~= a);
        assert(at_time(a, t) + at_time(b, t) =~= at_time(a, t));
    } else {
        lemma_at_time_concat(a, b.drop_last(), t);
        assert((a + b).drop_last() =~= a + b.drop_last());
        assert(at_time(a + b, t) =~= at_time(a, t) + at_time(b, t));
    }
}

/// Merges two sorted vectors into one. Of two samples with one timestamp,
/// that of `a` comes first.
fn merge(a: &Vec<Sample>, b: &Vec<Sample>) -> (out: Vec<Sample>)
    requires
        sorted_by_time(a@),
        sorted_by_time(b@),
    ensures
        sorted_by_time(out@),
        forall|t: i64| #[trigger] at_time(out@, t) == at_time(a@, t) + at_time(b@, t),
{
    let mut out: Vec<Sample> = Vec::new();
    let mut i: usize = 0;
    let mut j: usize = 0;
    while i < a.len() || j < b.len()
        invariant
            i <= a@.len(),
            j <= b@.len(),
            sorted_by_time(a@),
            sorted_by_time(b@),
            sorted_by_time(out@),
            forall|k: int|
                0 <= k < out@.len() && i < a@.len() ==> (#[trigger] out@[k]).timestamp_ms
                    <= a@[i as int].timestamp_ms,
            forall|k: int|
                0 <= k < out@.len() && j < b@.len() ==> (#[trigger] out@[k]).timestamp_ms
                    <= b@[j as int].timestamp_ms,
            forall|k: int|
                0 <= k < j && i < a@.len() ==> (#[trigger] b@[k]).timestamp_ms
                    < a@[i as int].timestamp_ms,
            forall|t: i64| #[trigger]
                at_time(out@, t) == at_time(a@.take(i as int), t) + at_time(b@.take(j as int), t),
        decreases a@.len() - i + b@.len() - j,
    {
        let ghost before = out@;
        let take_first = if j >= b.len() {
            true
        } else if i >= a.len() {
            false
        } else {
            a[i].timestamp_ms <= b[j].timestamp_ms
        };
        if take_first {
            let x = a[i];
            out.push(x);
            proof {
                assert(a@.take(i + 1) =~= a@.take(i as int).push(x));
                assert forall|t: i64| #[trigger]
                    at_time(out@, t) == at_time(a@.take(i + 1), t) + at_time(
                        b@.take(j as int),
                        t,
                    ) by {
                    lemma_at_time_push(before, x, t);
                    lemma_at_time_push(a@.take(i as int), x, t);
                    assert(at_time(before, t) == at_time(a@.take(i as int), t) + at_time(
                        b@.take(j as int),
                        t,
                    ));
                    if t == x.timestamp_ms {
                        lemma_at_time_members(b@.take(j as int), t);
                        assert forall|k: int| 0 <= k < j implies (#[trigger] b@.take(
                            j as int,
                        )[k]).timestamp_ms != t by {
                            assert(b@[k].timestamp_ms < a@[i as int].timestamp_ms);
                        }
                        assert(at_time(b@.take(j as int), t) =~= Seq::<Sample>::empty());
                        assert(at_time(out@, t) =~= at_time(a@.take(i + 1), t) + at_time(
                            b@.take(j as int),
                            t,
                        ));
                    }
                }
                assert forall|p: int, q: int| 0 <= p < q < out@.len() implies (#[trigger] out@[p]).timestamp_ms
                    <= (#[trigger] out@[q]).timestamp_ms by {
                    if q < before.len() {
                        assert(before[p].timestamp_ms <= before[q].timestamp_ms);
                    } else {
                        assert(before[p].timestamp_ms <= a@[i as int].timestamp_ms);
                    }
                }
                assert forall|k: int|
                    0 <= k < out@.len() && i + 1 < a@.len() implies (#[trigger] out@[k]).timestamp_ms
                    <= a@[i + 1].timestamp_ms by {
                    assert(a@[i as int].timestamp_ms <= a@[i + 1].timestamp_ms);
                    if k < before.len() {
                        assert(before[k].timestamp_ms <= a@[i as int].timestamp_ms);
                    }
                }
                assert forall|k: int|
                    0 <= k < out@.len() && j < b@.len() implies (#[trigger] out@[k]).timestamp_ms
                    <= b@[j as int].timestamp_ms by {
                    if k < before.len() {
                        assert(before[k].timestamp_ms <= b@[j as int].timestamp_ms);
                    }
                }
                assert forall|k: int| 0 <= k < j && i + 1 < a@.len() implies (#[trigger] b@[k]).timestamp_ms
                    < a@[i + 1].timestamp_ms by {
                    assert(a@[i as int].timestamp_ms <= a@[i + 1].timestamp_ms);
                }
            }
            i += 1;
        } else {
            let x = b[j];
            out.push(x);
            proof {
                assert(b@.take(j + 1) =~= b@.take(j as int).push(x));
                assert forall|t: i64| #[trigger]
                    at_time(out@, t) == at_time(a@.take(i as int), t) + at_time(
                        b@.take(j + 1),
                        t,
                    ) by {
                    lemma_at_time_push(before, x, t);
                    lemma_at_time_push(b@.take(j as int), x, t);
                    assert(at_time(before, t) == at_time(a@.take(i as int), t) + at_time(
                        b@.take(j as int),
                        t,
                    ));
                    assert(at_time(out@, t) =~= at_time(a@.take(i as int), t) + at_time(
                        b@.take(j + 1),
                        t,
                    ));
                }
                assert forall|p: int, q: int| 0 <= p < q < out@.len() implies (#[trigger] out@[p]).timestamp_ms
                    <= (#[trigger] out@[q]).timestamp_ms by {
                    if q < before.len() {
                        assert(before[p].timestamp_ms <= before[q].timestamp_ms);
                    } else {
                        assert(before[p].timestamp_ms <= b@[j as int].timestamp_ms);
                    }
                }
                assert forall|k: int|
                    0 <= k < out@.len() && j + 1 < b@.len() implies (#[trigger] out@[k]).timestamp_ms
                    <= b@[j + 1].timestamp_ms by {
                    assert(b@[j as int].timestamp_ms <= b@[j + 1].timestamp_ms);
                    if k < before.len() {
                        assert(before[k].timestamp_ms <= b@[j as int].timestamp_ms);
                    }
                }
                assert forall|k: int|
                    0 <= k < out@.len() && i < a@.len() implies (#[trigger] out@[k]).timestamp_ms
                    <= a@[i as int].timestamp_ms by {
                    if k < before.len() {
                        assert(before[k].timestamp_ms <= a@[i as int].timestamp_ms);
                    }
                }
            }
            j += 1;
        }
    }
    proof {
        assert(a@.take(a@.len() as int) =~= a@);
        assert(b@.take(b@.len() as int) =~= b@);
    }
    out
}

/// Sorts the samples of `v` from place `lo` up to place `hi` into a new
/// vector.
fn sort_range(v: &Vec<Sample>, lo: usize, hi: usize) -> (out: Vec<Sample>)
    requires
        lo <= hi <= v@.len(),
    ensures
        is_stable_sort_of(out@, v@.subrange(lo as int, hi as int)),
    decreases hi - lo,
{
    if hi - lo <= 1 {
        let mut out: Vec<Sample> = Vec::new();
        if hi - lo == 1 {
            out.push(v[lo]);
        }
        proof {
            assert(out@ =~= v@.subrange(lo as int, hi as int));
        }
        out
    } else {
        let mid = lo + (hi - lo) / 2;
        let left = sort_range(v, lo, mid);
        let right = sort_range(v, mid, hi);
        let out = merge(&left, &right);
        proof {
            let whole = v@.subrange(lo as int, hi as int);
            let first = v@.subrange(lo as int, mid as int);
            let second = v@.subrange(mid as int, hi as int);
            assert(whole =~= first + second);
            assert forall|t: i64| #[trigger] at_time(out@, t) == at_time(whole, t) by {
                lemma_at_time_concat(first, second, t);
                assert(at_time(left@, t) == at_time(first, t));
                assert(at_time(right@, t) == at_time(second, t));
                assert(at_time(out@, t) == at_time(left@, t) + at_time(right@, t));
            }
        }
        out
    }
}

/// Sorts samples ascending by timestamp. Samples of one timestamp keep the
/// order in which they arrived.
pub fn sort_samples(samples: &Vec<Sample>) -> (sorted: Vec<Sample>)
    ensures
        sorted@ == sort_by_time(samples@),
        is_stable_sort_of(sorted@, samples@),
        sorted@.len() == samples@.len(),
{
    let sorted = sort_range(samples, 0, samples.len());
    proof {
        assert(samples@.subrange(0, samples@.len() as int) =~= samples@);
        lemma_stable_sort_unique(sorted@, samples@);
        lemma_sort_by_time(samples@);
    }
    sorted
}

} // verus!
