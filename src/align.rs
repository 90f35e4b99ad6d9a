use vstd::prelude::*;
use crate::series::{Sample, TimeSeries, times, strictly_ascending, has_time};

verus! {

/// Why two series could not be aligned.
#[derive(Clone, Copy, Debug, PartialEq, Eq, Structural)]
pub enum AlignError {
    /// One of the two series holds no samples.
    EmptyInput,
    /// A series has a timestamp that is not larger than the one before it.
    UnsortedInput,
}

/// The union of two series' timestamps, ascending, with each series' value
/// at every timestamp of it (`None` where the series has no sample there).
#[derive(Clone, Debug)]
pub struct Aligned<V> {
    pub timeline: Vec<i64>,
    pub first: Vec<Option<V>>,
    pub second: Vec<Option<V>>,
}

/// `vals` gives, at each timestamp of `timeline`, the value that `s` holds
/// there, or `None` where `s` has no sample at that timestamp.
pub open spec fn values_follow<V>(vals: Seq<Option<V>>, timeline: Seq<i64>, s: Seq<Sample<V>>) -> bool {
    &&& vals.len() == timeline.len()
    &&& forall|k: int| 0 <= k < timeline.len() ==> (#[trigger] vals[k] is None <==> !has_time(s, timeline[k]))
    &&& forall|k: int, m: int| 0 <= k < timeline.len() && 0 <= m < s.len() && #[trigger] s[m].time == #[trigger] timeline[k]
        ==> vals[k] == Some(s[m].value)
}

/// `timeline` holds exactly the timestamps found in `a` or in `b`.
pub open spec fn is_union<V>(timeline: Seq<i64>, a: Seq<Sample<V>>, b: Seq<Sample<V>>) -> bool {
    forall|t: i64| #[trigger] timeline.contains(t) <==> (has_time(a, t) || has_time(b, t))
}

/// The alignment of `a` and `b` that `r` describes.
pub open spec fn aligns<V>(r: Aligned<V>, a: Seq<Sample<V>>, b: Seq<Sample<V>>) -> bool {
    &&& strictly_ascending(r.timeline@)
    &&& is_union(r.timeline@, a, b)
    &&& values_follow(r.first@, r.timeline@, a)
    &&& values_follow(r.second@, r.timeline@, b)
}

/// The error that aligning `a` with `b` yields, if any.
pub open spec fn align_error<V>(a: Seq<Sample<V>>, b: Seq<Sample<V>>) -> Option<AlignError> {
    if a.len() == 0 || b.len() == 0 {
        Some(AlignError::EmptyInput)
    } else if !strictly_ascending(times(a)) || !strictly_ascending(times(b)) {
        Some(AlignError::UnsortedInput)
    } else {
        None
    }
}

/// Checks that the timestamps of `s` strictly ascend.
pub fn is_strictly_ascending<V>(s: &Vec<Sample<V>>) -> (r: bool)
    ensures
        r == strictly_ascending(times(s@)),
{
    let n = s.len();
    if n == 0 {
        return true;
    }
    let mut i: usize = 1;
    while i < n
        invariant
            1 <= i <= n,
            n == s@.len(),
            strictly_ascending(times(s@).subrange(0, i as int)),
        decreases n - i,
    {
        if s[i - 1].time >= s[i].time {
            assert(times(s@)[i - 1] >= times(s@)[i as int]);
            return false;
        }
        assert forall|p: int, q: int| 0 <= p < q < i + 1 implies #[trigger] times(s@).subrange(0, i + 1)[p]
            < #[trigger] times(s@).subrange(0, i + 1)[q] by {
            assert(times(s@).subrange(0, i as int)[p] == times(s@)[p]);
            if q < i {
                assert(times(s@).subrange(0, i as int)[q] == times(s@)[q]);
            } else if p < i - 1 {
                assert(times(s@).subrange(0, i as int)[i - 1] == times(s@)[i - 1]);
            }
        }
        i = i + 1;
    }
    assert(times(s@).subrange(0, n as int) =~= times(s@));
    true
}

/// Merges two series on their timestamps: an outer join, so no timestamp of
/// either series is lost, and a timestamp found in both gives one entry
/// holding both values.
pub fn align<V: Copy>(a: &TimeSeries<V>, b: &TimeSeries<V>) -> (r: Result<Aligned<V>, AlignError>)
    ensures
        match r {
            Ok(al) => align_error(a.samples@, b.samples@) is None && aligns(al, a.samples@, b.samples@),
            Err(e) => align_error(a.samples@, b.samples@) == Some(e),
        },
{
    let sa = &a.samples;
    let sb = &b.samples;
    if sa.len() == 0 || sb.len() == 0 {
        return Err(AlignError::EmptyInput);
    }
    if !is_strictly_ascending(sa) || !is_strictly_ascending(sb) {
        return Err(AlignError::UnsortedInput);
    }
    Ok(merge(sa, sb))
}

fn merge<V: Copy>(sa: &Vec<Sample<V>>, sb: &Vec<Sample<V>>) -> (r: Aligned<V>)
    requires
        strictly_ascending(times(sa@)),
        strictly_ascending(times(sb@)),
    ensures
        aligns(r, sa@, sb@),
{
    let na = sa.len();
    let nb = sb.len();
    let mut timeline: Vec<i64> = Vec::new();
    let mut first: Vec<Option<V>> = Vec::new();
    let mut second: Vec<Option<V>> = Vec::new();
    let mut i: usize = 0;
    let mut j: usize = 0;
    while i < na || j < nb
        invariant
            na == sa@.len(),
            nb == sb@.len(),
            i <= na,
            j <= nb,
            strictly_ascending(times(sa@)),
            strictly_ascending(times(sb@)),
            strictly_ascending(timeline@),
            forall|k: int| 0 <= k < timeline@.len() ==> (i < na ==> #[trigger] timeline@[k] < sa@[i as int].time),
            forall|k: int| 0 <= k < timeline@.len() ==> (j < nb ==> #[trigger] timeline@[k] < sb@[j as int].time),
            forall|m: int| 0 <= m < i ==> timeline@.contains(#[trigger] sa@[m].time),
            forall|m: int| 0 <= m < j ==> timeline@.contains(#[trigger] sb@[m].time),
            forall|t: i64| #[trigger] timeline@.contains(t) ==> has_time(sa@, t) || has_time(sb@, t),
            values_follow(first@, timeline@, sa@),
            values_follow(second@, timeline@, sb@),
        decreases na + nb - i - j,
    {
        let take_a = i < na && (j >= nb || sa[i].time <= sb[j].time);
        let take_b = j < nb && (i >= na || sb[j].time <= sa[i].time);
        let t = if take_a { sa[i].time } else { sb[j].time };
        let va = if take_a { Some(sa[i].value) } else { None };
        let vb = if take_b { Some(sb[j].value) } else { None };
        proof {
            lemma_step(sa@, timeline@, i as int, t, take_a);
            lemma_step(sb@, timeline@, j as int, t, take_b);
        }
        let ghost old_t = timeline@;
        let ghost old_f = first@;
        let ghost old_s = second@;
        timeline.push(t);
        first.push(va);
        second.push(vb);
        proof {
            assert forall|k: int| 0 <= k < old_t.len() implies timeline@[k] == old_t[k] && first@[k] == old_f[k]
                && second@[k] == old_s[k] by {}
            assert(timeline@[old_t.len() as int] == t);
            if take_a && i + 1 < na {
                assert(times(sa@)[i as int] < times(sa@)[i + 1]);
            }
            if take_b && j + 1 < nb {
                assert(times(sb@)[j as int] < times(sb@)[j + 1]);
            }
            assert forall|u: i64| #[trigger] timeline@.contains(u) implies has_time(sa@, u) || has_time(sb@, u) by {
                if u != t {
                    let k = choose|k: int| 0 <= k < timeline@.len() && timeline@[k] == u;
                    assert(old_t[k] == u);
                    assert(old_t.contains(u));
                } else if take_a {
                    assert(sa@[i as int].time == t);
                } else {
                    assert(sb@[j as int].time == t);
                }
            }
            assert forall|m: int| 0 <= m < i + (if take_a { 1int } else { 0int }) implies timeline@.contains(
                #[trigger] sa@[m].time) by {
                if m < i {
                    let k = choose|k: int| 0 <= k < old_t.len() && old_t[k] == sa@[m].time;
                    assert(timeline@[k] == sa@[m].time);
                } else {
                    assert(timeline@[old_t.len() as int] == sa@[m].time);
                }
            }
            assert forall|m: int| 0 <= m < j + (if take_b { 1int } else { 0int }) implies timeline@.contains(
                #[trigger] sb@[m].time) by {
                if m < j {
                    let k = choose|k: int| 0 <= k < old_t.len() && old_t[k] == sb@[m].time;
                    assert(timeline@[k] == sb@[m].time);
                } else {
                    assert(timeline@[old_t.len() as int] == sb@[m].time);
                }
            }
        }
        if take_a {
            i = i + 1;
        }
        if take_b {
            j = j + 1;
        }
    }
    let r = Aligned { timeline, first, second };
    assert forall|u: i64| has_time(sa@, u) implies #[trigger] r.timeline@.contains(u) by {
        let m = choose|m: int| 0 <= m < sa@.len() && sa@[m].time == u;
    }
    assert forall|u: i64| has_time(sb@, u) implies #[trigger] r.timeline@.contains(u) by {
        let m = choose|m: int| 0 <= m < sb@.len() && sb@[m].time == u;
    }
    r
}

/// Appending `t` to `timeline`, with `Some` of the sample at `i` when `take`
/// and `None` otherwise, keeps the values in step with series `s`.
proof fn lemma_step<V>(s: Seq<Sample<V>>, timeline: Seq<i64>, i: int, t: i64, take: bool)
    requires
        0 <= i <= s.len(),
        strictly_ascending(times(s)),
        forall|k: int| 0 <= k < timeline.len() ==> (i < s.len() ==> #[trigger] timeline[k] < s[i].time),
        forall|m: int| 0 <= m < i ==> timeline.contains(#[trigger] s[m].time),
        take ==> i < s.len() && s[i].time == t,
        !take ==> i == s.len() || t < s[i].time,
        forall|k: int| 0 <= k < timeline.len() ==> #[trigger] timeline[k] < t,
    ensures
        take <==> has_time(s, t),
        take ==> forall|m: int| 0 <= m < s.len() && #[trigger] s[m].time == t ==> m == i,
{
    assert forall|m: int| 0 <= m < s.len() && #[trigger] s[m].time == t implies take && m == i by {
        if m < i {
            let k = choose|k: int| 0 <= k < timeline.len() && timeline[k] == s[m].time;
        } else if m > i {
            assert(times(s)[i] < times(s)[m]);
            if !take {
                assert(times(s)[i] < times(s)[m]);
            }
        }
    }
    if take {
        assert(s[i].time == t);
    }
}

/// A strictly ascending sequence holds no value twice.
pub proof fn lemma_ascending_no_duplicates(s: Seq<i64>)
    requires
        strictly_ascending(s),
    ensures
        s.no_duplicates(),
{
    assert forall|i: int, j: int| 0 <= i < s.len() && 0 <= j < s.len() && i != j implies s[i] != s[j] by {
        if i < j {
            assert(s[i] < s[j]);
        } else {
            assert(s[j] < s[i]);
        }
    }
}

/// A series has a sample at `t` exactly when `t` is among its timestamps.
pub proof fn lemma_has_time_contains<V>(s: Seq<Sample<V>>, t: i64)
    ensures
        has_time(s, t) <==> times(s).contains(t),
{
    if has_time(s, t) {
        let m = choose|m: int| 0 <= m < s.len() && #[trigger] s[m].time == t;
        assert(times(s)[m] == t);
    }
    if times(s).contains(t) {
        let m = choose|m: int| 0 <= m < times(s).len() && times(s)[m] == t;
        assert(s[m].time == t);
    }
}

/// Two strictly ascending sequences that hold the same values are equal.
pub proof fn lemma_ascending_same_values(s: Seq<i64>, u: Seq<i64>)
    requires
        strictly_ascending(s),
        strictly_ascending(u),
        forall|t: i64| s.contains(t) <==> u.contains(t),
    ensures
        s == u,
    decreases s.len(),
{
    if s.len() == 0 {
        if u.len() > 0 {
            assert(u.contains(u[0]));
        }
        assert(s =~= u);
    } else {
        assert(s.contains(s[0]));
        let p = choose|p: int| 0 <= p < u.len() && u[p] == s[0];
        assert(u.contains(u[0]));
        let q = choose|q: int| 0 <= q < s.len() && s[q] == u[0];
        if p > 0 {
            assert(u[0] < u[p]);
            if q > 0 {
                assert(s[0] < s[q]);
            }
        }
        assert(s[0] == u[0]);
        let s1 = s.subrange(1, s.len() as int);
        let u1 = u.subrange(1, u.len() as int);
        assert forall|t: i64| s1.contains(t) <==> u1.contains(t) by {
            if s1.contains(t) {
                let k = choose|k: int| 0 <= k < s1.len() && s1[k] == t;
                assert(s[k + 1] == t && s[0] < s[k + 1]);
                assert(s.contains(t));
                let m = choose|m: int| 0 <= m < u.len() && u[m] == t;
                if m == 0 {
                    assert(false);
                }
                assert(u1[m - 1] == t);
            }
            if u1.contains(t) {
                let k = choose|k: int| 0 <= k < u1.len() && u1[k] == t;
                assert(u[k + 1] == t && u[0] < u[k + 1]);
                assert(u.contains(t));
                let m = choose|m: int| 0 <= m < s.len() && s[m] == t;
                if m == 0 {
                    assert(false);
                }
                assert(s1[m - 1] == t);
            }
        }
        lemma_ascending_same_values(s1, u1);
        assert(s =~= u) by {
            assert forall|i: int| 0 <= i < s.len() implies s[i] == u[i] by {
                if i > 0 {
                    assert(s1[i - 1] == u1[i - 1]);
                }
            }
        }
    }
}

/// Aligning two well-formed series that share no timestamp gives one entry
/// per sample of either series, and each entry holds a value from exactly
/// one of them.
pub proof fn law_disjoint_alignment<V>(a: TimeSeries<V>, b: TimeSeries<V>, r: Aligned<V>)
    requires
        a.well_formed(),
        b.well_formed(),
        aligns(r, a.samples@, b.samples@),
        forall|t: i64| !(#[trigger] has_time(a.samples@, t) && has_time(b.samples@, t)),
    ensures
        r.timeline@.len() == a.samples@.len() + b.samples@.len(),
        forall|k: int| 0 <= k < r.timeline@.len() ==> (#[trigger] r.first@[k] is Some <==> r.second@[k] is None),
{
    let (sa, sb, tl) = (a.samples@, b.samples@, r.timeline@);
    lemma_ascending_no_duplicates(tl);
    lemma_ascending_no_duplicates(times(sa));
    lemma_ascending_no_duplicates(times(sb));
    tl.unique_seq_to_set();
    times(sa).unique_seq_to_set();
    times(sb).unique_seq_to_set();
    assert forall|t: i64| tl.to_set().contains(t) <==> (times(sa).to_set() + times(sb).to_set()).contains(t) by {
        lemma_has_time_contains(sa, t);
        lemma_has_time_contains(sb, t);
    }
    assert(tl.to_set() =~= times(sa).to_set() + times(sb).to_set());
    assert(times(sa).to_set().disjoint(times(sb).to_set())) by {
        assert forall|t: i64| !(times(sa).to_set().contains(t) && times(sb).to_set().contains(t)) by {
            lemma_has_time_contains(sa, t);
            lemma_has_time_contains(sb, t);
        }
    }
    vstd::set_lib::lemma_set_disjoint_lens(times(sa).to_set(), times(sb).to_set());
    assert forall|k: int| 0 <= k < tl.len() implies (#[trigger] r.first@[k] is Some <==> r.second@[k] is None) by {
        assert(tl.contains(tl[k]));
    }
}

/// Aligning two well-formed series that have the same timestamps gives those
/// timestamps as the timeline, with a value from both series at every entry.
pub proof fn law_shared_alignment<V>(a: TimeSeries<V>, b: TimeSeries<V>, r: Aligned<V>)
    requires
        a.well_formed(),
        b.well_formed(),
        aligns(r, a.samples@, b.samples@),
        forall|t: i64| #[trigger] has_time(a.samples@, t) <==> has_time(b.samples@, t),
    ensures
        r.timeline@ == times(a.samples@),
        r.timeline@ == times(b.samples@),
        forall|k: int| 0 <= k < r.timeline@.len() ==> #[trigger] r.first@[k] is Some && r.second@[k] is Some,
{
    let (sa, sb, tl) = (a.samples@, b.samples@, r.timeline@);
    assert forall|t: i64| tl.contains(t) <==> times(sa).contains(t) by {
        lemma_has_time_contains(sa, t);
        lemma_has_time_contains(sb, t);
    }
    lemma_ascending_same_values(tl, times(sa));
    assert forall|t: i64| tl.contains(t) <==> times(sb).contains(t) by {
        lemma_has_time_contains(sa, t);
        lemma_has_time_contains(sb, t);
    }
    lemma_ascending_same_values(tl, times(sb));
    assert forall|k: int| 0 <= k < tl.len() implies #[trigger] r.first@[k] is Some && r.second@[k] is Some by {
        assert(tl.contains(tl[k]));
    }
}

} // verus!
