use vstd::prelude::*;
use crate::series::{Sample, TimeSeries, times, strictly_ascending};
use crate::timestamp::{parse_millis, parsed_millis};

verus! {

/// Why a column pair could not become a series.
#[derive(Clone, Copy, Debug, PartialEq, Eq, Structural)]
pub enum AdapterError {
    /// Two rows carry the same timestamp.
    DuplicateTimestamp,
}

/// The samples of the first `n` rows whose timestamp is known, in row order.
pub open spec fn kept_rows<V>(stamps: Seq<Option<i64>>, values: Seq<V>, n: int) -> Seq<Sample<V>>
    decreases n,
{
    if n <= 0 {
        Seq::empty()
    } else {
        let rest = kept_rows(stamps, values, n - 1);
        match stamps[n - 1] {
            Some(t) => rest.push(Sample { time: t, value: values[n - 1] }),
            None => rest,
        }
    }
}

/// Two samples of `rows` share a timestamp.
pub open spec fn has_repeated_time<V>(rows: Seq<Sample<V>>) -> bool {
    exists|p: int, q: int| 0 <= p < q < rows.len() && #[trigger] rows[p].time == #[trigger] rows[q].time
}

/// `out` holds the samples of `rows` and no others.
pub open spec fn same_samples<V>(out: Seq<Sample<V>>, rows: Seq<Sample<V>>) -> bool {
    forall|x: Sample<V>| #[trigger] out.contains(x) <==> rows.contains(x)
}

/// The timestamp column read with pattern `fmt`.
pub open spec fn parsed_column(stamps: Seq<String>, fmt: Seq<char>) -> Seq<Option<i64>> {
    stamps.map_values(|s: String| parsed_millis(s@, fmt))
}

/// What building a series named `name` from the rows yields: the rows with a
/// known timestamp, ordered by it, or an error where two share a timestamp.
pub open spec fn built_from<V>(
    r: Result<TimeSeries<V>, AdapterError>,
    name: String,
    stamps: Seq<Option<i64>>,
    values: Seq<V>,
) -> bool {
    let rows = kept_rows(stamps, values, stamps.len() as int);
    match r {
        Ok(ts) => {
            &&& !has_repeated_time(rows)
            &&& ts.name == name
            &&& strictly_ascending(times(ts.samples@))
            &&& same_samples(ts.samples@, rows)
        },
        Err(e) => e == AdapterError::DuplicateTimestamp && has_repeated_time(rows),
    }
}

/// Inserting `s` at `pos`, between smaller and larger timestamps, keeps the
/// timestamps strictly ascending, and adds `s` to what the sequence holds.
proof fn lemma_insert_sorted<V>(out: Seq<Sample<V>>, pos: int, s: Sample<V>)
    requires
        0 <= pos <= out.len(),
        strictly_ascending(times(out)),
        forall|k: int| 0 <= k < pos ==> #[trigger] out[k].time < s.time,
        pos < out.len() ==> s.time < out[pos].time,
    ensures
        strictly_ascending(times(out.insert(pos, s))),
        forall|x: Sample<V>| #[trigger] out.insert(pos, s).contains(x) <==> (out.contains(x) || x == s),
{
    let n = out.insert(pos, s);
    assert forall|i: int, j: int| 0 <= i < j < n.len() implies times(n)[i] < times(n)[j] by {
        if j < pos {
            assert(times(out)[i] < times(out)[j]);
        } else if j == pos {
            assert(out[i].time < s.time);
        } else if i < pos {
            assert(out[i].time < s.time);
            assert(s.time < out[pos].time);
            if j - 1 > pos {
                assert(times(out)[pos] < times(out)[j - 1]);
            }
        } else if i == pos {
            if j - 1 > pos {
                assert(times(out)[pos] < times(out)[j - 1]);
            }
        } else {
            assert(times(out)[i - 1] < times(out)[j - 1]);
        }
    }
    assert forall|x: Sample<V>| #[trigger] n.contains(x) <==> (out.contains(x) || x == s) by {
        if n.contains(x) {
            let k = choose|k: int| 0 <= k < n.len() && n[k] == x;
            if k < pos {
                assert(out[k] == x);
            } else if k > pos {
                assert(out[k - 1] == x);
            }
        }
        if out.contains(x) {
            let k = choose|k: int| 0 <= k < out.len() && out[k] == x;
            if k < pos {
                assert(n[k] == x);
            } else {
                assert(n[k + 1] == x);
            }
        }
        if x == s {
            assert(n[pos] == x);
        }
    }
}

/// Builds a series named `name` from a timestamp column (`None` for a row
/// whose timestamp could not be read) and a value column of the same length.
/// Rows without a timestamp are left out; the others are ordered by time.
pub fn series_from_parsed<V: Copy>(name: String, stamps: &Vec<Option<i64>>, values: &Vec<V>) -> (r: Result<
    TimeSeries<V>,
    AdapterError,
>)
    requires
        stamps@.len() == values@.len(),
    ensures
        built_from(r, name, stamps@, values@),
{
    let n = stamps.len();
    let mut out: Vec<Sample<V>> = Vec::new();
    let mut i: usize = 0;
    while i < n
        invariant
            n == stamps@.len(),
            n == values@.len(),
            i <= n,
            strictly_ascending(times(out@)),
            same_samples(out@, kept_rows(stamps@, values@, i as int)),
            !has_repeated_time(kept_rows(stamps@, values@, i as int)),
        decreases n - i,
    {
        let ghost rows = kept_rows(stamps@, values@, i as int);
        match stamps[i] {
            Some(t) => {
                let s = Sample { time: t, value: values[i] };
                let mut pos: usize = 0;
                while pos < out.len() && out[pos].time < t
                    invariant
                        pos <= out@.len(),
                        forall|k: int| 0 <= k < pos ==> #[trigger] out@[k].time < t,
                    decreases out@.len() - pos,
                {
                    pos = pos + 1;
                }
                if pos < out.len() && out[pos].time == t {
                    proof {
                        let next = kept_rows(stamps@, values@, i + 1);
                        assert(next == rows.push(s));
                        assert(out@.contains(out@[pos as int]));
                        let p = choose|p: int| 0 <= p < rows.len() && rows[p] == out@[pos as int];
                        assert(next[p].time == next[rows.len() as int].time);
                        assert(has_repeated_time(next));
                        lemma_repeats_persist(stamps@, values@, i + 1, n as int);
                    }
                    return Err(AdapterError::DuplicateTimestamp);
                }
                proof {
                    lemma_insert_sorted(out@, pos as int, s);
                    let next = kept_rows(stamps@, values@, i + 1);
                    assert(next == rows.push(s));
                    assert forall|x: Sample<V>| #[trigger] next.contains(x) <==> (rows.contains(x) || x == s) by {
                        if next.contains(x) {
                            let k = choose|k: int| 0 <= k < next.len() && next[k] == x;
                            if k < rows.len() {
                                assert(rows[k] == x);
                            }
                        }
                        if rows.contains(x) {
                            let k = choose|k: int| 0 <= k < rows.len() && rows[k] == x;
                            assert(next[k] == x);
                        }
                        if x == s {
                            assert(next[rows.len() as int] == x);
                        }
                    }
                    assert forall|p: int, q: int| 0 <= p < q < next.len() implies #[trigger] next[p].time
                        != #[trigger] next[q].time by {
                        if q < rows.len() {
                            assert(rows[p].time != rows[q].time);
                        } else {
                            assert(out@.contains(rows[p])) by {
                                assert(rows.contains(rows[p]));
                            }
                            let k = choose|k: int| 0 <= k < out@.len() && out@[k] == rows[p];
                            if k < pos {
                                assert(out@[k].time < t);
                            } else {
                                if k > pos {
                                    assert(times(out@)[pos as int] < times(out@)[k]);
                                }
                            }
                        }
                    }
                }
                out.insert(pos, s);
            },
            None => {
                assert(kept_rows(stamps@, values@, i + 1) == rows);
            },
        }
        i = i + 1;
    }
    Ok(TimeSeries { name, samples: out })
}

/// A repeated timestamp among the first `i` rows stays repeated among more.
proof fn lemma_repeats_persist<V>(stamps: Seq<Option<i64>>, values: Seq<V>, i: int, n: int)
    requires
        0 <= i <= n,
        has_repeated_time(kept_rows(stamps, values, i)),
    ensures
        has_repeated_time(kept_rows(stamps, values, n)),
    decreases n - i,
{
    if i < n {
        let a = kept_rows(stamps, values, i);
        let b = kept_rows(stamps, values, i + 1);
        let (p, q) = choose|p: int, q: int| 0 <= p < q < a.len() && #[trigger] a[p].time == #[trigger] a[q].time;
        assert(b[p] == a[p] && b[q] == a[q]);
        lemma_repeats_persist(stamps, values, i + 1, n);
    }
}

/// Builds a series named `name` from a column of timestamp texts, read with
/// the strftime pattern `fmt`, and a value column of the same length. Rows
/// whose timestamp does not read are left out; the others are ordered by time.
pub fn series_from_columns<V: Copy>(name: String, stamps: &Vec<String>, values: &Vec<V>, fmt: &str) -> (r: Result<
    TimeSeries<V>,
    AdapterError,
>)
    requires
        stamps@.len() == values@.len(),
    ensures
        built_from(r, name, parsed_column(stamps@, fmt@), values@),
{
    let mut parsed: Vec<Option<i64>> = Vec::new();
    let mut i: usize = 0;
    while i < stamps.len()
        invariant
            i <= stamps@.len(),
            parsed@ =~= parsed_column(stamps@, fmt@).subrange(0, i as int),
        decreases stamps@.len() - i,
    {
        let p = parse_millis(stamps[i].as_str(), fmt);
        parsed.push(p);
        i = i + 1;
    }
    assert(parsed@ =~= parsed_column(stamps@, fmt@));
    series_from_parsed(name, &parsed, values)
}

} // verus!
