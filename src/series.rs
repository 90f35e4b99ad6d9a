use vstd::prelude::*;

verus! {

/// One reading: a timestamp in milliseconds since the Unix epoch, and a value.
#[derive(Clone, Copy, Debug)]
pub struct Sample<V> {
    pub time: i64,
    pub value: V,
}

/// A named sequence of readings, strictly increasing by timestamp.
#[derive(Clone, Debug)]
pub struct TimeSeries<V> {
    pub name: String,
    pub samples: Vec<Sample<V>>,
}

/// The timestamps of a sequence of samples, in order.
pub open spec fn times<V>(s: Seq<Sample<V>>) -> Seq<i64> {
    s.map_values(|x: Sample<V>| x.time)
}

/// Every timestamp is smaller than each one after it.
pub open spec fn strictly_ascending(t: Seq<i64>) -> bool {
    forall|i: int, j: int| 0 <= i < j < t.len() ==> t[i] < t[j]
}

/// Some sample of `s` has timestamp `t`.
pub open spec fn has_time<V>(s: Seq<Sample<V>>, t: i64) -> bool {
    exists|m: int| 0 <= m < s.len() && #[trigger] s[m].time == t
}

impl<V> TimeSeries<V> {
    /// The series is fit for alignment: its timestamps strictly ascend.
    pub open spec fn well_formed(&self) -> bool {
        strictly_ascending(times(self.samples@))
    }
}

} // verus!
