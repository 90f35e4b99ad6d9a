use vstd::prelude::*;
use std::fmt::Write;

verus! {

/// The instant that `s` denotes when read with the strftime pattern `fmt`, as
/// milliseconds since the Unix epoch with the reading taken as UTC; `None`
/// where `s` does not match `fmt`.
pub uninterp spec fn parsed_millis(s: Seq<char>, fmt: Seq<char>) -> Option<i64>;

/// The text that the strftime pattern `fmt` gives for the instant `ms`
/// milliseconds after the Unix epoch, in UTC; `None` where the instant is out
/// of range or `fmt` cannot be written.
pub uninterp spec fn formatted_millis(ms: i64, fmt: Seq<char>) -> Option<Seq<char>>;

/// Relies on chrono's `NaiveDateTime::parse_from_str`, read back through
/// `and_utc().timestamp_millis()`: the result depends on `s` and `fmt` alone.
#[verifier::external_body]
pub(crate) fn parse_millis(s: &str, fmt: &str) -> (r: Option<i64>)
    ensures
        r == parsed_millis(s@, fmt@),
{
    match chrono::NaiveDateTime::parse_from_str(s, fmt) {
        Ok(d) => Some(d.and_utc().timestamp_millis()),
        Err(_) => None,
    }
}

/// Relies on chrono's `DateTime::from_timestamp_millis` and the `format` of
/// the naive UTC time it gives: the result depends on `ms` and `fmt` alone.
#[verifier::external_body]
pub(crate) fn format_millis(ms: i64, fmt: &str) -> (r: Option<String>)
    ensures
        match r {
            Some(t) => formatted_millis(ms, fmt@) == Some(t@),
            None => formatted_millis(ms, fmt@) is None,
        },
{
    match chrono::DateTime::from_timestamp_millis(ms) {
        Some(d) => {
            let mut out = String::new();
            match write!(out, "{}", d.naive_utc().format(fmt)) {
                Ok(()) => Some(out),
                Err(_) => None,
            }
        },
        None => None,
    }
}

/// The labels that `fmt` gives for each instant of `timeline`, in order, or
/// `None` where one of them cannot be written.
pub fn timeline_labels(timeline: &Vec<i64>, fmt: &str) -> (r: Option<Vec<String>>)
    ensures
        r is Some <==> forall|k: int| 0 <= k < timeline@.len() ==> #[trigger] formatted_millis(timeline@[k], fmt@) is Some,
        r matches Some(ls) ==> ls@.len() == timeline@.len() && forall|k: int| 0 <= k < timeline@.len() ==>
            formatted_millis(timeline@[k], fmt@) == Some(#[trigger] ls@[k]@),
{
    let mut out: Vec<String> = Vec::new();
    let mut i: usize = 0;
    while i < timeline.len()
        invariant
            i <= timeline@.len(),
            out@.len() == i,
            forall|k: int| 0 <= k < i ==> formatted_millis(timeline@[k], fmt@) == Some(#[trigger] out@[k]@),
        decreases timeline@.len() - i,
    {
        match format_millis(timeline[i], fmt) {
            Some(t) => out.push(t),
            None => {
                assert(formatted_millis(timeline@[i as int], fmt@) is None);
                return None;
            },
        }
        i = i + 1;
    }
    assert forall|k: int| 0 <= k < timeline@.len() implies #[trigger] formatted_millis(timeline@[k], fmt@) is Some by {
        assert(formatted_millis(timeline@[k], fmt@) == Some(out@[k]@));
    }
    Some(out)
}

} // verus!
