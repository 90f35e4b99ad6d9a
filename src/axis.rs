use vstd::prelude::*;
use vstd::arithmetic::div_mod::{lemma_fundamental_div_mod, lemma_mod_bound};

verus! {

/// The rounding unit that axis bounds snap to unless a caller picks another.
pub const DEFAULT_ROUNDING_UNIT: i64 = 100;

/// Bounds of a value axis.
#[derive(Clone, Copy, Debug, PartialEq, Eq, Structural)]
pub struct AxisRange {
    pub min: i64,
    pub max: i64,
}

/// Why no range could be derived.
#[derive(Clone, Copy, Debug, PartialEq, Eq, Structural)]
pub enum RangeError {
    /// The sequence holds no value at all.
    EmptyValues,
}

/// The largest multiple of `u` that is at most `x` (for `u > 0`).
pub open spec fn floor_to(x: int, u: int) -> int {
    (x / u) * u
}

/// The smallest multiple of `u` that is at least `x` (for `u > 0`).
pub open spec fn ceil_to(x: int, u: int) -> int {
    -floor_to(-x, u)
}

/// The smallest value present in `v`, if any.
pub open spec fn min_present(v: Seq<Option<i64>>) -> Option<i64>
    decreases v.len(),
{
    if v.len() == 0 {
        None
    } else {
        let rest = min_present(v.drop_last());
        match v.last() {
            None => rest,
            Some(x) => match rest {
                None => Some(x),
                Some(m) => Some(if x < m { x } else { m }),
            },
        }
    }
}

/// The largest value present in `v`, if any.
pub open spec fn max_present(v: Seq<Option<i64>>) -> Option<i64>
    decreases v.len(),
{
    if v.len() == 0 {
        None
    } else {
        let rest = max_present(v.drop_last());
        match v.last() {
            None => rest,
            Some(x) => match rest {
                None => Some(x),
                Some(m) => Some(if x > m { x } else { m }),
            },
        }
    }
}

/// Every value present in `v` lies in `[lo, hi]`.
pub open spec fn present_within(v: Seq<Option<i64>>, lo: int, hi: int) -> bool {
    forall|i: int| 0 <= i < v.len() && #[trigger] v[i] is Some ==> lo <= v[i]->0 <= hi
}

/// The least and the greatest present values are present, and bound all others;
/// both are absent exactly when no value is present.
pub proof fn lemma_extremes(v: Seq<Option<i64>>)
    ensures
        min_present(v) is None <==> (forall|i: int| 0 <= i < v.len() ==> #[trigger] v[i] is None),
        max_present(v) is None <==> min_present(v) is None,
        min_present(v) is Some ==> present_within(v, min_present(v)->0 as int, max_present(v)->0 as int),
        min_present(v) is Some ==> exists|i: int| 0 <= i < v.len() && #[trigger] v[i] == min_present(v),
        max_present(v) is Some ==> exists|i: int| 0 <= i < v.len() && #[trigger] v[i] == max_present(v),
    decreases v.len(),
{
    if v.len() > 0 {
        let w = v.drop_last();
        lemma_extremes(w);
        assert forall|i: int| 0 <= i < w.len() implies #[trigger] w[i] == v[i] by {}
        if min_present(w) is Some {
            let p = choose|i: int| 0 <= i < w.len() && #[trigger] w[i] == min_present(w);
            assert(v[p] == w[p]);
            let q = choose|i: int| 0 <= i < w.len() && #[trigger] w[i] == max_present(w);
            assert(v[q] == w[q]);
        }
        if min_present(v) is None {
            assert forall|i: int| 0 <= i < v.len() implies #[trigger] v[i] is None by {
                if i < w.len() {
                    assert(w[i] is None);
                }
            }
        }
        assert(v[v.len() - 1] == v.last());
        if min_present(v) is Some {
            assert forall|i: int| 0 <= i < v.len() && #[trigger] v[i] is Some implies min_present(v)->0 <= v[i]->0
                <= max_present(v)->0 by {
                if i < w.len() {
                    assert(w[i] is Some);
                }
            }
        }
    }
}

/// Rounds `x` down to a multiple of `u`.
fn round_down(x: i64, u: i64) -> (r: i64)
    requires
        u > 0,
        x >= i64::MIN + u,
    ensures
        r == floor_to(x as int, u as int),
        x - u < r <= x,
{
    proof {
        lemma_fundamental_div_mod(x as int, u as int);
        lemma_mod_bound(x as int, u as int);
        let (xi, ui, qi) = (x as int, u as int, x as int / u as int);
        assert(qi * ui <= xi && xi - ui < qi * ui) by (nonlinear_arith)
            requires
                xi == ui * qi + xi % ui,
                0 <= xi % ui < ui,
        ;
        assert(i64::MIN <= qi <= i64::MAX) by (nonlinear_arith)
            requires
                qi * ui <= xi,
                xi - ui < qi * ui,
                ui >= 1,
                i64::MIN + ui <= xi <= i64::MAX,
        ;
    }
    let q = x.checked_div_euclid(u).unwrap();
    assert(q * u == floor_to(x as int, u as int)) by (nonlinear_arith)
        requires
            q == x as int / u as int,
    ;
    q * u
}

/// Rounds `x` up to a multiple of `u`.
fn round_up(x: i64, u: i64) -> (r: i64)
    requires
        u > 0,
        i64::MIN < x <= i64::MAX - u,
    ensures
        r == ceil_to(x as int, u as int),
        x <= r < x + u,
{
    let d = round_down(-x, u);
    -d
}

/// A range from the least to the greatest value present in `values`, with the
/// lower bound rounded down and the upper bound rounded up to a multiple of
/// `unit`. Absent values are skipped.
pub fn range(values: &Vec<Option<i64>>, unit: i64) -> (r: Result<AxisRange, RangeError>)
    requires
        unit > 0,
        present_within(values@, i64::MIN + unit, i64::MAX - unit),
    ensures
        match r {
            Ok(ar) => {
                &&& min_present(values@) is Some
                &&& ar.min == floor_to(min_present(values@)->0 as int, unit as int)
                &&& ar.max == ceil_to(max_present(values@)->0 as int, unit as int)
                &&& ar.min <= ar.max
                &&& present_within(values@, ar.min as int, ar.max as int)
            },
            Err(e) => e == RangeError::EmptyValues && min_present(values@) is None,
        },
{
    let n = values.len();
    let mut lo: Option<i64> = None;
    let mut hi: Option<i64> = None;
    let mut i: usize = 0;
    while i < n
        invariant
            n == values@.len(),
            i <= n,
            lo == min_present(values@.subrange(0, i as int)),
            hi == max_present(values@.subrange(0, i as int)),
        decreases n - i,
    {
        let ghost pre = values@.subrange(0, i as int);
        assert(values@.subrange(0, i + 1).drop_last() =~= pre);
        match values[i] {
            Some(x) => {
                lo = match lo {
                    None => Some(x),
                    Some(m) => Some(if x < m { x } else { m }),
                };
                hi = match hi {
                    None => Some(x),
                    Some(m) => Some(if x > m { x } else { m }),
                };
            },
            None => {},
        }
        i = i + 1;
    }
    assert(values@.subrange(0, n as int) =~= values@);
    proof {
        lemma_extremes(values@);
    }
    match (lo, hi) {
        (Some(l), Some(h)) => {
            proof {
                let p = choose|i: int| 0 <= i < values@.len() && #[trigger] values@[i] == min_present(values@);
                let q = choose|i: int| 0 <= i < values@.len() && #[trigger] values@[i] == max_present(values@);
                assert(values@[p] is Some && values@[q] is Some);
            }
            Ok(AxisRange { min: round_down(l, unit), max: round_up(h, unit) })
        },
        _ => Err(RangeError::EmptyValues),
    }
}

} // verus!
