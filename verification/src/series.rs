//! Price series with gaps: the boundary prices of a series, and its record
//! highs.
//!
//! A series holds one point per trading day, oldest first. A point is absent
//! where the day has no price.

use vstd::prelude::*;

use crate::binary64::{order_key_orders_as_value, Binary64};
use crate::error::SeriesError;

verus! {

/// The boundary prices of a series, each with the index of its point.
#[derive(Clone, Copy, Debug, PartialEq, Eq, Structural)]
pub struct Boundaries {
    pub first_index: usize,
    pub first_valid: Binary64,
    pub last_index: usize,
    pub last_valid: Binary64,
}

/// Whether a point can open a series: it is present and greater than zero.
pub open spec fn is_valid_start(point: Option<Binary64>) -> bool {
    point matches Some(price) && price.is_positive()
}

/// Whether some point of `series` can open it.
pub open spec fn has_valid_start(series: Seq<Option<Binary64>>) -> bool {
    exists|i: int| 0 <= i < series.len() && is_valid_start(#[trigger] series[i])
}

/// Whether `i` is the earliest point of `series` that can open it.
pub open spec fn first_valid_at(series: Seq<Option<Binary64>>, i: int) -> bool {
    &&& 0 <= i < series.len()
    &&& is_valid_start(series[i])
    &&& forall|j: int| 0 <= j < i ==> !is_valid_start(#[trigger] series[j])
}

/// Whether `i` is the latest point of `series` that is present. Its sign is
/// not looked at.
pub open spec fn last_present_at(series: Seq<Option<Binary64>>, i: int) -> bool {
    &&& 0 <= i < series.len()
    &&& series[i] is Some
    &&& forall|j: int| i < j < series.len() ==> (#[trigger] series[j]) is None
}

/// The boundary prices of `series`: the earliest point that is present and
/// greater than zero, and the latest point that is present; or the reason
/// why it has none.
pub open spec fn boundaries_of(series: Seq<Option<Binary64>>) -> Result<Boundaries, SeriesError> {
    if series.len() == 0 {
        Err(SeriesError::EmptySeries)
    } else if !has_valid_start(series) {
        Err(SeriesError::NoValidPoint)
    } else {
        let first = choose|i: int| first_valid_at(series, i);
        let last = choose|i: int| last_present_at(series, i);
        Ok(
            Boundaries {
                first_index: first as usize,
                first_valid: series[first]->0,
                last_index: last as usize,
                last_valid: series[last]->0,
            },
        )
    }
}

/// A series has boundary prices exactly where one of its points is present
/// and greater than zero. They are then that of the earliest such point, and
/// that of the latest point that is present, whatever its sign. A series
/// without such a point fails: as empty where it has no point at all.
pub proof fn boundaries_are_first_valid_and_last_present(series: Seq<Option<Binary64>>)
    requires
        series.len() <= usize::MAX,
    ensures
        boundaries_of(series) is Ok <==> has_valid_start(series),
        match boundaries_of(series) {
            Ok(b) => {
                &&& first_valid_at(series, b.first_index as int)
                &&& series[b.first_index as int] == Some(b.first_valid)
                &&& last_present_at(series, b.last_index as int)
                &&& series[b.last_index as int] == Some(b.last_valid)
                &&& b.first_index <= b.last_index
            },
            Err(SeriesError::EmptySeries) => series.len() == 0,
            Err(SeriesError::NoValidPoint) => series.len() > 0,
        },
{
    if has_valid_start(series) {
        let some = choose|i: int| 0 <= i < series.len() && is_valid_start(#[trigger] series[i]);
        let first = lemma_first_valid_exists(series, some);
        let last = lemma_last_present_exists(series, series.len() - 1, some);
        assert(first_valid_at(series, first));
        assert(last_present_at(series, last));
        let f = choose|i: int| first_valid_at(series, i);
        let l = choose|i: int| last_present_at(series, i);
        assert(f <= l) by {
            if l < f {
                assert(series[f] is None);
            }
        }
    }
}

proof fn lemma_first_valid_exists(series: Seq<Option<Binary64>>, at: int) -> (first: int)
    requires
        0 <= at < series.len(),
        is_valid_start(series[at]),
    ensures
        first_valid_at(series, first),
        first <= at,
    decreases at,
{
    if exists|j: int| 0 <= j < at && is_valid_start(#[trigger] series[j]) {
        let j = choose|j: int| 0 <= j < at && is_valid_start(#[trigger] series[j]);
        lemma_first_valid_exists(series, j)
    } else {
        at
    }
}

proof fn lemma_last_present_exists(series: Seq<Option<Binary64>>, from: int, present: int) -> (last: int)
    requires
        0 <= present <= from < series.len(),
        series[present] is Some,
        forall|j: int| from < j < series.len() ==> (#[trigger] series[j]) is None,
    ensures
        last_present_at(series, last),
        present <= last,
    decreases from,
{
    if series[from] is Some {
        from
    } else {
        lemma_last_present_exists(series, from - 1, present)
    }
}

/// Finds the boundary prices of `series`: the earliest point that is present
/// and greater than zero, and the latest point that is present. Fails on a
/// series without points, and on one in which no point is present and
/// greater than zero.
pub fn extract_boundaries(series: &Vec<Option<Binary64>>) -> (r: Result<Boundaries, SeriesError>)
    ensures
        r == boundaries_of(series@),
        r is Ok <==> has_valid_start(series@),
        match r {
            Ok(b) => {
                &&& first_valid_at(series@, b.first_index as int)
                &&& series@[b.first_index as int] == Some(b.first_valid)
                &&& last_present_at(series@, b.last_index as int)
                &&& series@[b.last_index as int] == Some(b.last_valid)
            },
            Err(SeriesError::EmptySeries) => series@.len() == 0,
            Err(SeriesError::NoValidPoint) => series@.len() > 0,
        },
{
    let n = series.len();
    if n == 0 {
        return Err(SeriesError::EmptySeries);
    }
    let mut first: usize = 0;
    let mut opening: Option<Binary64> = None;
    while first < n
        invariant_except_break
            opening is None,
        invariant
            n == series.len(),
            first <= n,
            forall|j: int| 0 <= j < first ==> !is_valid_start(#[trigger] series@[j]),
        ensures
            first <= n,
            forall|j: int| 0 <= j < first ==> !is_valid_start(#[trigger] series@[j]),
            first < n <==> opening is Some,
            opening matches Some(price) ==> series@[first as int] == Some(price) && price.is_positive(),
        decreases n - first,
    {
        match series[first] {
            Some(price) => {
                if price.positive() {
                    opening = Some(price);
                    break ;
                }
            },
            None => {},
        }
        first += 1;
    }
    match opening {
        None => Err(SeriesError::NoValidPoint),
        Some(first_valid) => {
            let mut last: usize = n - 1;
            let mut closing: Binary64 = first_valid;
            loop
                invariant
                    n == series.len(),
                    first <= last < n,
                    series@[first as int] is Some,
                    forall|j: int| last < j < n ==> (#[trigger] series@[j]) is None,
                ensures
                    last < n,
                    series@[last as int] == Some(closing),
                    forall|j: int| last < j < n ==> (#[trigger] series@[j]) is None,
                decreases last,
            {
                match series[last] {
                    Some(price) => {
                        closing = price;
                        break ;
                    },
                    None => {},
                }
                last -= 1;
            }
            proof {
                assert(first_valid_at(series@, first as int));
                assert(last_present_at(series@, last as int));
                let f = choose|i: int| first_valid_at(series@, i);
                let l = choose|i: int| last_present_at(series@, i);
                assert(f == first);
                assert(l == last);
            }
            Ok(Boundaries { first_index: first, first_valid, last_index: last, last_valid: closing })
        },
    }
}

/// Whether the point at `i` is a record high of `series`: a price greater
/// than zero and greater than every price before it. A price that stands for
/// no number is no record, and none has to exceed it.
pub open spec fn is_record_high(series: Seq<Option<Binary64>>, i: int) -> bool {
    &&& 0 <= i < series.len()
    &&& series[i] matches Some(price)
    &&& price.is_positive()
    &&& forall|j: int|
        0 <= j < i ==> ((#[trigger] series[j]) matches Some(earlier) ==> earlier.is_nan()
            || earlier.less_than(price))
}

/// How many of the first `n` points of `series` are present.
pub open spec fn present_among(series: Seq<Option<Binary64>>, n: int) -> int
    decreases n,
{
    if n <= 0 {
        0
    } else {
        present_among(series, n - 1) + if series[n - 1] is Some {
            1int
        } else {
            0int
        }
    }
}

/// The record highs of a series, and the number of its present points.
#[derive(Debug)]
pub struct Highs {
    /// The indices of the record highs, ascending.
    pub records: Vec<usize>,
    /// The number of points that are present.
    pub present: usize,
}

/// Finds the record highs of `series` and counts its present points.
pub fn record_highs(series: &Vec<Option<Binary64>>) -> (highs: Highs)
    ensures
        highs.present == present_among(series@, series@.len() as int),
        forall|a: int, b: int|
            0 <= a < b < highs.records@.len() ==> highs.records@[a] < highs.records@[b],
        forall|a: int|
            0 <= a < highs.records@.len() ==> is_record_high(series@, #[trigger] highs.records@[a] as int),
        forall|i: int|
            is_record_high(series@, i) ==> exists|a: int|
                0 <= a < highs.records@.len() && #[trigger] highs.records@[a] == i,
{
    let n = series.len();
    let mut records: Vec<usize> = Vec::new();
    let mut present: usize = 0;
    let mut highest = Binary64 { bits: 0 };
    proof {
        order_key_orders_as_value(highest, highest);
    }
    let mut i: usize = 0;
    while i < n
        invariant
            n == series.len(),
            i <= n,
            present == present_among(series@, i as int),
            present <= i,
            !highest.is_nan(),
            highest.scaled_value() >= 0,
            forall|j: int|
                0 <= j < i ==> ((#[trigger] series@[j]) matches Some(earlier) ==> earlier.is_nan()
                    || earlier.scaled_value() <= highest.scaled_value()),
            highest.scaled_value() > 0 ==> exists|j: int|
                0 <= j < i && #[trigger] series@[j] == Some(highest),
            forall|a: int| 0 <= a < records@.len() ==> (#[trigger] records@[a]) < i,
            forall|a: int, b: int| 0 <= a < b < records@.len() ==> records@[a] < records@[b],
            forall|a: int|
                0 <= a < records@.len() ==> is_record_high(series@, #[trigger] records@[a] as int),
            forall|k: int|
                0 <= k < i && is_record_high(series@, k) ==> exists|a: int|
                    0 <= a < records@.len() && #[trigger] records@[a] == k,
        decreases n - i,
    {
        match series[i] {
            Some(price) => {
                if highest.lt(price) {
                    assert(is_record_high(series@, i as int));
                    let ghost before = records@;
                    records.push(i);
                    highest = price;
                    proof {
                        assert forall|k: int|
                            0 <= k < i + 1 && is_record_high(series@, k) implies exists|a: int|
                            0 <= a < records@.len() && #[trigger] records@[a] == k by {
                            if k < i {
                                let a = choose|a: int| 0 <= a < before.len() && #[trigger] before[a] == k;
                                assert(records@[a] == k);
                            } else {
                                assert(records@[before.len() as int] == k);
                            }
                        }
                    }
                } else {
                    proof {
                        if highest.scaled_value() > 0 {
                            let j = choose|j: int| 0 <= j < i && #[trigger] series@[j] == Some(highest);
                            assert(!is_record_high(series@, i as int));
                        }
                    }
                }
                present += 1;
            },
            None => {},
        }
        i += 1;
    }
    Highs { records, present }
}

} // verus!
