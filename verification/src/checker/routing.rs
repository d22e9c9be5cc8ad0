//! The routing check's rules on plain values: the routing matrix's shape and
//! values, and the arrival times, distances and durations that tours state
//! against those computed from the matrix.

use crate::datetime::{format_time_seconds, parse_time_seconds, rfc3339_seconds, rfc3339_text};
use crate::model::{Matrix, Solution, Stop, Tour};
use crate::text::{decimal, i64_to_string, signed_decimal, str_equal, usize_to_string};
use vstd::prelude::*;

verus! {

/// The largest matrix length handled: up to it, rounding the square root of a
/// length as a double gives the nearest integer computed here.
pub const MAX_MATRIX_LENGTH: u64 = 0x1_0000_0000_0000;

/// `k` is the square root of `n` rounded to the nearest integer.
pub open spec fn is_rounded_sqrt(n: int, k: int) -> bool {
    ||| n == 0 && k == 0
    ||| k * k - k < n <= k * k + k
}

/// The floor of the square root of `n`, found by bisection.
fn floor_sqrt(n: u64) -> (root: u64)
    requires
        n < MAX_MATRIX_LENGTH,
    ensures
        root * root <= n < (root + 1) * (root + 1),
        root <= 0x100_0000,
{
    let mut lo: u64 = 0;
    let mut hi: u64 = 0x100_0001;
    assert(hi * hi > n) by (nonlinear_arith)
        requires
            hi == 0x100_0001,
            n < MAX_MATRIX_LENGTH,
    ;
    while hi - lo > 1
        invariant
            lo < hi <= 0x100_0001,
            lo * lo <= n,
            n < hi * hi,
        decreases hi - lo,
    {
        let mid = lo + (hi - lo) / 2;
        assert(mid * mid <= 0x100_0001 * 0x100_0001) by (nonlinear_arith)
            requires
                mid <= 0x100_0001,
        ;
        if mid * mid <= n {
            lo = mid;
        } else {
            hi = mid;
        }
    }
    assert(hi == lo + 1);
    lo
}

/// Returns the size of the routing matrices: the square root of the length of
/// the first matrix's travel times, rounded to the nearest integer.
pub fn get_matrix_size(matrices: &[Matrix]) -> (size: usize)
    requires
        matrices.len() > 0,
        matrices@[0].travel_times.len() < MAX_MATRIX_LENGTH,
    ensures
        is_rounded_sqrt(matrices@[0].travel_times.len() as int, size as int),
{
    let n = matrices[0].travel_times.len() as u64;
    let f = floor_sqrt(n);
    let k = if n > f * f + f {
        f + 1
    } else {
        f
    };
    assert(is_rounded_sqrt(n as int, k as int)) by (nonlinear_arith)
        requires
            f * f <= n < (f + 1) * (f + 1),
            n > f * f + f ==> k == f + 1,
            n <= f * f + f ==> k == f,
    ;
    k as usize
}

/// Message for a matrix index out of bounds.
pub open spec fn out_of_bounds_msg(idx: nat, len: nat) -> Seq<char> {
    "attempt to get value out of bounds: "@ + decimal(idx) + " vs "@ + decimal(len)
}

/// Returns the matrix value at the given index.
pub fn get_matrix_value(idx: usize, matrix_values: &[i64]) -> (result: Result<i64, String>)
    ensures
        match result {
            Ok(value) => idx < matrix_values.len() && value == matrix_values@[idx as int],
            Err(e) => idx >= matrix_values.len() && e@ == out_of_bounds_msg(idx as nat, matrix_values.len() as nat),
        },
{
    if idx < matrix_values.len() {
        Ok(matrix_values[idx])
    } else {
        let mut message = String::from_str("attempt to get value out of bounds: ");
        message.append(usize_to_string(idx).as_str());
        message.append(" vs ");
        message.append(usize_to_string(matrix_values.len()).as_str());
        Err(message)
    }
}


/// Whether every stop of every tour has a zero distance, in which case the
/// solution carries no distances to check.
pub open spec fn all_distances_zero(solution: Solution) -> bool {
    forall|t: int, s: int|
        0 <= t < solution.tours.len() && 0 <= s < solution.tours@[t].stops.len() ==> (#[trigger] solution.tours@[t].stops@[s]).distance
            == 0
}

/// Whether distance checks are skipped: every stop of every tour has a zero distance.
pub fn skip_distance_check(solution: &Solution) -> (skip: bool)
    ensures
        skip == all_distances_zero(*solution),
{
    let tours = &solution.tours;
    let mut t: usize = 0;
    while t < tours.len()
        invariant
            t <= tours.len(),
            tours == &solution.tours,
            forall|u: int, s: int|
                0 <= u < t && 0 <= s < tours@[u].stops.len() ==> (#[trigger] tours@[u].stops@[s]).distance == 0,
        decreases tours.len() - t,
    {
        let stops = &tours[t].stops;
        let mut s: usize = 0;
        while s < stops.len()
            invariant
                s <= stops.len(),
                t < tours.len(),
                tours == &solution.tours,
                stops == &tours@[t as int].stops,
                forall|u: int, q: int|
                    0 <= u < t && 0 <= q < tours@[u].stops.len() ==> (#[trigger] tours@[u].stops@[q]).distance == 0,
                forall|q: int| 0 <= q < s ==> (#[trigger] stops@[q]).distance == 0,
            decreases stops.len() - s,
        {
            if stops[s].distance != 0 {
                proof {
                    assert(tours@[t as int].stops@[s as int].distance != 0);
                }
                return false;
            }
            s = s + 1;
        }
        t = t + 1;
    }
    true
}


/// The size of a square matrix is its side: the rounded root of a square is its root.
pub proof fn lemma_square_matrix_size(k: nat)
    ensures
        is_rounded_sqrt((k * k) as int, k as int),
{
    if k > 0 {
        assert(k * k - k < k * k <= k * k + k) by (nonlinear_arith)
            requires
                k > 0,
        ;
    }
}

/// Exactly one integer is the rounded square root of a length.
pub proof fn lemma_rounded_sqrt_unique(n: nat, k: nat, j: nat)
    requires
        is_rounded_sqrt(n as int, k as int),
        is_rounded_sqrt(n as int, j as int),
    ensures
        k == j,
{
    assert(k * k >= k && j * j >= j) by (nonlinear_arith);
    if k < j {
        assert(k * k + k <= j * j - j) by (nonlinear_arith)
            requires
                k < j,
        ;
    } else if j < k {
        assert(j * j + j <= k * k - k) by (nonlinear_arith)
            requires
                j < k,
        ;
    }
}

/// Whether `a` and `b` differ by more than one, as `(a - b).abs() > 1` on `i64`;
/// `None` where the difference or its absolute value leaves `i64`.
pub open spec fn differ_by_more_than_one(a: int, b: int) -> Option<bool> {
    if i64::MIN < a - b <= i64::MAX {
        Some(a - b > 1 || a - b < -1)
    } else {
        None
    }
}

/// Whether `a` and `b` differ by more than one.
fn far_apart(a: i64, b: i64) -> (apart: Option<bool>)
    ensures
        apart == differ_by_more_than_one(a as int, b as int),
{
    let d = a as i128 - b as i128;
    if d <= i64::MIN as i128 || d > i64::MAX as i128 {
        None
    } else {
        Some(d > 1 || d < -1)
    }
}

/// Message for a stop reached at another time than its schedule says.
pub open spec fn arrival_mismatch_msg(stop_idx: nat, id: Seq<char>, expected: Seq<char>, got: Seq<char>) -> Seq<char> {
    "arrival time mismatch for "@ + decimal(stop_idx) + " stop in the tour: "@ + id + ", expected: '"@ + expected
        + "', got: '"@ + got + "'"@
}

/// Message for a stop reached after another distance than it says.
pub open spec fn stop_distance_msg(stop_idx: nat, id: Seq<char>, expected: int, got: int) -> Seq<char> {
    "distance mismatch for "@ + decimal(stop_idx) + " stop in the tour: "@ + id + ", expected: '"@ + signed_decimal(
        expected,
    ) + "', got: '"@ + signed_decimal(got) + "'"@
}

/// The stop rule of the routing check: the stop is reached at `time`, within a
/// second of its scheduled arrival, and, unless distances are skipped, after
/// `total_distance`, within one of the distance it says. `None` where its
/// arrival or `time` cannot be read or written as a date time, or a difference
/// leaves `i64`.
pub open spec fn stop_statistic_rule(
    time: int,
    total_distance: int,
    stop_idx: nat,
    to: Stop,
    tour: Tour,
    skip_distance_check: bool,
) -> Option<Result<(), Seq<char>>> {
    match rfc3339_seconds(to.time.arrival@) {
        None => None,
        Some(arrival) => match differ_by_more_than_one(time, arrival) {
            None => None,
            Some(true) => match rfc3339_text(time) {
                None => None,
                Some(text) => Some(Err(arrival_mismatch_msg(stop_idx, tour.vehicle_id@, text, to.time.arrival@))),
            },
            Some(false) => if skip_distance_check {
                Some(Ok(()))
            } else {
                match differ_by_more_than_one(total_distance, to.distance as int) {
                    None => None,
                    Some(true) => Some(
                        Err(stop_distance_msg(stop_idx, tour.vehicle_id@, total_distance, to.distance as int)),
                    ),
                    Some(false) => Some(Ok(())),
                }
            },
        },
    }
}

/// An optional check result as its value.
pub open spec fn outcome_view(result: Option<Result<(), String>>) -> Option<Result<(), Seq<char>>> {
    match result {
        None => None,
        Some(Ok(_)) => Some(Ok(())),
        Some(Err(e)) => Some(Err(e@)),
    }
}

/// Checks the arrival time and distance of a stop against those computed from the
/// routing matrix: `time` and `total_distance` when reaching it as the
/// `stop_idx`-th stop of the tour. `None` where a time cannot be read or written,
/// or a difference leaves `i64`.
pub fn check_stop_statistic(
    time: i64,
    total_distance: i64,
    stop_idx: usize,
    to: &Stop,
    tour: &Tour,
    skip_distance_check: bool,
) -> (result: Option<Result<(), String>>)
    ensures
        outcome_view(result) == stop_statistic_rule(
            time as int,
            total_distance as int,
            stop_idx as nat,
            *to,
            *tour,
            skip_distance_check,
        ),
{
    let arrival = parse_time_seconds(to.time.arrival.as_str())?;
    if far_apart(time, arrival)? {
        let expected = format_time_seconds(time)?;
        let mut message = String::from_str("arrival time mismatch for ");
        message.append(usize_to_string(stop_idx).as_str());
        message.append(" stop in the tour: ");
        message.append(tour.vehicle_id.as_str());
        message.append(", expected: '");
        message.append(expected.as_str());
        message.append("', got: '");
        message.append(to.time.arrival.as_str());
        message.append("'");
        return Some(Err(message));
    }
    if !skip_distance_check && far_apart(total_distance, to.distance)? {
        let mut message = String::from_str("distance mismatch for ");
        message.append(usize_to_string(stop_idx).as_str());
        message.append(" stop in the tour: ");
        message.append(tour.vehicle_id.as_str());
        message.append(", expected: '");
        message.append(i64_to_string(total_distance).as_str());
        message.append("', got: '");
        message.append(i64_to_string(to.distance).as_str());
        message.append("'");
        return Some(Err(message));
    }
    Some(Ok(()))
}

/// The time a dispatch at the tour's start takes: the length of the time of the
/// second activity of the first stop when it is a dispatch, zero otherwise;
/// `None` where its time cannot be read or its length leaves `i64`.
pub open spec fn dispatch_correction(tour: Tour) -> Option<int> {
    let stops = tour.stops@;
    if stops.len() == 0 || stops[0].activities@.len() < 2 || stops[0].activities@[1].activity_type@ != "dispatch"@ {
        Some(0)
    } else {
        match stops[0].activities@[1].time {
            None => Some(0),
            Some(interval) => match (rfc3339_seconds(interval.end@), rfc3339_seconds(interval.start@)) {
                (Some(end), Some(start)) => if i64::MIN <= end - start <= i64::MAX {
                    Some(end - start)
                } else {
                    None
                },
                _ => None,
            },
        }
    }
}

/// Message for a tour whose statistic has another distance than computed.
pub open spec fn tour_distance_msg(id: Seq<char>, expected: int, got: int) -> Seq<char> {
    "distance mismatch for tour statistic: "@ + id + ", expected: '"@ + signed_decimal(expected) + "', got: '"@
        + signed_decimal(got) + "'"@
}

/// Message for a tour whose statistic has another duration than computed.
pub open spec fn tour_duration_msg(id: Seq<char>, expected: int, got: int) -> Seq<char> {
    "duration mismatch for tour statistic: "@ + id + ", expected: '"@ + signed_decimal(expected) + "', got: '"@
        + signed_decimal(got) + "'"@
}

/// The tour rule of the routing check: unless distances are skipped, the tour's
/// distance is within one of `total_distance`; its duration is within a second
/// of the time from `time_offset` to `departure_time`, plus the time of a
/// dispatch at its start. `None` where a time cannot be read or a sum or a
/// difference leaves `i64`.
pub open spec fn tour_statistic_rule(
    departure_time: int,
    total_distance: int,
    time_offset: int,
    tour: Tour,
    skip_distance_check: bool,
) -> Option<Result<(), Seq<char>>> {
    let distance = if skip_distance_check {
        Some(false)
    } else {
        differ_by_more_than_one(total_distance, tour.statistic.distance as int)
    };
    match distance {
        None => None,
        Some(true) => Some(Err(tour_distance_msg(tour.vehicle_id@, total_distance, tour.statistic.distance as int))),
        Some(false) => match dispatch_correction(tour) {
            None => None,
            Some(correction) => {
                let span = departure_time - time_offset;
                let total = span + correction;
                if !(i64::MIN <= span <= i64::MAX) || !(i64::MIN <= total <= i64::MAX) {
                    None
                } else {
                    match differ_by_more_than_one(total, tour.statistic.duration as int) {
                        None => None,
                        Some(true) => Some(
                            Err(tour_duration_msg(tour.vehicle_id@, total, tour.statistic.duration as int)),
                        ),
                        Some(false) => Some(Ok(())),
                    }
                }
            },
        },
    }
}

/// The time a dispatch at the tour's start takes.
fn get_dispatch_correction(tour: &Tour) -> (correction: Option<i64>)
    ensures
        match correction {
            Some(c) => dispatch_correction(*tour) == Some(c as int),
            None => dispatch_correction(*tour) is None,
        },
{
    if tour.stops.len() == 0 || tour.stops[0].activities.len() < 2 {
        return Some(0);
    }
    let activity = &tour.stops[0].activities[1];
    if !str_equal(activity.activity_type.as_str(), "dispatch") {
        return Some(0);
    }
    match &activity.time {
        None => Some(0),
        Some(interval) => {
            let end = parse_time_seconds(interval.end.as_str())?;
            let start = parse_time_seconds(interval.start.as_str())?;
            end.checked_sub(start)
        },
    }
}

/// Checks the distance and duration of a tour's statistic against those computed
/// from the routing matrix: `total_distance`, and the time from `time_offset`, the
/// departure from its first stop, to `departure_time`, the departure from its
/// last. `None` where a time cannot be read, or a sum or a difference leaves `i64`.
pub fn check_tour_statistic(
    departure_time: i64,
    total_distance: i64,
    time_offset: i64,
    tour: &Tour,
    skip_distance_check: bool,
) -> (result: Option<Result<(), String>>)
    ensures
        outcome_view(result) == tour_statistic_rule(
            departure_time as int,
            total_distance as int,
            time_offset as int,
            *tour,
            skip_distance_check,
        ),
{
    if !skip_distance_check && far_apart(total_distance, tour.statistic.distance)? {
        let mut message = String::from_str("distance mismatch for tour statistic: ");
        message.append(tour.vehicle_id.as_str());
        message.append(", expected: '");
        message.append(i64_to_string(total_distance).as_str());
        message.append("', got: '");
        message.append(i64_to_string(tour.statistic.distance).as_str());
        message.append("'");
        return Some(Err(message));
    }
    let correction = get_dispatch_correction(tour)?;
    let span = departure_time.checked_sub(time_offset)?;
    let total_duration = span.checked_add(correction)?;
    if far_apart(total_duration, tour.statistic.duration)? {
        let mut message = String::from_str("duration mismatch for tour statistic: ");
        message.append(tour.vehicle_id.as_str());
        message.append(", expected: '");
        message.append(i64_to_string(total_duration).as_str());
        message.append("', got: '");
        message.append(i64_to_string(tour.statistic.duration).as_str());
        message.append("'");
        return Some(Err(message));
    }
    Some(Ok(()))
}

} // verus!
