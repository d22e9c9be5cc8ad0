//! Checks that a tour keeps the appointment bounds its shift declares: the
//! first job does not start before `earliest_first` (the vehicle may arrive
//! earlier and wait), and the last job's departure is not after `latest_last`.

use super::{
    combine_error_results, combined_errors, is_job_activity, lemma_shift_search_first, result_view, result_views, results_view, serves_job, shift_lookup,
    vehicle_index, CheckerContext,
};
use crate::datetime::{parse_time_seconds, rfc3339_seconds};
use crate::model::{Activity, Stop, Tour, VehicleShift};
use crate::text::{decimal, usize_to_string};
use vstd::prelude::*;

verus! {

/// Whether a stop has an activity that serves a job.
pub open spec fn is_job_stop(stop: Stop) -> bool {
    exists|a: int| 0 <= a < stop.activities@.len() && serves_job(#[trigger] stop.activities@[a])
}

/// The index of the first activity among the first `n` that serves a job.
pub open spec fn first_job_activity(activities: Seq<Activity>, n: nat) -> Option<int>
    decreases n,
{
    if n == 0 {
        None
    } else {
        match first_job_activity(activities, (n - 1) as nat) {
            Some(a) => Some(a),
            None => if serves_job(activities[n - 1]) {
                Some(n - 1)
            } else {
                None
            },
        }
    }
}

/// When a stop's first job starts: the start of the time of its first activity
/// serving a job, or the arrival at the stop where that activity has no time.
pub open spec fn job_start_text(stop: Stop) -> Seq<char> {
    match first_job_activity(stop.activities@, stop.activities@.len()) {
        Some(a) => match stop.activities@[a].time {
            Some(interval) => interval.start@,
            None => stop.time.arrival@,
        },
        None => stop.time.arrival@,
    }
}

/// The index of the first stop among the first `n` that serves a job.
pub open spec fn first_job_stop(stops: Seq<Stop>, n: nat) -> Option<int>
    decreases n,
{
    if n == 0 {
        None
    } else {
        match first_job_stop(stops, (n - 1) as nat) {
            Some(i) => Some(i),
            None => if is_job_stop(stops[n - 1]) {
                Some(n - 1)
            } else {
                None
            },
        }
    }
}

/// The index of the last stop among the first `n` that serves a job.
pub open spec fn last_job_stop(stops: Seq<Stop>, n: nat) -> Option<int>
    decreases n,
{
    if n == 0 {
        None
    } else if is_job_stop(stops[n - 1]) {
        Some(n - 1)
    } else {
        last_job_stop(stops, (n - 1) as nat)
    }
}

/// Message for a first job starting before the earliest allowed time.
pub open spec fn early_first_msg(start: Seq<char>, earliest: Seq<char>, id: Seq<char>, shift_index: usize) -> Seq<char> {
    "job time bound violation: first job starts at "@ + start + ", earliest allowed is "@ + earliest
        + ", vehicle id '"@ + id + "', shift index: "@ + decimal(shift_index as nat)
}

/// Message for a last job departing after the latest allowed time.
pub open spec fn late_last_msg(departure: Seq<char>, latest: Seq<char>, id: Seq<char>, shift_index: usize) -> Seq<char> {
    "job time bound violation: last job departs at "@ + departure + ", latest allowed is "@ + latest
        + ", vehicle id '"@ + id + "', shift index: "@ + decimal(shift_index as nat)
}

/// The bound on the last job's departure from stop `last`.
pub open spec fn latest_rule(tour: Tour, latest_last: Option<String>, last: int) -> Option<Result<(), Seq<char>>> {
    match latest_last {
        None => Some(Ok(())),
        Some(latest) => match (rfc3339_seconds(latest@), rfc3339_seconds(tour.stops@[last].time.departure@)) {
            (Some(bound), Some(departure)) => if departure > bound {
                Some(Err(late_last_msg(tour.stops@[last].time.departure@, latest@, tour.vehicle_id@, tour.shift_index)))
            } else {
                Some(Ok(()))
            },
            _ => None,
        },
    }
}

/// The job time rule for a tour: its shift is found; when the shift has job
/// time bounds and the tour serves jobs, the first job of the first stop serving
/// a job does not start before `earliest_first` (a vehicle may arrive earlier and
/// wait), and the departure from the last stop serving a job is not
/// after `latest_last`. `None` where a time cannot be read.
pub open spec fn tour_job_times_rule(ctx: CheckerContext, tour: Tour) -> Option<Result<(), Seq<char>>> {
    match shift_lookup(ctx, tour) {
        None => None,
        Some(Err(e)) => Some(Err(e)),
        Some(Ok(i)) => {
            let v = vehicle_index(ctx.problem.fleet.vehicles@, tour.vehicle_id@)->Some_0;
            let shift = ctx.problem.fleet.vehicles@[v].shifts@[i];
            let stops = tour.stops@;
            match shift.job_times {
                None => Some(Ok(())),
                Some(times) => match (first_job_stop(stops, stops.len()), last_job_stop(stops, stops.len())) {
                    (Some(first), Some(last)) => match times.earliest_first {
                        None => latest_rule(tour, times.latest_last, last),
                        Some(earliest) => match (
                            rfc3339_seconds(earliest@),
                            rfc3339_seconds(job_start_text(stops[first])),
                        ) {
                            (Some(bound), Some(start)) => if start < bound {
                                Some(
                                    Err(
                                        early_first_msg(
                                            job_start_text(stops[first]),
                                            earliest@,
                                            tour.vehicle_id@,
                                            tour.shift_index,
                                        ),
                                    ),
                                )
                            } else {
                                latest_rule(tour, times.latest_last, last)
                            },
                            _ => None,
                        },
                    },
                    _ => Some(Ok(())),
                },
            }
        },
    }
}

/// The job time rule over the first `n` tours, stopping at the first error.
pub open spec fn job_times_outcome(ctx: CheckerContext, n: nat) -> Option<Result<(), Seq<char>>>
    decreases n,
{
    if n == 0 {
        Some(Ok(()))
    } else {
        match job_times_outcome(ctx, (n - 1) as nat) {
            Some(Ok(_)) => tour_job_times_rule(ctx, ctx.solution.tours@[n - 1]),
            other => other,
        }
    }
}

/// Once the rule over the first `n` tours is settled, it stays so.
pub proof fn lemma_job_times_settled(ctx: CheckerContext, n: nat, m: nat)
    requires
        n <= m,
        !(job_times_outcome(ctx, n) matches Some(Ok(_))),
    ensures
        job_times_outcome(ctx, m) == job_times_outcome(ctx, n),
    decreases m,
{
    if m > n {
        lemma_job_times_settled(ctx, n, (m - 1) as nat);
    }
}

/// Returns when a stop's first job starts, as text.
fn job_start(stop: &Stop) -> (start: &str)
    ensures
        start@ == job_start_text(*stop),
{
    let mut a: usize = 0;
    while a < stop.activities.len()
        invariant
            a <= stop.activities.len(),
            first_job_activity(stop.activities@, a as nat) is None,
        decreases stop.activities.len() - a,
    {
        if is_job_activity(&stop.activities[a]) {
            proof {
                lemma_first_job_activity_stays(stop.activities@, (a + 1) as nat, stop.activities.len() as nat);
            }
            return match &stop.activities[a].time {
                Some(interval) => interval.start.as_str(),
                None => stop.time.arrival.as_str(),
            };
        }
        a = a + 1;
    }
    stop.time.arrival.as_str()
}

/// A first job activity among the first `n` is the first among the first `m`.
proof fn lemma_first_job_activity_stays(activities: Seq<Activity>, n: nat, m: nat)
    requires
        n <= m,
        first_job_activity(activities, n) is Some,
    ensures
        first_job_activity(activities, m) == first_job_activity(activities, n),
    decreases m,
{
    if m > n {
        lemma_first_job_activity_stays(activities, n, (m - 1) as nat);
    }
}

/// Returns whether a stop has an activity that serves a job.
fn has_job_activity(stop: &Stop) -> (found: bool)
    ensures
        found == is_job_stop(*stop),
{
    let mut a: usize = 0;
    while a < stop.activities.len()
        invariant
            a <= stop.activities.len(),
            forall|b: int| 0 <= b < a ==> !serves_job(#[trigger] stop.activities@[b]),
        decreases stop.activities.len() - a,
    {
        if is_job_activity(&stop.activities[a]) {
            return true;
        }
        a = a + 1;
    }
    false
}

/// The indices of the first and of the last stop that serve a job.
fn job_stop_range(stops: &Vec<Stop>) -> (range: Option<(usize, usize)>)
    ensures
        match range {
            Some((f, l)) => first_job_stop(stops@, stops.len() as nat) == Some(f as int) && last_job_stop(
                stops@,
                stops.len() as nat,
            ) == Some(l as int),
            None => first_job_stop(stops@, stops.len() as nat) is None && last_job_stop(stops@, stops.len() as nat)
                is None,
        },
{
    let mut first: Option<usize> = None;
    let mut last: Option<usize> = None;
    let mut s: usize = 0;
    while s < stops.len()
        invariant
            s <= stops.len(),
            match first {
                Some(f) => first_job_stop(stops@, s as nat) == Some(f as int),
                None => first_job_stop(stops@, s as nat) is None,
            },
            match last {
                Some(l) => last_job_stop(stops@, s as nat) == Some(l as int),
                None => last_job_stop(stops@, s as nat) is None,
            },
        decreases stops.len() - s,
    {
        if has_job_activity(&stops[s]) {
            if first.is_none() {
                first = Some(s);
            }
            last = Some(s);
        }
        s = s + 1;
    }
    proof {
        lemma_job_stops_together(stops@, stops.len() as nat);
    }
    match (first, last) {
        (Some(f), Some(l)) => Some((f, l)),
        _ => None,
    }
}

/// Checks the bound on the last job's departure from stop `last`.
fn check_latest(tour: &Tour, latest_last: &Option<String>, last: usize) -> (result: Option<Result<(), String>>)
    requires
        last < tour.stops.len(),
    ensures
        outcome_of(result) == latest_rule(*tour, *latest_last, last as int),
{
    match latest_last {
        None => Some(Ok(())),
        Some(latest) => {
            let bound = parse_time_seconds(latest.as_str())?;
            let departure = parse_time_seconds(tour.stops[last].time.departure.as_str())?;
            if departure > bound {
                let mut message = String::from_str("job time bound violation: last job departs at ");
                message.append(tour.stops[last].time.departure.as_str());
                message.append(", latest allowed is ");
                message.append(latest.as_str());
                message.append(", vehicle id '");
                message.append(tour.vehicle_id.as_str());
                message.append("', shift index: ");
                message.append(usize_to_string(tour.shift_index).as_str());
                Some(Err(message))
            } else {
                Some(Ok(()))
            }
        },
    }
}

/// An optional check result as its value.
pub open spec fn outcome_of(result: Option<Result<(), String>>) -> Option<Result<(), Seq<char>>> {
    match result {
        None => None,
        Some(Ok(_)) => Some(Ok(())),
        Some(Err(e)) => Some(Err(e@)),
    }
}

/// Checks the job time bounds of one tour.
fn check_tour_job_times(ctx: &CheckerContext, tour: &Tour) -> (result: Option<Result<(), String>>)
    ensures
        outcome_of(result) == tour_job_times_rule(*ctx, *tour),
{
    let i = match ctx.get_vehicle_shift(tour)? {
        Ok(i) => i,
        Err(e) => return Some(Err(e)),
    };
    let vehicle = match ctx.get_vehicle(tour.vehicle_id.as_str()) {
        Ok(vehicle) => vehicle,
        Err(_) => return None,
    };
    proof {
        let stops = tour.stops@;
        lemma_shift_search_first(
            vehicle.shifts@,
            vehicle.shifts.len() as nat,
            rfc3339_seconds(stops[0].time.arrival@)->Some_0,
            rfc3339_seconds(stops.last().time.arrival@)->Some_0,
        );
    }
    if i >= vehicle.shifts.len() {
        return None;
    }
    let times = match &vehicle.shifts[i].job_times {
        None => return Some(Ok(())),
        Some(times) => times,
    };
    let (first, last) = match job_stop_range(&tour.stops) {
        None => return Some(Ok(())),
        Some(range) => range,
    };
    proof {
        assert(first < tour.stops.len() && last < tour.stops.len()) by {
            lemma_job_stop_bounds(tour.stops@, tour.stops.len() as nat);
        }
    }
    match &times.earliest_first {
        None => check_latest(tour, &times.latest_last, last),
        Some(earliest) => {
            let bound = parse_time_seconds(earliest.as_str())?;
            let start_text = job_start(&tour.stops[first]);
            let start = parse_time_seconds(start_text)?;
            if start < bound {
                let mut message = String::from_str("job time bound violation: first job starts at ");
                message.append(start_text);
                message.append(", earliest allowed is ");
                message.append(earliest.as_str());
                message.append(", vehicle id '");
                message.append(tour.vehicle_id.as_str());
                message.append("', shift index: ");
                message.append(usize_to_string(tour.shift_index).as_str());
                Some(Err(message))
            } else {
                check_latest(tour, &times.latest_last, last)
            }
        },
    }
}

/// A first job stop exists exactly when a last one does.
proof fn lemma_job_stops_together(stops: Seq<Stop>, n: nat)
    ensures
        first_job_stop(stops, n) is None <==> last_job_stop(stops, n) is None,
    decreases n,
{
    if n > 0 {
        lemma_job_stops_together(stops, (n - 1) as nat);
    }
}

/// The first and last job stops lie among the stops.
proof fn lemma_job_stop_bounds(stops: Seq<Stop>, n: nat)
    ensures
        first_job_stop(stops, n) matches Some(f) ==> 0 <= f < n,
        last_job_stop(stops, n) matches Some(l) ==> 0 <= l < n,
    decreases n,
{
    if n > 0 {
        lemma_job_stop_bounds(stops, (n - 1) as nat);
    }
}

/// The job time rule over all tours; `None` where a time cannot be read.
pub open spec fn job_times_result(ctx: CheckerContext) -> Option<Result<(), Seq<char>>> {
    job_times_outcome(ctx, ctx.solution.tours.len() as nat)
}

/// Checks that every tour keeps the job time bounds of its shift, stopping at the
/// first tour that does not; `None` where a time cannot be read.
pub fn check_job_time_bounds(ctx: &CheckerContext) -> (result: Option<Result<(), String>>)
    ensures
        outcome_of(result) == job_times_result(*ctx),
{
    let tours = &ctx.solution.tours;
    let mut t: usize = 0;
    while t < tours.len()
        invariant
            t <= tours.len(),
            tours == &ctx.solution.tours,
            job_times_outcome(*ctx, t as nat) == Some(Ok::<(), Seq<char>>(())),
        decreases tours.len() - t,
    {
        match check_tour_job_times(ctx, &tours[t]) {
            Some(Ok(_)) => {},
            other => {
                proof {
                    lemma_job_times_settled(*ctx, (t + 1) as nat, tours.len() as nat);
                }
                return other;
            },
        }
        t = t + 1;
    }
    Some(Ok(()))
}

/// The job time rule's result: the error of the first failing tour, if any.
pub open spec fn job_times_value(ctx: CheckerContext) -> Result<(), Seq<char>> {
    match job_times_result(ctx) {
        Some(Err(e)) => Err(e),
        _ => Ok(()),
    }
}

/// The job time rule as a list of errors.
pub open spec fn job_times_errors(ctx: CheckerContext) -> Result<(), Seq<Seq<char>>> {
    combined_errors(seq![job_times_value(ctx)])
}

/// Checks that tours keep the appointment bounds their shifts declare: the first
/// job does not start before `earliest_first`, and the last job's departure is
/// not after `latest_last`. `None` where a time cannot be read.
pub fn check_job_times(ctx: &CheckerContext) -> (result: Option<Result<(), Vec<String>>>)
    ensures
        match result {
            None => job_times_result(*ctx) is None,
            Some(r) => job_times_result(*ctx) is Some && results_view(r) == job_times_errors(*ctx),
        },
{
    let bounds = check_job_time_bounds(ctx)?;
    let results = [bounds];
    let combined = combine_error_results(&results);
    proof {
        assert(result_views(results@) =~= seq![job_times_value(*ctx)]);
    }
    Some(combined)
}

/// The shift found for a tour, where one is found.
pub open spec fn found_shift(ctx: CheckerContext, tour: Tour) -> VehicleShift {
    ctx.problem.fleet.vehicles@[vehicle_index(ctx.problem.fleet.vehicles@, tour.vehicle_id@)->Some_0].shifts@[shift_lookup(
        ctx,
        tour,
    )->Some_0->Ok_0]
}

/// The last stop serving a job is the one after which no stop serves a job.
proof fn lemma_last_job_stop_is(stops: Seq<Stop>, last: int, n: nat)
    requires
        0 <= last < n <= stops.len(),
        is_job_stop(stops[last]),
        forall|s: int| last < s < stops.len() ==> !is_job_stop(#[trigger] stops[s]),
    ensures
        last_job_stop(stops, n) == Some(last),
    decreases n,
{
    if n - 1 > last {
        lemma_last_job_stop_is(stops, last, (n - 1) as nat);
    }
}

/// The first stop serving a job is the one before which no stop serves a job.
proof fn lemma_first_job_stop_is(stops: Seq<Stop>, first: int, n: nat)
    requires
        0 <= first < n <= stops.len(),
        is_job_stop(stops[first]),
        forall|s: int| 0 <= s < first ==> !is_job_stop(#[trigger] stops[s]),
    ensures
        first_job_stop(stops, n) == Some(first),
    decreases n,
{
    if n - 1 > first {
        lemma_first_job_stop_is(stops, first, (n - 1) as nat);
    } else {
        lemma_no_job_stop_before(stops, first as nat);
    }
}

proof fn lemma_no_job_stop_before(stops: Seq<Stop>, n: nat)
    requires
        n <= stops.len(),
        forall|s: int| 0 <= s < n ==> !is_job_stop(#[trigger] stops[s]),
    ensures
        first_job_stop(stops, n) is None,
    decreases n,
{
    if n > 0 {
        lemma_no_job_stop_before(stops, (n - 1) as nat);
    }
}

/// A passing rule over the first `n` tours passes for each of them.
proof fn lemma_job_times_each(ctx: CheckerContext, n: nat, t: int)
    requires
        0 <= t < n <= ctx.solution.tours.len(),
        job_times_outcome(ctx, n) == Some(Ok::<(), Seq<char>>(())),
    ensures
        tour_job_times_rule(ctx, ctx.solution.tours@[t]) == Some(Ok::<(), Seq<char>>(())),
    decreases n,
{
    if !(job_times_outcome(ctx, (n - 1) as nat) matches Some(Ok(_))) {
        lemma_job_times_settled(ctx, (n - 1) as nat, n);
    } else if t < n - 1 {
        lemma_job_times_each(ctx, (n - 1) as nat, t);
    }
}

/// Tours keep the job time bounds of their shifts: when the job time check
/// passes, the departure from a tour's last stop serving a job is not after its
/// shift's `latest_last`, and the first job of its first stop serving a job does
/// not start before the shift's `earliest_first`; each bound holds whether or
/// not the other is set.
pub proof fn lemma_passing_job_times_keep_bounds(ctx: CheckerContext, t: int, first: int, last: int)
    requires
        job_times_result(ctx) == Some(Ok::<(), Seq<char>>(())),
        0 <= t < ctx.solution.tours.len(),
        0 <= first <= last < ctx.solution.tours@[t].stops.len(),
        is_job_stop(ctx.solution.tours@[t].stops@[first]),
        is_job_stop(ctx.solution.tours@[t].stops@[last]),
        forall|s: int| 0 <= s < first ==> !is_job_stop(#[trigger] ctx.solution.tours@[t].stops@[s]),
        forall|s: int|
            last < s < ctx.solution.tours@[t].stops.len() ==> !is_job_stop(#[trigger] ctx.solution.tours@[t].stops@[s]),
    ensures
        shift_lookup(ctx, ctx.solution.tours@[t]) matches Some(Ok(_)),
        ({
            let tour = ctx.solution.tours@[t];
            let shift = found_shift(ctx, tour);
            &&& match shift.job_times {
                Some(times) => match times.latest_last {
                    Some(latest) => {
                        &&& rfc3339_seconds(latest@) is Some
                        &&& rfc3339_seconds(tour.stops@[last].time.departure@) is Some
                        &&& rfc3339_seconds(tour.stops@[last].time.departure@)->Some_0 <= rfc3339_seconds(
                            latest@,
                        )->Some_0
                    },
                    None => true,
                },
                None => true,
            }
            &&& match shift.job_times {
                Some(times) => match times.earliest_first {
                    Some(earliest) => {
                        &&& rfc3339_seconds(earliest@) is Some
                        &&& rfc3339_seconds(job_start_text(tour.stops@[first])) is Some
                        &&& rfc3339_seconds(earliest@)->Some_0 <= rfc3339_seconds(
                            job_start_text(tour.stops@[first]),
                        )->Some_0
                    },
                    None => true,
                },
                None => true,
            }
        }),
{
    let tour = ctx.solution.tours@[t];
    let stops = tour.stops@;
    lemma_job_times_each(ctx, ctx.solution.tours.len() as nat, t);
    lemma_last_job_stop_is(stops, last, stops.len());
    lemma_first_job_stop_is(stops, first, stops.len());
}

} // verus!
