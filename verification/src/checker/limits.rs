//! The tour size and shift time rules of the limit checks; the distance and
//! duration limits compare with floating point limits and are checked outside.

use super::{is_job_activity, serves_job, stops_activities, unknown_vehicle_msg, vehicle_index, CheckerContext};
use crate::datetime::{parse_time_seconds, rfc3339_seconds};
use crate::model::{Activity, Tour, VehicleShift};
use crate::text::{decimal, usize_to_string};
use vstd::prelude::*;

verus! {

/// The number of activities among the first `n` that serve a job.
pub open spec fn job_activities_in(activities: Seq<Activity>, n: nat) -> nat
    decreases n,
{
    if n == 0 {
        0
    } else {
        job_activities_in(activities, (n - 1) as nat) + if serves_job(activities[n - 1]) {
            1nat
        } else {
            0nat
        }
    }
}

/// The size of a tour: the number of its activities that serve a job, that is,
/// all but departures, arrivals, breaks, reloads and recharges.
pub open spec fn tour_job_activities(tour: Tour) -> nat {
    let activities = stops_activities(tour.stops@);
    job_activities_in(activities, activities.len())
}

/// Message for a tour with more activities than its vehicle's limit.
pub open spec fn tour_size_msg(limit: usize, size: nat, id: Seq<char>, shift: usize) -> Seq<char> {
    "tour size limit violation, expected: not more than "@ + decimal(limit as nat) + ", got: "@ + decimal(size)
        + ", vehicle id '"@ + id + "', shift index: "@ + decimal(shift as nat)
}

/// The job activities among the first `n` are no more than `n`.
proof fn lemma_job_activities_bound(activities: Seq<Activity>, n: nat)
    ensures
        job_activities_in(activities, n) <= n,
    decreases n,
{
    if n > 0 {
        lemma_job_activities_bound(activities, (n - 1) as nat);
    }
}

/// The number of activities of a tour that serve a job.
fn job_activity_count(tour: &Tour) -> (count: usize)
    requires
        stops_activities(tour.stops@).len() <= usize::MAX,
    ensures
        count == tour_job_activities(*tour),
{
    let ghost all = stops_activities(tour.stops@);
    let mut count: usize = 0;
    let ghost mut idx: nat = 0;
    let mut s: usize = 0;
    while s < tour.stops.len()
        invariant
            s <= tour.stops.len(),
            all == stops_activities(tour.stops@),
            idx == stops_activities(tour.stops@.take(s as int)).len(),
            idx <= all.len(),
            all.len() <= usize::MAX,
            count == job_activities_in(all, idx),
        decreases tour.stops.len() - s,
    {
        let stop = &tour.stops[s];
        proof {
            assert(tour.stops@.take(s + 1).drop_last() =~= tour.stops@.take(s as int));
            assert(tour.stops@.take(s + 1).last() == tour.stops@[s as int]);
            super::lemma_stops_activities_prefix(tour.stops@, (s + 1) as nat);
        }
        let mut a: usize = 0;
        while a < stop.activities.len()
            invariant
                s < tour.stops.len(),
                stop == &tour.stops@[s as int],
                a <= stop.activities.len(),
                all == stops_activities(tour.stops@),
                idx == stops_activities(tour.stops@.take(s as int)).len() + a,
                stops_activities(tour.stops@.take(s + 1)).len() == stops_activities(tour.stops@.take(s as int)).len()
                    + stop.activities.len(),
                stops_activities(tour.stops@.take(s + 1)).len() <= all.len(),
                all.len() <= usize::MAX,
                count == job_activities_in(all, idx),
            decreases stop.activities.len() - a,
        {
            proof {
                super::lemma_stops_activities_at(tour.stops@, s as int, a as int);
                lemma_job_activities_bound(all, idx);
            }
            if is_job_activity(&stop.activities[a]) {
                count = count + 1;
            }
            a = a + 1;
            proof {
                idx = idx + 1;
            }
        }
        s = s + 1;
    }
    proof {
        assert(tour.stops@.take(s as int) =~= tour.stops@);
    }
    count
}

/// Checks that a tour has no more job activities than the vehicle's tour size
/// limit; departures, arrivals, breaks, reloads and recharges do not count.
pub fn check_tour_size(tour: &Tour, tour_size_limit: usize) -> (result: Result<(), String>)
    requires
        stops_activities(tour.stops@).len() <= usize::MAX,
    ensures
        match result {
            Ok(_) => tour_job_activities(*tour) <= tour_size_limit,
            Err(e) => tour_job_activities(*tour) > tour_size_limit && e@ == tour_size_msg(
                tour_size_limit,
                tour_job_activities(*tour),
                tour.vehicle_id@,
                tour.shift_index,
            ),
        },
{
    let activities = job_activity_count(tour);
    if activities > tour_size_limit {
        let mut message = String::from_str("tour size limit violation, expected: not more than ");
        message.append(usize_to_string(tour_size_limit).as_str());
        message.append(", got: ");
        message.append(usize_to_string(activities).as_str());
        message.append(", vehicle id '");
        message.append(tour.vehicle_id.as_str());
        message.append("', shift index: ");
        message.append(usize_to_string(tour.shift_index).as_str());
        return Err(message);
    }
    Ok(())
}

/// Whether a shift covers the tour time from `departure` to `arrival`: the tour
/// departs no earlier than the shift's earliest start and arrives no later than
/// its latest end, if it has one; `None` where a time of the shift cannot be read.
pub open spec fn shift_covers(shift: VehicleShift, departure: int, arrival: int) -> Option<bool> {
    match rfc3339_seconds(shift.start.earliest@) {
        None => None,
        Some(start) => match shift.end {
            None => Some(departure >= start),
            Some(place) => match rfc3339_seconds(place.latest@) {
                None => None,
                Some(end) => Some(departure >= start && arrival <= end),
            },
        },
    }
}

/// Whether one of the first `n` shifts covers the tour time, looking at them in
/// order and stopping at the first that does; `None` where a time met on the way
/// cannot be read.
pub open spec fn any_shift_covers(shifts: Seq<VehicleShift>, n: nat, departure: int, arrival: int) -> Option<bool>
    decreases n,
{
    if n == 0 {
        Some(false)
    } else {
        match any_shift_covers(shifts, (n - 1) as nat, departure, arrival) {
            Some(false) => shift_covers(shifts[n - 1], departure, arrival),
            other => other,
        }
    }
}

/// Once the search is settled among the first `n` shifts, it stays so.
pub proof fn lemma_any_shift_settled(shifts: Seq<VehicleShift>, n: nat, m: nat, departure: int, arrival: int)
    requires
        n <= m,
        any_shift_covers(shifts, n, departure, arrival) != Some(false),
    ensures
        any_shift_covers(shifts, m, departure, arrival) == any_shift_covers(shifts, n, departure, arrival),
    decreases m,
{
    if m > n {
        lemma_any_shift_settled(shifts, n, (m - 1) as nat, departure, arrival);
    }
}

/// Message for a tour outside the time of every shift of its vehicle.
pub open spec fn outside_shift_msg(id: Seq<char>, shift_index: usize) -> Seq<char> {
    "tour time is outside shift time, vehicle id '"@ + id + "', shift index: "@ + decimal(shift_index as nat)
}

/// The shift time rule for a tour: its vehicle is known, it has stops, and a
/// shift of the vehicle covers the departure from its first stop to the arrival
/// at its last; `None` where a time cannot be read.
pub open spec fn tour_time_rule(ctx: CheckerContext, tour: Tour) -> Option<Result<(), Seq<char>>> {
    match vehicle_index(ctx.problem.fleet.vehicles@, tour.vehicle_id@) {
        None => Some(Err(unknown_vehicle_msg(tour.vehicle_id@))),
        Some(v) => if tour.stops@.len() == 0 {
            Some(Err("empty tour"@))
        } else {
            match (
                rfc3339_seconds(tour.stops@[0].time.departure@),
                rfc3339_seconds(tour.stops@.last().time.arrival@),
            ) {
                (Some(departure), Some(arrival)) => {
                    let shifts = ctx.problem.fleet.vehicles@[v].shifts@;
                    match any_shift_covers(shifts, shifts.len(), departure, arrival) {
                        None => None,
                        Some(true) => Some(Ok(())),
                        Some(false) => Some(Err(outside_shift_msg(tour.vehicle_id@, tour.shift_index))),
                    }
                },
                _ => None,
            }
        },
    }
}

/// The shift time rule over the first `n` tours, stopping at the first error.
pub open spec fn shift_time_outcome(ctx: CheckerContext, n: nat) -> Option<Result<(), Seq<char>>>
    decreases n,
{
    if n == 0 {
        Some(Ok(()))
    } else {
        match shift_time_outcome(ctx, (n - 1) as nat) {
            Some(Ok(_)) => tour_time_rule(ctx, ctx.solution.tours@[n - 1]),
            other => other,
        }
    }
}

/// Once the rule over the first `n` tours is settled, it stays so.
pub proof fn lemma_shift_time_settled(ctx: CheckerContext, n: nat, m: nat)
    requires
        n <= m,
        !(shift_time_outcome(ctx, n) matches Some(Ok(_))),
    ensures
        shift_time_outcome(ctx, m) == shift_time_outcome(ctx, n),
    decreases m,
{
    if m > n {
        lemma_shift_time_settled(ctx, n, (m - 1) as nat);
    }
}

/// A search that finds a covering shift found one.
proof fn lemma_any_shift_found(shifts: Seq<VehicleShift>, n: nat, departure: int, arrival: int)
    requires
        n <= shifts.len(),
        any_shift_covers(shifts, n, departure, arrival) == Some(true),
    ensures
        exists|j: int| 0 <= j < n && #[trigger] shift_covers(shifts[j], departure, arrival) == Some(true),
    decreases n,
{
    if any_shift_covers(shifts, (n - 1) as nat, departure, arrival) == Some(true) {
        lemma_any_shift_found(shifts, (n - 1) as nat, departure, arrival);
    } else {
        assert(shift_covers(shifts[n - 1], departure, arrival) == Some(true));
    }
}

/// A passing rule over the first `n` tours passes for each of them.
proof fn lemma_shift_time_each(ctx: CheckerContext, n: nat, t: int)
    requires
        0 <= t < n <= ctx.solution.tours.len(),
        shift_time_outcome(ctx, n) == Some(Ok::<(), Seq<char>>(())),
    ensures
        tour_time_rule(ctx, ctx.solution.tours@[t]) == Some(Ok::<(), Seq<char>>(())),
    decreases n,
{
    if !(shift_time_outcome(ctx, (n - 1) as nat) matches Some(Ok(_))) {
        lemma_shift_time_settled(ctx, (n - 1) as nat, n);
    } else if t < n - 1 {
        lemma_shift_time_each(ctx, (n - 1) as nat, t);
    }
}

/// Tours keep to their shifts: when the shift time check passes, every tour has
/// stops, its vehicle is known, and some shift of that vehicle starts no later
/// than the departure from its first stop and, if it has an end, ends no earlier
/// than the arrival at its last.
pub proof fn lemma_passing_tours_within_shifts(ctx: CheckerContext, t: int)
    requires
        shift_time_outcome(ctx, ctx.solution.tours.len() as nat) == Some(Ok::<(), Seq<char>>(())),
        0 <= t < ctx.solution.tours.len(),
    ensures
        ({
            let tour = ctx.solution.tours@[t];
            &&& tour.stops@.len() > 0
            &&& vehicle_index(ctx.problem.fleet.vehicles@, tour.vehicle_id@) is Some
            &&& rfc3339_seconds(tour.stops@[0].time.departure@) is Some
            &&& rfc3339_seconds(tour.stops@.last().time.arrival@) is Some
            &&& exists|j: int|
                0 <= j < ctx.problem.fleet.vehicles@[vehicle_index(
                    ctx.problem.fleet.vehicles@,
                    tour.vehicle_id@,
                )->Some_0].shifts@.len() && #[trigger] shift_covers(
                    ctx.problem.fleet.vehicles@[vehicle_index(ctx.problem.fleet.vehicles@, tour.vehicle_id@)->Some_0].shifts@[j],
                    rfc3339_seconds(tour.stops@[0].time.departure@)->Some_0,
                    rfc3339_seconds(tour.stops@.last().time.arrival@)->Some_0,
                ) == Some(true)
        }),
{
    lemma_shift_time_each(ctx, ctx.solution.tours.len() as nat, t);
    let tour = ctx.solution.tours@[t];
    let v = vehicle_index(ctx.problem.fleet.vehicles@, tour.vehicle_id@)->Some_0;
    let shifts = ctx.problem.fleet.vehicles@[v].shifts@;
    lemma_any_shift_found(
        shifts,
        shifts.len(),
        rfc3339_seconds(tour.stops@[0].time.departure@)->Some_0,
        rfc3339_seconds(tour.stops@.last().time.arrival@)->Some_0,
    );
}

/// Whether a shift of the vehicle covers the tour time.
fn covering_shift(shifts: &Vec<VehicleShift>, departure: i64, arrival: i64) -> (found: Option<bool>)
    ensures
        found == any_shift_covers(shifts@, shifts.len() as nat, departure as int, arrival as int),
{
    let mut idx: usize = 0;
    while idx < shifts.len()
        invariant
            idx <= shifts.len(),
            any_shift_covers(shifts@, idx as nat, departure as int, arrival as int) == Some(false),
        decreases shifts.len() - idx,
    {
        let start = parse_time_seconds(shifts[idx].start.earliest.as_str());
        let covers = match start {
            None => None,
            Some(start) => match &shifts[idx].end {
                None => Some(departure >= start),
                Some(place) => match parse_time_seconds(place.latest.as_str()) {
                    None => None,
                    Some(end) => Some(departure >= start && arrival <= end),
                },
            },
        };
        match covers {
            Some(false) => {},
            _ => {
                proof {
                    lemma_any_shift_settled(shifts@, (idx + 1) as nat, shifts.len() as nat, departure as int, arrival as int);
                }
                return covers;
            },
        }
        idx = idx + 1;
    }
    Some(false)
}

/// Checks that each tour's time lies within the time of a shift of its vehicle;
/// `None` where a time cannot be read.
pub fn check_shift_time(ctx: &CheckerContext) -> (result: Option<Result<(), String>>)
    ensures
        match result {
            None => shift_time_outcome(*ctx, ctx.solution.tours.len() as nat) is None,
            Some(Ok(_)) => shift_time_outcome(*ctx, ctx.solution.tours.len() as nat) == Some(Ok::<(), Seq<char>>(())),
            Some(Err(e)) => shift_time_outcome(*ctx, ctx.solution.tours.len() as nat) == Some(Err::<(), Seq<char>>(e@)),
        },
{
    let tours = &ctx.solution.tours;
    let mut t: usize = 0;
    while t < tours.len()
        invariant
            t <= tours.len(),
            tours == &ctx.solution.tours,
            shift_time_outcome(*ctx, t as nat) == Some(Ok::<(), Seq<char>>(())),
        decreases tours.len() - t,
    {
        let tour = &tours[t];
        let vehicle = match ctx.get_vehicle(tour.vehicle_id.as_str()) {
            Ok(vehicle) => vehicle,
            Err(e) => {
                proof {
                    lemma_shift_time_settled(*ctx, (t + 1) as nat, tours.len() as nat);
                }
                return Some(Err(e));
            },
        };
        if tour.stops.len() == 0 {
            proof {
                lemma_shift_time_settled(*ctx, (t + 1) as nat, tours.len() as nat);
            }
            return Some(Err(String::from_str("empty tour")));
        }
        let departure = parse_time_seconds(tour.stops[0].time.departure.as_str());
        let arrival = parse_time_seconds(tour.stops[tour.stops.len() - 1].time.arrival.as_str());
        let covered = match (departure, arrival) {
            (Some(departure), Some(arrival)) => covering_shift(&vehicle.shifts, departure, arrival),
            _ => None,
        };
        match covered {
            Some(true) => {},
            Some(false) => {
                let mut message = String::from_str("tour time is outside shift time, vehicle id '");
                message.append(tour.vehicle_id.as_str());
                message.append("', shift index: ");
                message.append(usize_to_string(tour.shift_index).as_str());
                proof {
                    lemma_shift_time_settled(*ctx, (t + 1) as nat, tours.len() as nat);
                }
                return Some(Err(message));
            },
            None => {
                proof {
                    lemma_shift_time_settled(*ctx, (t + 1) as nat, tours.len() as nat);
                }
                return None;
            },
        }
        t = t + 1;
    }
    Some(Ok(()))
}

} // verus!
