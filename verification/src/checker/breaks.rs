//! Checks that breaks are properly assigned.
//!
//! Which break of the vehicle shift a break visit matches, and which breaks a
//! tour's time window asks for, depend on floating point offsets and durations
//! and are found outside; the counts are compared here.

use super::{
    combine_error_results, combined_errors, first_error_of, lemma_first_error_stays, lemma_stops_activities_at,
    result_view, result_views, results_view, stops_activities, CheckerContext,
};
use crate::model::{Activity, Solution, Tour, Violation};
use crate::text::{decimal, str_equal, u128_to_string, usize_to_string};
use vstd::prelude::*;

verus! {

/// What was found outside for the breaks of a tour: the number of break visits
/// matched to a break of the vehicle shift, and the number of breaks the shift
/// expects in the tour, or the error met while finding each.
#[derive(Debug)]
pub struct BreakFindings {
    /// Break visits matched to a break of the shift, or why matching failed.
    pub matched: Result<usize, String>,
    /// Breaks the shift expects in the tour, or why they could not be found.
    pub expected: Result<usize, String>,
}

/// Whether an activity is a break.
pub open spec fn is_break(activity: Activity) -> bool {
    activity.activity_type@ == "break"@
}

/// The number of breaks among the first `n` activities.
pub open spec fn breaks_in(activities: Seq<Activity>, n: nat) -> nat
    decreases n,
{
    if n == 0 {
        0
    } else {
        breaks_in(activities, (n - 1) as nat) + if is_break(activities[n - 1]) {
            1nat
        } else {
            0nat
        }
    }
}

/// The number of break activities of a tour.
pub open spec fn tour_break_count(tour: Tour) -> nat {
    let activities = stops_activities(tour.stops@);
    breaks_in(activities, activities.len())
}

/// Whether a violation is a break violation of the tour's vehicle and shift.
pub open spec fn is_tour_break_violation(violation: Violation, tour: Tour) -> bool {
    match violation {
        Violation::Break { vehicle_id, shift_index } => vehicle_id@ == tour.vehicle_id@ && shift_index == tour.shift_index,
    }
}

/// The number of break violations of the tour among the first `n` violations.
pub open spec fn violations_in(violations: Seq<Violation>, tour: Tour, n: nat) -> nat
    decreases n,
{
    if n == 0 {
        0
    } else {
        violations_in(violations, tour, (n - 1) as nat) + if is_tour_break_violation(violations[n - 1], tour) {
            1nat
        } else {
            0nat
        }
    }
}

/// The number of break violations of the tour's vehicle and shift in the solution.
pub open spec fn break_violation_count(solution: Solution, tour: Tour) -> nat {
    match solution.violations {
        Some(v) => violations_in(v@, tour, v.len() as nat),
        None => 0,
    }
}

/// Returns the number of break violations of the tour's vehicle and shift.
pub fn get_break_violation_count(solution: &Solution, tour: &Tour) -> (count: usize)
    ensures
        count == break_violation_count(*solution, *tour),
{
    match &solution.violations {
        None => 0,
        Some(violations) => {
            let mut count: usize = 0;
            let mut idx: usize = 0;
            while idx < violations.len()
                invariant
                    idx <= violations.len(),
                    count == violations_in(violations@, *tour, idx as nat),
                    count <= idx,
                decreases violations.len() - idx,
            {
                match &violations[idx] {
                    Violation::Break { vehicle_id, shift_index } => {
                        if str_equal(vehicle_id.as_str(), tour.vehicle_id.as_str()) && *shift_index == tour.shift_index {
                            count = count + 1;
                        }
                    },
                }
                idx = idx + 1;
            }
            count
        },
    }
}

/// Returns the number of break activities of a tour.
pub fn get_break_count(tour: &Tour) -> (count: usize)
    requires
        stops_activities(tour.stops@).len() <= usize::MAX,
    ensures
        count == tour_break_count(*tour),
{
    let ghost activities = stops_activities(tour.stops@);
    let ghost mut idx: int = 0;
    let mut count: usize = 0;
    let mut s: usize = 0;
    while s < tour.stops.len()
        invariant
            s <= tour.stops.len(),
            activities == stops_activities(tour.stops@),
            activities.len() <= usize::MAX,
            idx == stops_activities(tour.stops@.take(s as int)).len(),
            idx <= activities.len(),
            count == breaks_in(activities, idx as nat),
            count <= idx,
        decreases tour.stops.len() - s,
    {
        let stop = &tour.stops[s];
        let mut a: usize = 0;
        while a < stop.activities.len()
            invariant
                s < tour.stops.len(),
                stop == &tour.stops@[s as int],
                a <= stop.activities.len(),
                activities == stops_activities(tour.stops@),
                activities.len() <= usize::MAX,
                idx == stops_activities(tour.stops@.take(s as int)).len() + a,
                count == breaks_in(activities, idx as nat),
                count <= idx,
            decreases stop.activities.len() - a,
        {
            proof {
                lemma_stops_activities_at(tour.stops@, s as int, a as int);
                assert(activities[idx] == stop.activities@[a as int]);
            }
            if str_equal(stop.activities[a].activity_type.as_str(), "break") {
                count = count + 1;
            }
            proof {
                idx = idx + 1;
            }
            a = a + 1;
        }
        proof {
            assert(tour.stops@.take(s + 1).drop_last() =~= tour.stops@.take(s as int));
            assert(tour.stops@.take(s + 1).last() == *stop);
            super::lemma_stops_activities_prefix(tour.stops@, (s + 1) as nat);
        }
        s = s + 1;
    }
    proof {
        assert(tour.stops@.take(s as int) =~= tour.stops@);
    }
    count
}

/// Message for break visits that do not all match a break of the shift.
pub open spec fn unmatched_breaks_msg(matched: nat, actual: nat, id: Seq<char>, shift: usize) -> Seq<char> {
    "cannot match all breaks, matched: '"@ + decimal(matched) + "', actual '"@ + decimal(actual) + "' for vehicle '"@ + id
        + "', shift index '"@ + decimal(shift as nat) + "'"@
}

/// Message for a tour with another number of breaks than its shift expects.
pub open spec fn break_amount_msg(expected: nat, total: nat, id: Seq<char>, shift: usize) -> Seq<char> {
    "amount of breaks does not match, expected: '"@ + decimal(expected) + "', got '"@ + decimal(total)
        + "' for vehicle '"@ + id + "', shift index '"@ + decimal(shift as nat) + "'"@
}

/// The break rule for tour `t`: every break visit matches a break of the shift,
/// and the visits together with the tour's break violations are as many as the
/// breaks the shift expects.
pub open spec fn break_rule(ctx: CheckerContext, findings: Seq<BreakFindings>, t: int) -> Result<(), Seq<char>> {
    let tour = ctx.solution.tours@[t];
    let actual = tour_break_count(tour);
    match findings[t].matched {
        Err(e) => Err(e@),
        Ok(matched) => if actual != matched {
            Err(unmatched_breaks_msg(matched as nat, actual, tour.vehicle_id@, tour.shift_index))
        } else {
            match findings[t].expected {
                Err(e) => Err(e@),
                Ok(expected) => {
                    let total = actual + break_violation_count(ctx.solution, tour);
                    if expected != total {
                        Err(break_amount_msg(expected as nat, total, tour.vehicle_id@, tour.shift_index))
                    } else {
                        Ok(())
                    }
                },
            }
        },
    }
}

pub open spec fn break_rules(ctx: CheckerContext, findings: Seq<BreakFindings>) -> spec_fn(int) -> Result<(), Seq<char>> {
    |t: int| break_rule(ctx, findings, t)
}

/// Checks the break rule for every tour, stopping at the first failing tour.
pub fn check_break_assignment(ctx: &CheckerContext, findings: &Vec<BreakFindings>) -> (result: Result<(), String>)
    requires
        findings.len() == ctx.solution.tours.len(),
        forall|t: int| 0 <= t < ctx.solution.tours.len() ==> stops_activities(
            (#[trigger] ctx.solution.tours@[t]).stops@,
        ).len() <= usize::MAX,
    ensures
        result_view(result) == first_error_of(ctx.solution.tours.len() as nat, break_rules(*ctx, findings@)),
{
    let tours = &ctx.solution.tours;
    let mut t: usize = 0;
    while t < tours.len()
        invariant
            t <= tours.len(),
            tours == &ctx.solution.tours,
            findings.len() == tours.len(),
            forall|u: int| 0 <= u < tours.len() ==> stops_activities((#[trigger] tours@[u]).stops@).len() <= usize::MAX,
            first_error_of(t as nat, break_rules(*ctx, findings@)) is Ok,
        decreases tours.len() - t,
    {
        let tour = &tours[t];
        let outcome = check_tour_breaks(ctx, tour, &findings[t]);
        proof {
            assert(break_rules(*ctx, findings@)(t as int) == result_view(outcome));
        }
        match outcome {
            Err(e) => {
                proof {
                    lemma_first_error_stays((t + 1) as nat, tours.len() as nat, break_rules(*ctx, findings@));
                }
                return Err(e);
            },
            Ok(_) => {},
        }
        t = t + 1;
    }
    Ok(())
}

/// The break rule for one tour.
fn check_tour_breaks(ctx: &CheckerContext, tour: &Tour, found: &BreakFindings) -> (result: Result<(), String>)
    requires
        stops_activities(tour.stops@).len() <= usize::MAX,
    ensures
        result_view(result) == (match found.matched {
            Err(e) => Err(e@),
            Ok(matched) => if tour_break_count(*tour) != matched {
                Err(unmatched_breaks_msg(matched as nat, tour_break_count(*tour), tour.vehicle_id@, tour.shift_index))
            } else {
                match found.expected {
                    Err(e) => Err(e@),
                    Ok(expected) => {
                        let total = tour_break_count(*tour) + break_violation_count(ctx.solution, *tour);
                        if expected != total {
                            Err(break_amount_msg(expected as nat, total, tour.vehicle_id@, tour.shift_index))
                        } else {
                            Ok(())
                        }
                    },
                }
            },
        }),
{
    let actual = get_break_count(tour);
    let matched = match &found.matched {
        Err(e) => return Err(e.clone()),
        Ok(m) => *m,
    };
    if actual != matched {
        let mut message = String::from_str("cannot match all breaks, matched: '");
        message.append(usize_to_string(matched).as_str());
        message.append("', actual '");
        message.append(usize_to_string(actual).as_str());
        message.append("' for vehicle '");
        message.append(tour.vehicle_id.as_str());
        message.append("', shift index '");
        message.append(usize_to_string(tour.shift_index).as_str());
        message.append("'");
        return Err(message);
    }
    let expected = match &found.expected {
        Err(e) => return Err(e.clone()),
        Ok(x) => *x,
    };
    let total: u128 = actual as u128 + get_break_violation_count(&ctx.solution, tour) as u128;
    if expected as u128 != total {
        let mut message = String::from_str("amount of breaks does not match, expected: '");
        message.append(usize_to_string(expected).as_str());
        message.append("', got '");
        message.append(u128_to_string(total).as_str());
        message.append("' for vehicle '");
        message.append(tour.vehicle_id.as_str());
        message.append("', shift index '");
        message.append(usize_to_string(tour.shift_index).as_str());
        message.append("'");
        return Err(message);
    }
    Ok(())
}

/// The outcome of the break checks.
pub open spec fn breaks_outcome(ctx: CheckerContext, findings: Seq<BreakFindings>) -> Result<(), Seq<Seq<char>>> {
    combined_errors(seq![first_error_of(ctx.solution.tours.len() as nat, break_rules(ctx, findings))])
}

/// Checks that breaks are properly assigned.
pub fn check_breaks(ctx: &CheckerContext, findings: &Vec<BreakFindings>) -> (result: Result<(), Vec<String>>)
    requires
        findings.len() == ctx.solution.tours.len(),
        forall|t: int| 0 <= t < ctx.solution.tours.len() ==> stops_activities(
            (#[trigger] ctx.solution.tours@[t]).stops@,
        ).len() <= usize::MAX,
    ensures
        results_view(result) == breaks_outcome(*ctx, findings@),
{
    let results = [check_break_assignment(ctx, findings)];
    let combined = combine_error_results(&results);
    proof {
        assert(result_views(results@) =~= seq![
            first_error_of(ctx.solution.tours.len() as nat, break_rules(*ctx, findings@)),
        ]);
    }
    combined
}

} // verus!
