//! Checks that a given solution is feasible, that is, it violates no constraint
//! of the problem it solves.
//!
//! The checks that work on plain values, date times among them, stand here;
//! those that compute with floating point durations, distances or coordinates
//! are run outside and hand their results to `CheckerContext::check`.

pub mod assignment;
pub mod breaks;
pub mod capacity;
pub mod job_times;
pub mod limits;
pub mod relations;
pub mod routing;
pub mod skills;

use crate::collections::{index_map_entries, string_set_items, IndexMap, StringSet};
use crate::datetime::{parse_time_seconds, rfc3339_seconds};
use crate::model::{Activity, Job, JobTask, Matrix, MatrixProfile, Problem, Solution, Stop, Tour, VehicleShift, VehicleType};
use crate::text::{decimal, str_equal, usize_to_string, views};
use vstd::prelude::*;

verus! {

/// The value of a check result: `Ok` or the error message.
pub open spec fn result_view(result: Result<(), String>) -> Result<(), Seq<char>> {
    match result {
        Ok(_) => Ok(()),
        Err(e) => Err(e@),
    }
}

/// The value of a check result with a list of error messages.
pub open spec fn results_view(result: Result<(), Vec<String>>) -> Result<(), Seq<Seq<char>>> {
    match result {
        Ok(_) => Ok(()),
        Err(e) => Err(views(e@)),
    }
}

/// The first error among the results `f(0)`, ..., `f(n - 1)`, or `Ok` when none fails.
pub open spec fn first_error_of(n: nat, f: spec_fn(int) -> Result<(), Seq<char>>) -> Result<(), Seq<char>>
    decreases n,
{
    if n == 0 {
        Ok(())
    } else {
        match first_error_of((n - 1) as nat, f) {
            Err(e) => Err(e),
            Ok(_) => f(n - 1),
        }
    }
}

/// Once an error is found, later results do not change the first error.
pub proof fn lemma_first_error_stays(n: nat, m: nat, f: spec_fn(int) -> Result<(), Seq<char>>)
    requires
        n <= m,
        first_error_of(n, f) is Err,
    ensures
        first_error_of(m, f) == first_error_of(n, f),
    decreases m,
{
    if m > n {
        lemma_first_error_stays(n, (m - 1) as nat, f);
    }
}

/// When no result fails, there is no first error.
pub proof fn lemma_first_error_none(n: nat, f: spec_fn(int) -> Result<(), Seq<char>>)
    requires
        forall|i: int| 0 <= i < n ==> #[trigger] f(i) is Ok,
    ensures
        first_error_of(n, f) is Ok,
    decreases n,
{
    if n > 0 {
        lemma_first_error_none((n - 1) as nat, f);
        assert(f(n - 1) is Ok);
    }
}

/// When there is no first error, no result fails.
pub proof fn lemma_first_error_ok(n: nat, f: spec_fn(int) -> Result<(), Seq<char>>)
    requires
        first_error_of(n, f) is Ok,
    ensures
        forall|i: int| 0 <= i < n ==> #[trigger] f(i) is Ok,
    decreases n,
{
    if n > 0 {
        lemma_first_error_ok((n - 1) as nat, f);
    }
}

/// The error messages of a list of results, in order.
pub open spec fn errors_of(results: Seq<Result<(), Seq<char>>>) -> Seq<Seq<char>>
    decreases results.len(),
{
    if results.len() == 0 {
        Seq::empty()
    } else {
        let rest = errors_of(results.drop_last());
        match results.last() {
            Err(e) => rest.push(e),
            Ok(_) => rest,
        }
    }
}

/// The values of a list of check results.
pub open spec fn result_views(results: Seq<Result<(), String>>) -> Seq<Result<(), Seq<char>>> {
    results.map_values(|r: Result<(), String>| result_view(r))
}

/// `Ok` when no result fails, else the errors of the results in order.
pub open spec fn combined_errors(results: Seq<Result<(), Seq<char>>>) -> Result<(), Seq<Seq<char>>> {
    if errors_of(results).len() == 0 {
        Ok(())
    } else {
        Err(errors_of(results))
    }
}

/// Collects the errors of the given results, keeping their order.
pub fn combine_error_results(results: &[Result<(), String>]) -> (combined: Result<(), Vec<String>>)
    ensures
        results_view(combined) == combined_errors(result_views(results@)),
{
    let mut errors: Vec<String> = Vec::new();
    let mut idx: usize = 0;
    while idx < results.len()
        invariant
            idx <= results.len(),
            views(errors@) == errors_of(result_views(results@.take(idx as int))),
        decreases results.len() - idx,
    {
        proof {
            assert(results@.take(idx + 1).drop_last() =~= results@.take(idx as int));
            assert(result_views(results@.take(idx + 1)).drop_last() =~= result_views(results@.take(idx as int)));
        }
        match &results[idx] {
            Err(e) => {
                errors.push(e.clone());
                proof {
                    assert(views(errors@) =~= errors_of(result_views(results@.take(idx + 1))));
                }
            },
            Ok(_) => {
                proof {
                    assert(views(errors@) =~= errors_of(result_views(results@.take(idx + 1))));
                }
            },
        }
        idx = idx + 1;
    }
    proof {
        assert(results@.take(results.len() as int) =~= results@);
    }
    if errors.len() == 0 {
        Ok(())
    } else {
        Err(errors)
    }
}

/// The messages with every repeated message dropped, first occurrences kept in order.
pub open spec fn dedup_messages(messages: Seq<Seq<char>>) -> Seq<Seq<char>>
    decreases messages.len(),
{
    if messages.len() == 0 {
        Seq::empty()
    } else {
        let rest = dedup_messages(messages.drop_last());
        if rest.contains(messages.last()) {
            rest
        } else {
            rest.push(messages.last())
        }
    }
}

/// All error messages of a list of check results with lists of errors, in order.
pub open spec fn all_errors(results: Seq<Result<(), Seq<Seq<char>>>>) -> Seq<Seq<char>>
    decreases results.len(),
{
    if results.len() == 0 {
        Seq::empty()
    } else {
        let rest = all_errors(results.drop_last());
        match results.last() {
            Err(e) => rest + e,
            Ok(_) => rest,
        }
    }
}

/// De-duplicated messages hold no message twice and exactly the given messages.
pub proof fn lemma_dedup_messages(messages: Seq<Seq<char>>)
    ensures
        dedup_messages(messages).no_duplicates(),
        forall|m: Seq<char>| #[trigger] dedup_messages(messages).contains(m) <==> messages.contains(m),
    decreases messages.len(),
{
    if messages.len() > 0 {
        let prefix = messages.drop_last();
        let last = messages.last();
        lemma_dedup_messages(prefix);
        let rest = dedup_messages(prefix);
        assert(messages =~= prefix.push(last));
        assert forall|m: Seq<char>| messages.contains(m) <==> (prefix.contains(m) || m == last) by {
            if messages.contains(m) {
                let i = choose|i: int| 0 <= i < messages.len() && messages[i] == m;
                if i < prefix.len() {
                    assert(prefix[i] == m);
                }
            }
            if prefix.contains(m) {
                let i = choose|i: int| 0 <= i < prefix.len() && prefix[i] == m;
                assert(messages[i] == m);
            }
            if m == last {
                assert(messages[messages.len() - 1] == m);
            }
        }
        assert(dedup_messages(messages) == if rest.contains(last) {
            rest
        } else {
            rest.push(last)
        });
        if rest.contains(last) {
            assert forall|m: Seq<char>| #[trigger] dedup_messages(messages).contains(m) <==> messages.contains(m) by {
                assert(rest.contains(m) <==> prefix.contains(m));
            }
        } else {
            assert forall|m: Seq<char>| rest.push(last).contains(m) <==> (rest.contains(m) || m == last) by {
                if rest.push(last).contains(m) {
                    let i = choose|i: int| 0 <= i < rest.push(last).len() && rest.push(last)[i] == m;
                    if i < rest.len() {
                        assert(rest[i] == m);
                    }
                }
                if rest.contains(m) {
                    let i = choose|i: int| 0 <= i < rest.len() && rest[i] == m;
                    assert(rest.push(last)[i] == m);
                }
                if m == last {
                    assert(rest.push(last)[rest.len() as int] == m);
                }
            }
            assert forall|m: Seq<char>| #[trigger] dedup_messages(messages).contains(m) <==> messages.contains(m) by {
                assert(rest.contains(m) <==> prefix.contains(m));
            }
            assert forall|i: int, j: int| 0 <= i < j < rest.push(last).len() implies rest.push(last)[i]
                != rest.push(last)[j] by {
                if j == rest.len() {
                    assert(rest[i] == rest.push(last)[i]);
                }
            }
        }
    }
}


/// Drops every repeated message, keeping first occurrences in order.
pub fn dedup_strings(messages: &Vec<String>) -> (unique: Vec<String>)
    ensures
        views(unique@) == dedup_messages(views(messages@)),
{
    let mut seen = StringSet::new();
    let mut unique: Vec<String> = Vec::new();
    let mut idx: usize = 0;
    proof {
        assert(views(messages@).take(0).to_set() =~= Set::empty());
        assert(views(unique@) =~= dedup_messages(views(messages@).take(0)));
    }
    while idx < messages.len()
        invariant
            idx <= messages.len(),
            string_set_items(seen) == views(messages@).take(idx as int).to_set(),
            views(unique@) == dedup_messages(views(messages@).take(idx as int)),
        decreases messages.len() - idx,
    {
        let ghost before = views(messages@).take(idx as int);
        let ghost item = messages@[idx as int]@;
        proof {
            assert(views(messages@).take(idx + 1) =~= before.push(item));
            assert(before.push(item).drop_last() =~= before);
            before.lemma_push_to_set_commute(item);
            lemma_dedup_messages(before);
            assert(before.to_set().contains(item) <==> before.contains(item));
        }
        if seen.insert(messages[idx].clone()) {
            unique.push(messages[idx].clone());
            proof {
                assert(views(unique@) =~= dedup_messages(views(messages@).take(idx + 1)));
            }
        }
        idx = idx + 1;
    }
    proof {
        assert(views(messages@).take(idx as int) =~= views(messages@));
    }
    unique
}

/// Represents all possible activity types, as found for each activity of a
/// solution by matching it against the problem.
#[derive(Clone, Debug)]
pub enum ActivityType {
    /// A tour's departure or arrival.
    Terminal,
    /// A task of a job of the plan.
    Job,
    /// A dispatch place of the vehicle shift.
    Depot,
    /// A break of the vehicle shift.
    Break,
    /// A reload of the vehicle shift, with the shared resource it draws from.
    Reload { resource_id: Option<String> },
}

/// Stores problem and solution together and provides some helper methods.
pub struct CheckerContext {
    /// The problem definition.
    pub problem: Problem,
    /// Routing matrices.
    pub matrices: Option<Vec<Matrix>>,
    /// Solution to be checked.
    pub solution: Solution,
}

/// Message when matrices carry timestamps.
pub open spec fn time_aware_msg() -> Seq<char> {
    "not implemented: time aware routing check"@
}

/// Message when the amounts of matrices and profiles differ.
pub open spec fn profiles_mismatch_msg(matrices: nat, profiles: nat) -> Seq<char> {
    "precondition failed: amount of matrices supplied ("@ + decimal(matrices)
        + ") does not match profile specified ("@ + decimal(profiles) + ")"@
}

/// Whether some matrix carries a timestamp.
pub open spec fn has_timestamped_matrix(matrices: Seq<Matrix>) -> bool {
    exists|i: int| 0 <= i < matrices.len() && (#[trigger] matrices[i]).timestamp is Some
}

/// Profile names mapped to their indices; a later profile of the same name wins.
pub open spec fn profile_index_of(profiles: Seq<MatrixProfile>) -> Map<Seq<char>, usize>
    decreases profiles.len(),
{
    if profiles.len() == 0 {
        Map::empty()
    } else {
        profile_index_of(profiles.drop_last()).insert(profiles.last().name@, (profiles.len() - 1) as usize)
    }
}

/// Returns the matrices, refusing time dependent ones.
pub fn get_matrices(matrices: &Option<Vec<Matrix>>) -> (result: Result<&Vec<Matrix>, String>)
    requires
        matrices is Some,
    ensures
        match result {
            Ok(m) => !has_timestamped_matrix(matrices->0@) && *m == matrices->0,
            Err(e) => has_timestamped_matrix(matrices->0@) && e@ == time_aware_msg(),
        },
{
    let ms = match matrices {
        Some(ms) => ms,
        None => unreached(),
    };
    assert(ms@ == matrices->0@);
    let mut idx: usize = 0;
    while idx < ms.len()
        invariant
            idx <= ms.len(),
            ms@ == matrices->0@,
            forall|i: int| 0 <= i < idx ==> (#[trigger] ms@[i]).timestamp is None,
        decreases ms.len() - idx,
    {
        if ms[idx].timestamp.is_some() {
            proof {
                assert(ms@[idx as int].timestamp is Some);
                assert(has_timestamped_matrix(ms@));
            }
            return Err(String::from_str("not implemented: time aware routing check"));
        }
        idx = idx + 1;
    }
    Ok(ms)
}

/// Maps each profile name to its index, when there is one matrix per profile.
pub fn get_profile_index(problem: &Problem, matrices: &[Matrix]) -> (result: Result<IndexMap, String>)
    ensures
        match result {
            Ok(index) => problem.fleet.profiles.len() == matrices.len() && index_map_entries(index)
                == profile_index_of(problem.fleet.profiles@),
            Err(e) => problem.fleet.profiles.len() != matrices.len() && e@ == profiles_mismatch_msg(
                matrices.len() as nat,
                problem.fleet.profiles.len() as nat,
            ),
        },
{
    let profiles = problem.fleet.profiles.len();
    if profiles != matrices.len() {
        let mut message = String::from_str("precondition failed: amount of matrices supplied (");
        message.append(usize_to_string(matrices.len()).as_str());
        message.append(") does not match profile specified (");
        message.append(usize_to_string(profiles).as_str());
        message.append(")");
        return Err(message);
    }
    let mut index = IndexMap::new();
    proof {
        assert(index_map_entries(index) =~= Map::empty());
    }
    let mut idx: usize = 0;
    while idx < profiles
        invariant
            idx <= profiles == problem.fleet.profiles.len(),
            index_map_entries(index) == profile_index_of(problem.fleet.profiles@.take(idx as int)),
        decreases profiles - idx,
    {
        proof {
            assert(problem.fleet.profiles@.take(idx + 1).drop_last() =~= problem.fleet.profiles@.take(idx as int));
        }
        index.insert(problem.fleet.profiles[idx].name.clone(), idx);
        idx = idx + 1;
    }
    proof {
        assert(problem.fleet.profiles@.take(profiles as int) =~= problem.fleet.profiles@);
    }
    Ok(index)
}

/// Whether a shift's time intersects the tour time `(tour_start, tour_end)`;
/// `None` where a time of the shift cannot be read.
pub open spec fn shift_intersects(shift: VehicleShift, tour_start: int, tour_end: int) -> Option<bool> {
    match rfc3339_seconds(shift.start.earliest@) {
        None => None,
        Some(start) => match shift.end {
            None => Some(start <= tour_end),
            Some(place) => match rfc3339_seconds(place.latest@) {
                None => None,
                Some(end) => Some(start <= tour_end && tour_start <= end),
            },
        },
    }
}

/// The search over the first `n` shifts: the index of the first one that
/// intersects the tour time, `Some(None)` when none does, `None` where a time
/// met before finding one cannot be read.
pub open spec fn shift_search(shifts: Seq<VehicleShift>, n: nat, tour_start: int, tour_end: int) -> Option<Option<int>>
    decreases n,
{
    if n == 0 {
        Some(None)
    } else {
        match shift_search(shifts, (n - 1) as nat, tour_start, tour_end) {
            Some(None) => match shift_intersects(shifts[n - 1], tour_start, tour_end) {
                None => None,
                Some(true) => Some(Some(n - 1)),
                Some(false) => Some(None),
            },
            other => other,
        }
    }
}

/// A search that found a shift, or stopped, among the first `n` shifts ends so
/// among the first `m`.
pub proof fn lemma_shift_search_settled(shifts: Seq<VehicleShift>, n: nat, m: nat, tour_start: int, tour_end: int)
    requires
        n <= m,
        shift_search(shifts, n, tour_start, tour_end) != Some(None::<int>),
    ensures
        shift_search(shifts, m, tour_start, tour_end) == shift_search(shifts, n, tour_start, tour_end),
    decreases m,
{
    if m > n {
        lemma_shift_search_settled(shifts, n, (m - 1) as nat, tour_start, tour_end);
    }
}

/// Helper: the search finds shift `n - 1`.
proof fn lemma_shift_search_found(shifts: Seq<VehicleShift>, n: nat, m: nat, tour_start: int, tour_end: int)
    requires
        0 < n <= m,
        shift_search(shifts, (n - 1) as nat, tour_start, tour_end) == Some(None::<int>),
        shift_intersects(shifts[n - 1], tour_start, tour_end) == Some(true),
    ensures
        shift_search(shifts, m, tour_start, tour_end) == Some(Some((n - 1) as int)),
{
    lemma_shift_search_settled(shifts, n, m, tour_start, tour_end);
}

/// Helper: the search stops at shift `n - 1`.
proof fn lemma_shift_search_stuck(shifts: Seq<VehicleShift>, n: nat, m: nat, tour_start: int, tour_end: int)
    requires
        0 < n <= m,
        shift_search(shifts, (n - 1) as nat, tour_start, tour_end) == Some(None::<int>),
        shift_intersects(shifts[n - 1], tour_start, tour_end) is None,
    ensures
        shift_search(shifts, m, tour_start, tour_end) is None,
{
    lemma_shift_search_settled(shifts, n, m, tour_start, tour_end);
}

/// The shift found is the first one whose time intersects the tour time: it does,
/// and every shift before it does not.
pub proof fn lemma_shift_search_first(shifts: Seq<VehicleShift>, n: nat, tour_start: int, tour_end: int)
    requires
        n <= shifts.len(),
    ensures
        shift_search(shifts, n, tour_start, tour_end) matches Some(Some(i)) ==> 0 <= i < n && shift_intersects(
            shifts[i],
            tour_start,
            tour_end,
        ) == Some(true) && forall|j: int| 0 <= j < i ==> #[trigger] shift_intersects(shifts[j], tour_start, tour_end)
            == Some(false),
        shift_search(shifts, n, tour_start, tour_end) == Some(None::<int>) ==> forall|j: int|
            0 <= j < n ==> #[trigger] shift_intersects(shifts[j], tour_start, tour_end) == Some(false),
    decreases n,
{
    if n > 0 {
        lemma_shift_search_first(shifts, (n - 1) as nat, tour_start, tour_end);
    }
}

/// Message when no shift of the vehicle intersects the tour.
pub open spec fn no_shift_msg(id: Seq<char>) -> Seq<char> {
    "cannot find shift for tour with vehicle if: '"@ + id + "'"@
}

/// The vehicle shift lookup of a tour: the index of the first shift of its
/// vehicle intersecting its time, or the error met, or `None` where a time
/// cannot be read.
pub open spec fn shift_lookup(ctx: CheckerContext, tour: Tour) -> Option<Result<int, Seq<char>>> {
    let stops = tour.stops@;
    if stops.len() == 0 {
        Some(Err("cannot get first activity"@))
    } else {
        match (rfc3339_seconds(stops[0].time.arrival@), rfc3339_seconds(stops.last().time.arrival@)) {
            (Some(tour_start), Some(tour_end)) => match vehicle_index(ctx.problem.fleet.vehicles@, tour.vehicle_id@) {
                None => Some(Err(unknown_vehicle_msg(tour.vehicle_id@))),
                Some(v) => {
                    let shifts = ctx.problem.fleet.vehicles@[v].shifts@;
                    match shift_search(shifts, shifts.len(), tour_start, tour_end) {
                        None => None,
                        Some(None) => Some(Err(no_shift_msg(tour.vehicle_id@))),
                        Some(Some(i)) => Some(Ok(i)),
                    }
                },
            },
            _ => None,
        }
    }
}

/// Whether the vehicle type has a vehicle with the given id.
pub open spec fn has_vehicle_id(vehicle: VehicleType, id: Seq<char>) -> bool {
    exists|j: int| 0 <= j < vehicle.vehicle_ids.len() && (#[trigger] vehicle.vehicle_ids@[j])@ == id
}

/// The index of the first vehicle type with a vehicle of the given id.
pub open spec fn vehicle_index(vehicles: Seq<VehicleType>, id: Seq<char>) -> Option<int>
    decreases vehicles.len(),
{
    if vehicles.len() == 0 {
        None
    } else {
        match vehicle_index(vehicles.drop_last(), id) {
            Some(i) => Some(i),
            None => if has_vehicle_id(vehicles.last(), id) {
                Some(vehicles.len() - 1)
            } else {
                None
            },
        }
    }
}

/// Message for a vehicle id the fleet does not know.
pub open spec fn unknown_vehicle_msg(id: Seq<char>) -> Seq<char> {
    "cannot find vehicle with id '"@ + id + "'"@
}

/// The index of the first job with the given id.
pub open spec fn job_index(jobs: Seq<Job>, id: Seq<char>) -> Option<int>
    decreases jobs.len(),
{
    if jobs.len() == 0 {
        None
    } else {
        match job_index(jobs.drop_last(), id) {
            Some(i) => Some(i),
            None => if jobs.last().id@ == id {
                Some(jobs.len() - 1)
            } else {
                None
            },
        }
    }
}

/// The first index with a property is in range and has it.
pub proof fn lemma_vehicle_index(vehicles: Seq<VehicleType>, id: Seq<char>)
    ensures
        match vehicle_index(vehicles, id) {
            Some(i) => 0 <= i < vehicles.len() && has_vehicle_id(vehicles[i], id) && forall|k: int|
                0 <= k < i ==> !has_vehicle_id(#[trigger] vehicles[k], id),
            None => forall|k: int| 0 <= k < vehicles.len() ==> !has_vehicle_id(#[trigger] vehicles[k], id),
        },
    decreases vehicles.len(),
{
    if vehicles.len() > 0 {
        let prefix = vehicles.drop_last();
        lemma_vehicle_index(prefix, id);
        assert(vehicles.last() == vehicles[vehicles.len() - 1]);
        match vehicle_index(prefix, id) {
            Some(i) => {
                assert(prefix[i] == vehicles[i]);
                assert forall|k: int| 0 <= k < i implies !has_vehicle_id(#[trigger] vehicles[k], id) by {
                    assert(prefix[k] == vehicles[k]);
                }
            },
            None => {
                assert forall|k: int| 0 <= k < prefix.len() implies !has_vehicle_id(#[trigger] vehicles[k], id) by {
                    assert(prefix[k] == vehicles[k]);
                }
            },
        }
    }
}

/// The first index of a job is in range and has the id.
pub proof fn lemma_job_index(jobs: Seq<Job>, id: Seq<char>)
    ensures
        match job_index(jobs, id) {
            Some(i) => 0 <= i < jobs.len() && jobs[i].id@ == id && forall|k: int| 0 <= k < i ==> (#[trigger] jobs[k]).id@ != id,
            None => forall|k: int| 0 <= k < jobs.len() ==> (#[trigger] jobs[k]).id@ != id,
        },
    decreases jobs.len(),
{
    if jobs.len() > 0 {
        let prefix = jobs.drop_last();
        lemma_job_index(prefix, id);
        assert(jobs.last() == jobs[jobs.len() - 1]);
        match job_index(prefix, id) {
            Some(i) => {
                assert(prefix[i] == jobs[i]);
                assert forall|k: int| 0 <= k < i implies (#[trigger] jobs[k]).id@ != id by {
                    assert(prefix[k] == jobs[k]);
                }
            },
            None => {
                assert forall|k: int| 0 <= k < prefix.len() implies (#[trigger] jobs[k]).id@ != id by {
                    assert(prefix[k] == jobs[k]);
                }
            },
        }
    }
}

/// Whether a list of strings holds the given string.
pub fn contains_string(items: &Vec<String>, value: &str) -> (found: bool)
    ensures
        found == exists|j: int| 0 <= j < items.len() && (#[trigger] items@[j])@ == value@,
{
    let mut idx: usize = 0;
    while idx < items.len()
        invariant
            idx <= items.len(),
            forall|j: int| 0 <= j < idx ==> (#[trigger] items@[j])@ != value@,
        decreases items.len() - idx,
    {
        if str_equal(items[idx].as_str(), value) {
            return true;
        }
        idx = idx + 1;
    }
    false
}

impl CheckerContext {
    /// Creates an instance of `CheckerContext`; when matrices are given, they must
    /// not be time dependent and there must be one per profile.
    pub fn new(problem: Problem, matrices: Option<Vec<Matrix>>, solution: Solution) -> (result: Result<Self, Vec<String>>)
        ensures
            match result {
                Ok(ctx) => ctx.problem == problem && ctx.matrices == matrices && ctx.solution == solution && (
                matrices matches Some(m) ==> !has_timestamped_matrix(m@) && problem.fleet.profiles.len() == m.len()),
                Err(errors) => matrices matches Some(m) && views(errors@) == seq![
                    if has_timestamped_matrix(m@) {
                        time_aware_msg()
                    } else {
                        profiles_mismatch_msg(m.len() as nat, problem.fleet.profiles.len() as nat)
                    },
                ] && (has_timestamped_matrix(m@) || problem.fleet.profiles.len() != m.len()),
            },
    {
        if matrices.is_some() {
            match get_matrices(&matrices) {
                Err(err) => {
                    let mut errors: Vec<String> = Vec::new();
                    errors.push(err);
                    proof {
                        assert(views(errors@) =~= seq![time_aware_msg()]);
                    }
                    return Err(errors);
                },
                Ok(ms) => match get_profile_index(&problem, ms.as_slice()) {
                    Err(err) => {
                        let mut errors: Vec<String> = Vec::new();
                        errors.push(err);
                        proof {
                            assert(views(errors@) =~= seq![
                                profiles_mismatch_msg(ms.len() as nat, problem.fleet.profiles.len() as nat),
                            ]);
                        }
                        return Err(errors);
                    },
                    Ok(_) => {},
                },
            }
        }
        Ok(Self { problem, matrices, solution })
    }

    /// Gets the vehicle shift whose time intersects the tour's time: the index,
    /// among the shifts of the tour's vehicle, of the first such shift. The tour's
    /// time runs from the arrival at its first stop to the arrival at its last;
    /// a shift's from its earliest start to its latest end, without end for a
    /// shift that does not end. `None` where a time on the way cannot be read.
    pub fn get_vehicle_shift(&self, tour: &Tour) -> (result: Option<Result<usize, String>>)
        ensures
            match result {
                None => shift_lookup(*self, *tour) is None,
                Some(Ok(i)) => shift_lookup(*self, *tour) == Some(Ok::<int, Seq<char>>(i as int)),
                Some(Err(e)) => shift_lookup(*self, *tour) == Some(Err::<int, Seq<char>>(e@)),
            },
    {
        if tour.stops.len() == 0 {
            return Some(Err(String::from_str("cannot get first activity")));
        }
        let tour_start = parse_time_seconds(tour.stops[0].time.arrival.as_str())?;
        let tour_end = parse_time_seconds(tour.stops[tour.stops.len() - 1].time.arrival.as_str())?;
        let vehicle = match self.get_vehicle(tour.vehicle_id.as_str()) {
            Ok(vehicle) => vehicle,
            Err(e) => return Some(Err(e)),
        };
        let shifts = &vehicle.shifts;
        let mut idx: usize = 0;
        while idx < shifts.len()
            invariant
                idx <= shifts.len(),
                tour.stops.len() > 0,
                rfc3339_seconds(tour.stops@[0].time.arrival@) == Some(tour_start as int),
                rfc3339_seconds(tour.stops@.last().time.arrival@) == Some(tour_end as int),
                vehicle_index(self.problem.fleet.vehicles@, tour.vehicle_id@) matches Some(v) && *vehicle
                    == self.problem.fleet.vehicles@[v],
                shifts == &vehicle.shifts,
                shift_search(shifts@, idx as nat, tour_start as int, tour_end as int) == Some(None::<int>),
            decreases shifts.len() - idx,
        {
            let start = parse_time_seconds(shifts[idx].start.earliest.as_str());
            let end = match &shifts[idx].end {
                None => Some(None),
                Some(place) => match parse_time_seconds(place.latest.as_str()) {
                    Some(latest) => Some(Some(latest)),
                    None => None,
                },
            };
            match (start, end) {
                (Some(start), Some(end)) => {
                    let reaches = match end {
                        None => true,
                        Some(end) => tour_start <= end,
                    };
                    if start <= tour_end && reaches {
                        proof {
                            lemma_shift_search_found(shifts@, (idx + 1) as nat, shifts.len() as nat, tour_start as int, tour_end as int);
                        }
                        return Some(Ok(idx));
                    }
                },
                _ => {
                    proof {
                        lemma_shift_search_stuck(shifts@, (idx + 1) as nat, shifts.len() as nat, tour_start as int, tour_end as int);
                    }
                    return None;
                },
            }
            idx = idx + 1;
        }
        let mut message = String::from_str("cannot find shift for tour with vehicle if: '");
        message.append(tour.vehicle_id.as_str());
        message.append("'");
        Some(Err(message))
    }

    /// Gets vehicle by its id.
    pub fn get_vehicle(&self, vehicle_id: &str) -> (result: Result<&VehicleType, String>)
        ensures
            match result {
                Ok(v) => vehicle_index(self.problem.fleet.vehicles@, vehicle_id@) matches Some(i) && *v
                    == self.problem.fleet.vehicles@[i],
                Err(e) => vehicle_index(self.problem.fleet.vehicles@, vehicle_id@) is None && e@
                    == unknown_vehicle_msg(vehicle_id@),
            },
    {
        let vehicles = &self.problem.fleet.vehicles;
        let mut idx: usize = 0;
        while idx < vehicles.len()
            invariant
                idx <= vehicles.len(),
                vehicles == &self.problem.fleet.vehicles,
                vehicle_index(vehicles@.take(idx as int), vehicle_id@) is None,
            decreases vehicles.len() - idx,
        {
            proof {
                assert(vehicles@.take(idx + 1).drop_last() =~= vehicles@.take(idx as int));
            }
            if contains_string(&vehicles[idx].vehicle_ids, vehicle_id) {
                proof {
                    lemma_vehicle_index(vehicles@, vehicle_id@);
                    lemma_vehicle_index(vehicles@.take(idx as int), vehicle_id@);
                    assert(has_vehicle_id(vehicles@[idx as int], vehicle_id@));
                    assert(vehicles@.take(idx + 1).last() == vehicles@[idx as int]);
                    assert(vehicle_index(vehicles@.take(idx + 1), vehicle_id@) == Some(idx as int));
                    lemma_vehicle_index(vehicles@.take(idx + 1), vehicle_id@);
                    assert forall|k: int| 0 <= k < idx implies !has_vehicle_id(#[trigger] vehicles@[k], vehicle_id@) by {
                        assert(vehicles@.take(idx as int)[k] == vehicles@[k]);
                    }
                }
                return Ok(&vehicles[idx]);
            }
            idx = idx + 1;
        }
        proof {
            assert(vehicles@.take(vehicles.len() as int) =~= vehicles@);
        }
        let mut message = String::from_str("cannot find vehicle with id '");
        message.append(vehicle_id);
        message.append("'");
        Err(message)
    }

    /// Gets the first job with the given id.
    pub fn get_job_by_id(&self, job_id: &str) -> (result: Option<&Job>)
        ensures
            match result {
                Some(job) => job_index(self.problem.plan.jobs@, job_id@) matches Some(i) && *job
                    == self.problem.plan.jobs@[i],
                None => job_index(self.problem.plan.jobs@, job_id@) is None,
            },
    {
        let jobs = &self.problem.plan.jobs;
        let mut idx: usize = 0;
        while idx < jobs.len()
            invariant
                idx <= jobs.len(),
                jobs == &self.problem.plan.jobs,
                job_index(jobs@.take(idx as int), job_id@) is None,
            decreases jobs.len() - idx,
        {
            proof {
                assert(jobs@.take(idx + 1).drop_last() =~= jobs@.take(idx as int));
            }
            if str_equal(jobs[idx].id.as_str(), job_id) {
                proof {
                    assert(jobs@.take(idx + 1).last() == jobs@[idx as int]);
                    lemma_job_index(jobs@.take(idx as int), job_id@);
                    lemma_job_index(jobs@, job_id@);
                    assert(job_index(jobs@.take(idx + 1), job_id@) == Some(idx as int));
                    assert forall|k: int| 0 <= k < idx implies (#[trigger] jobs@[k]).id@ != job_id@ by {
                        assert(jobs@.take(idx as int)[k] == jobs@[k]);
                    }
                }
                return Some(&jobs[idx]);
            }
            idx = idx + 1;
        }
        proof {
            assert(jobs@.take(jobs.len() as int) =~= jobs@);
        }
        None
    }

    /// Returns stop's activity type names.
    pub fn get_stop_activity_types(&self, stop: &Stop) -> (types: Vec<String>)
        ensures
            types@.len() == stop.activities@.len(),
            forall|i: int| 0 <= i < types@.len() ==> (#[trigger] types@[i])@ == stop.activities@[i].activity_type@,
    {
        let mut types: Vec<String> = Vec::new();
        let mut idx: usize = 0;
        while idx < stop.activities.len()
            invariant
                idx <= stop.activities.len(),
                types@.len() == idx,
                forall|i: int| 0 <= i < idx ==> (#[trigger] types@[i])@ == stop.activities@[i].activity_type@,
            decreases stop.activities.len() - idx,
        {
            types.push(stop.activities[idx].activity_type.clone());
            idx = idx + 1;
        }
        types
    }
}

/// The activities of the given stops, stop by stop.
pub open spec fn stops_activities(stops: Seq<Stop>) -> Seq<Activity>
    decreases stops.len(),
{
    if stops.len() == 0 {
        Seq::empty()
    } else {
        stops_activities(stops.drop_last()) + stops.last().activities@
    }
}

/// The activities of the first `s` stops come first among the activities of all stops.
pub proof fn lemma_stops_activities_prefix(stops: Seq<Stop>, s: nat)
    requires
        s <= stops.len(),
    ensures
        stops_activities(stops.take(s as int)).len() <= stops_activities(stops).len(),
        stops_activities(stops).take(stops_activities(stops.take(s as int)).len() as int) == stops_activities(
            stops.take(s as int),
        ),
    decreases stops.len(),
{
    if s == stops.len() {
        assert(stops.take(s as int) =~= stops);
        assert(stops_activities(stops).take(stops_activities(stops).len() as int) =~= stops_activities(stops));
    } else {
        let prefix = stops.drop_last();
        assert(prefix.take(s as int) =~= stops.take(s as int));
        lemma_stops_activities_prefix(prefix, s);
        let inner = stops_activities(stops.take(s as int));
        assert(stops_activities(stops).take(inner.len() as int) =~= stops_activities(prefix).take(inner.len() as int));
    }
}

/// The activity at stop `s`, position `a` sits right after the activities of the
/// stops before `s`.
pub proof fn lemma_stops_activities_at(stops: Seq<Stop>, s: int, a: int)
    requires
        0 <= s < stops.len(),
        0 <= a < stops[s].activities@.len(),
    ensures
        stops_activities(stops.take(s + 1)) == stops_activities(stops.take(s)) + stops[s].activities@,
        stops_activities(stops.take(s)).len() + a < stops_activities(stops).len(),
        stops_activities(stops)[stops_activities(stops.take(s)).len() + a] == stops[s].activities@[a],
{
    assert(stops.take(s + 1).drop_last() =~= stops.take(s));
    assert(stops.take(s + 1).last() == stops[s]);
    lemma_stops_activities_prefix(stops, (s + 1) as nat);
    let whole = stops_activities(stops);
    let upto = stops_activities(stops.take(s + 1));
    let idx = stops_activities(stops.take(s)).len() + a;
    assert(whole.take(upto.len() as int)[idx] == upto[idx]);
}

/// Whether an activity serves a job: its type is none of departure, arrival,
/// break, reload or recharge.
pub open spec fn serves_job(activity: Activity) -> bool {
    let kind = activity.activity_type@;
    !(kind == "departure"@ || kind == "arrival"@ || kind == "break"@ || kind == "reload"@ || kind == "recharge"@)
}

/// Returns whether an activity serves a job: its type is none of departure,
/// arrival, break, reload or recharge.
pub fn is_job_activity(activity: &Activity) -> (serves: bool)
    ensures
        serves == serves_job(*activity),
{
    let kind = activity.activity_type.as_str();
    !(str_equal(kind, "departure") || str_equal(kind, "arrival") || str_equal(kind, "break") || str_equal(
        kind,
        "reload",
    ) || str_equal(kind, "recharge"))
}

/// The number of tasks in an optional list of tasks.
pub open spec fn task_count(tasks: Option<Vec<JobTask>>) -> nat {
    match tasks {
        Some(t) => t.len() as nat,
        None => 0,
    }
}

/// Returns the number of tasks in an optional list of tasks.
pub fn job_task_size(tasks: &Option<Vec<JobTask>>) -> (size: usize)
    ensures
        size == task_count(*tasks),
{
    match tasks {
        Some(t) => t.len(),
        None => 0,
    }
}

/// The total number of tasks of a job.
pub open spec fn job_tasks(job: Job) -> nat {
    task_count(job.pickups) + task_count(job.deliveries) + task_count(job.services) + task_count(job.replacements)
}


/// What the checks that compute with floating point durations, distances,
/// coordinates or the solver's model found, and what the rules need to know of
/// the solution's activities from them.
pub struct OutsideFindings {
    /// The type of each activity, tour by tour, stop by stop, or why it could not be found.
    pub activity_types: Vec<Vec<Vec<Result<ActivityType, String>>>>,
    /// What was found of each activity's location, tour by tour, stop by stop.
    pub location_facts: Vec<Vec<Vec<assignment::LocationFact>>>,
    /// Whether all activities match the jobs they serve.
    pub jobs_match: Result<(), String>,
    /// What was found of the breaks of each tour.
    pub breaks: Vec<breaks::BreakFindings>,
    /// The outcome of the routing checks.
    pub routing: Result<(), Vec<String>>,
    /// The outcome of the limit checks.
    pub limits: Result<(), String>,
}

/// A single error as a list of errors.
pub open spec fn as_list(result: Result<(), Seq<char>>) -> Result<(), Seq<Seq<char>>> {
    match result {
        Ok(_) => Ok(()),
        Err(e) => Err(seq![e]),
    }
}

/// The errors of a result with a list of errors.
pub open spec fn errors_in(result: Result<(), Seq<Seq<char>>>) -> Seq<Seq<char>> {
    match result {
        Ok(_) => Seq::empty(),
        Err(e) => e,
    }
}

/// The errors of all checks, in order: loads, relations, breaks, assignment,
/// skills, job times, routing and limits.
pub open spec fn check_errors(ctx: CheckerContext, findings: OutsideFindings) -> Seq<Seq<char>> {
    errors_in(capacity::vehicle_load_outcome(ctx, findings.activity_types@)) + errors_in(
        as_list(relations::relations_outcome(ctx)),
    ) + errors_in(breaks::breaks_outcome(ctx, findings.breaks@)) + errors_in(
        assignment::assignment_outcome(ctx, result_view(findings.jobs_match), findings.location_facts@),
    ) + errors_in(skills::skills_outcome(ctx)) + errors_in(job_times::job_times_errors(ctx)) + errors_in(
        results_view(findings.routing),
    ) + errors_in(as_list(result_view(findings.limits)))
}

/// The outcome of the solution check: every error once, first occurrences kept in order.
pub open spec fn check_outcome(ctx: CheckerContext, findings: OutsideFindings) -> Result<(), Seq<Seq<char>>> {
    let unique = dedup_messages(check_errors(ctx, findings));
    if unique.len() == 0 {
        Ok(())
    } else {
        Err(unique)
    }
}

/// The findings fit the solution, and the load and job time checks can be
/// computed: no load leaves `i32` or has more than eight dimensions, no tour has
/// two reload stops in a row, and every time the job time check reads is an
/// RFC3339 date time.
pub open spec fn findings_fit(ctx: CheckerContext, findings: OutsideFindings) -> bool {
    &&& capacity::kinds_fit(ctx.solution.tours@, findings.activity_types@)
    &&& assignment::facts_fit(ctx.solution.tours@, findings.location_facts@)
    &&& assignment::activity_total(ctx.solution.tours@) <= usize::MAX
    &&& findings.breaks.len() == ctx.solution.tours.len()
    &&& forall|t: int| 0 <= t < ctx.solution.tours.len() ==> stops_activities(
        (#[trigger] ctx.solution.tours@[t]).stops@,
    ).len() <= usize::MAX
    &&& !(capacity::load_assignment_run(ctx, findings.activity_types@) is Panic)
    &&& !(capacity::resource_run(ctx, findings.activity_types@) is Panic)
    &&& job_times::job_times_result(ctx) is Some
}

/// Appends the errors of a result.
fn append_errors(errors: &mut Vec<String>, result: &Result<(), Vec<String>>)
    ensures
        views(final(errors)@) == views(old(errors)@) + errors_in(results_view(*result)),
{
    match result {
        Ok(_) => {
            proof {
                assert(views(errors@) =~= views(errors@) + Seq::<Seq<char>>::empty());
            }
        },
        Err(list) => {
            let ghost start = views(errors@);
            let mut idx: usize = 0;
            while idx < list.len()
                invariant
                    idx <= list.len(),
                    views(errors@) == start + views(list@).take(idx as int),
                decreases list.len() - idx,
            {
                let ghost before = errors@;
                let item = list[idx].clone();
                errors.push(item);
                proof {
                    assert(errors@ == before.push(item));
                    assert(views(errors@) =~= views(before).push(list@[idx as int]@));
                    assert(views(list@).take(idx + 1) =~= views(list@).take(idx as int).push(list@[idx as int]@));
                    assert(views(errors@) =~= start + views(list@).take(idx + 1));
                }
                idx = idx + 1;
            }
            proof {
                assert(views(list@).take(idx as int) =~= views(list@));
            }
        },
    }
}

impl CheckerContext {
    /// Performs solution check: runs every check, and reports each error once,
    /// keeping the order in which the checks found them.
    pub fn check(&self, findings: &OutsideFindings) -> (result: Result<(), Vec<String>>)
        requires
            findings_fit(*self, *findings),
        ensures
            results_view(result) == check_outcome(*self, *findings),
    {
        let mut errors: Vec<String> = Vec::new();
        let load = match capacity::check_vehicle_load(self, &findings.activity_types) {
            Some(load) => load,
            None => unreached(),
        };
        append_errors(&mut errors, &load);
        let relations = relations::check_relations(self);
        append_errors(&mut errors, &relations);
        proof {
            assert(results_view(relations) == as_list(relations::relations_outcome(*self)));
        }
        let breaks = breaks::check_breaks(self, &findings.breaks);
        append_errors(&mut errors, &breaks);
        let jobs_match: Result<(), String> = match &findings.jobs_match {
            Ok(_) => Ok(()),
            Err(e) => Err(e.clone()),
        };
        let assigned = assignment::check_assignment(self, jobs_match, &findings.location_facts);
        append_errors(&mut errors, &assigned);
        let skills = skills::check_skills(self);
        append_errors(&mut errors, &skills);
        let job_times = match job_times::check_job_times(self) {
            Some(job_times) => job_times,
            None => unreached(),
        };
        append_errors(&mut errors, &job_times);
        append_errors(&mut errors, &findings.routing);
        let limits: Result<(), Vec<String>> = match &findings.limits {
            Ok(_) => Ok(()),
            Err(e) => {
                let mut list: Vec<String> = Vec::new();
                list.push(e.clone());
                Err(list)
            },
        };
        proof {
            if limits is Err {
                assert(views(limits->Err_0@) =~= seq![views(limits->Err_0@)[0]]);
            }
        }
        append_errors(&mut errors, &limits);
        proof {
            assert(views(errors@) =~= check_errors(*self, *findings));
        }
        let unique = dedup_strings(&errors);
        if unique.len() == 0 {
            Ok(())
        } else {
            Err(unique)
        }
    }
}

/// The check reports no error twice, and reports exactly the errors that its
/// checks found.
pub proof fn lemma_check_reports_each_error_once(ctx: CheckerContext, findings: OutsideFindings)
    ensures
        check_outcome(ctx, findings) matches Err(unique) ==> unique.no_duplicates() && forall|m: Seq<char>|
            #[trigger] unique.contains(m) <==> check_errors(ctx, findings).contains(m),
        check_outcome(ctx, findings) is Ok <==> check_errors(ctx, findings).len() == 0,
{
    lemma_dedup_messages(check_errors(ctx, findings));
    let errors = check_errors(ctx, findings);
    if errors.len() > 0 {
        assert(errors.contains(errors[0]));
        assert(dedup_messages(errors).contains(errors[0]));
    }
}

/// A solution whose vehicles lack skills its jobs require is not feasible: when
/// the skills rule fails, the check fails.
pub proof fn lemma_check_refuses_unmet_skills(ctx: CheckerContext, findings: OutsideFindings)
    requires
        skills::skills_outcome(ctx) is Err,
    ensures
        check_outcome(ctx, findings) is Err,
{
    let n = ctx.solution.tours.len() as nat;
    if first_error_of(n, skills::known_vehicle_rules(ctx)) is Ok {
        let found = skills::skill_violations(ctx, n);
        lemma_dedup_messages(found);
        assert(found.contains(found[0]));
        assert(dedup_messages(found).contains(found[0]));
    }
    assert(errors_in(skills::skills_outcome(ctx)).len() > 0);
    lemma_check_reports_each_error_once(ctx, findings);
}

/// A tour outside the job time bounds of its shift is not feasible: when the job
/// time rule fails, the check fails.
pub proof fn lemma_check_refuses_job_time_violations(ctx: CheckerContext, findings: OutsideFindings)
    requires
        job_times::job_times_result(ctx) matches Some(Err(_)),
    ensures
        check_outcome(ctx, findings) is Err,
{
    assert(errors_of(seq![job_times::job_times_value(ctx)]).len() > 0) by {
        reveal_with_fuel(errors_of, 2);
    }
    assert(errors_in(job_times::job_times_errors(ctx)).len() > 0);
    lemma_check_reports_each_error_once(ctx, findings);
}

} // verus!
