//! Checks that vehicle load is assigned correctly: the vehicle's capacity is
//! never exceeded, the load changes at each stop by the demands served there,
//! and shared reload resources are not over-consumed.
//!
//! Loads are compared as `vrp_core`'s `MultiDimLoad` compares them: two loads
//! are equal when they agree on every used dimension and use at least one, a
//! load exceeds another when it is greater on every used dimension, and a load
//! fits into a capacity when no dimension of it is larger.

use super::{combine_error_results, combined_errors, first_error_of, job_task_size, job_tasks, lemma_first_error_ok, lemma_first_error_stays, result_view, result_views, results_view, task_count, unknown_vehicle_msg, vehicle_index, ActivityType, CheckerContext};
use super::assignment::{job_id_index, job_ids_index, lemma_job_id_index};
use crate::collections::{index_map_entries, IndexMap};
use crate::text::{decimal, i64_to_string, views, same_optional_string, signed_decimal, str_equal, usize_to_string};
use crate::capacity::{can_add_dims, can_sub_dims, lemma_fill_dims, MultiDimensionalCapacity, CAPACITY_DIMENSION_SIZE};
use crate::model::{Activity, Job, JobTask, Stop, Tour, VehicleResource};
use vstd::prelude::*;

verus! {

// region Loads

/// A load: the values of its eight dimensions and the number of used ones.
pub struct LoadVal {
    pub dims: Seq<int>,
    pub size: nat,
}

/// The value of a load.
pub open spec fn lv(c: MultiDimensionalCapacity) -> LoadVal {
    LoadVal { dims: Seq::new(8, |i: int| c.capacity@[i] as int), size: c.size as nat }
}

/// The load with no used dimension.
pub open spec fn zero_load() -> LoadVal {
    LoadVal { dims: Seq::new(8, |i: int| 0), size: 0 }
}

/// The load of the given dimension values.
pub open spec fn load_from(values: Seq<i32>) -> LoadVal {
    LoadVal {
        dims: Seq::new(8, |i: int| if i < values.len() { values[i] as int } else { 0 }),
        size: values.len(),
    }
}

/// The larger of two sizes.
pub open spec fn max_nat(a: nat, b: nat) -> nat {
    if a >= b {
        a
    } else {
        b
    }
}

/// The dimension-wise sum of two loads.
pub open spec fn add_vals(a: LoadVal, b: LoadVal) -> LoadVal {
    LoadVal { dims: Seq::new(8, |i: int| a.dims[i] + b.dims[i]), size: max_nat(a.size, b.size) }
}

/// The dimension-wise difference of two loads.
pub open spec fn sub_vals(a: LoadVal, b: LoadVal) -> LoadVal {
    LoadVal { dims: Seq::new(8, |i: int| a.dims[i] - b.dims[i]), size: max_nat(a.size, b.size) }
}

/// Whether every dimension fits into `i32`.
pub open spec fn in_i32(a: LoadVal) -> bool {
    forall|i: int| 0 <= i < 8 ==> i32::MIN <= #[trigger] a.dims[i] <= i32::MAX
}

/// Whether a load fits into a capacity: no dimension is larger.
pub open spec fn fits_into(capacity: LoadVal, load: LoadVal) -> bool {
    forall|i: int| 0 <= i < 8 ==> capacity.dims[i] >= #[trigger] load.dims[i]
}

/// Whether two loads are equal: they use some dimension and agree on each used one.
pub open spec fn same_load(a: LoadVal, b: LoadVal) -> bool {
    let n = max_nat(a.size, b.size);
    n > 0 && forall|i: int| 0 <= i < n ==> #[trigger] a.dims[i] == b.dims[i]
}

/// Whether a load exceeds another: it uses some dimension and is greater on each used one.
pub open spec fn exceeds(a: LoadVal, b: LoadVal) -> bool {
    let n = max_nat(a.size, b.size);
    n > 0 && forall|i: int| 0 <= i < n ==> #[trigger] a.dims[i] > b.dims[i]
}

/// The value of a sum of loads.
pub proof fn lemma_lv_add(a: MultiDimensionalCapacity, b: MultiDimensionalCapacity)
    ensures
        can_add_dims(a.capacity, b.capacity) <==> in_i32(add_vals(lv(a), lv(b))),
        can_add_dims(a.capacity, b.capacity) ==> lv(a.sum_spec(b)) == add_vals(lv(a), lv(b)),
{
    if can_add_dims(a.capacity, b.capacity) {
        lemma_fill_dims(
            a.capacity,
            Seq::new(CAPACITY_DIMENSION_SIZE as nat, |i: int| (a.capacity@[i] + b.capacity@[i]) as i32),
            CAPACITY_DIMENSION_SIZE as nat,
        );
        assert(lv(a.sum_spec(b)).dims =~= add_vals(lv(a), lv(b)).dims);
    }
    if in_i32(add_vals(lv(a), lv(b))) {
        assert forall|i: int| 0 <= i < CAPACITY_DIMENSION_SIZE implies i32::MIN <= #[trigger] a.capacity@[i]
            + b.capacity@[i] <= i32::MAX by {
            assert(add_vals(lv(a), lv(b)).dims[i] == a.capacity@[i] + b.capacity@[i]);
        }
    }
}

/// The value of a difference of loads.
pub proof fn lemma_lv_sub(a: MultiDimensionalCapacity, b: MultiDimensionalCapacity)
    ensures
        can_sub_dims(a.capacity, b.capacity) <==> in_i32(sub_vals(lv(a), lv(b))),
        can_sub_dims(a.capacity, b.capacity) ==> lv(a.diff_spec(b)) == sub_vals(lv(a), lv(b)),
{
    if can_sub_dims(a.capacity, b.capacity) {
        lemma_fill_dims(
            a.capacity,
            Seq::new(CAPACITY_DIMENSION_SIZE as nat, |i: int| (a.capacity@[i] - b.capacity@[i]) as i32),
            CAPACITY_DIMENSION_SIZE as nat,
        );
        assert(lv(a.diff_spec(b)).dims =~= sub_vals(lv(a), lv(b)).dims);
    }
    if in_i32(sub_vals(lv(a), lv(b))) {
        assert forall|i: int| 0 <= i < CAPACITY_DIMENSION_SIZE implies i32::MIN <= #[trigger] a.capacity@[i]
            - b.capacity@[i] <= i32::MAX by {
            assert(sub_vals(lv(a), lv(b)).dims[i] == a.capacity@[i] - b.capacity@[i]);
        }
    }
}

// endregion


// region Demand

/// The result of a step of the load checks: a value, an error message, or a
/// panic of the computation (an `i32` overflow, a load of more than eight
/// dimensions, or two reload stops in a row).
pub enum Run<T> {
    Done(T),
    Fail(Seq<char>),
    Panic,
}

/// Why a load check stopped early: an error message, or an abort where the
/// computation cannot go on (an `i32` overflow, a load of more than eight
/// dimensions, or two reload stops in a row).
#[derive(Debug, PartialEq, Eq)]
pub enum Halt {
    Error(String),
    Abort,
}

/// Whether a halt is the outcome of a run: its failure, or its panic.
pub open spec fn halted<S>(run: Run<S>, halt: Halt) -> bool {
    match halt {
        Halt::Error(e) => run == Run::<S>::Fail(e@),
        Halt::Abort => run is Panic,
    }
}

/// How an activity's demand changes the load.
#[derive(Clone, Copy, Debug, PartialEq, Eq, Structural)]
pub enum DemandType {
    NoDemand,
    StaticPickup,
    StaticDelivery,
    StaticPickupDelivery,
    DynamicPickup,
    DynamicDelivery,
}

/// The demand type of an activity kind, for a job with both pickups and deliveries or not.
pub open spec fn demand_type_of(dynamic: bool, kind: Seq<char>) -> DemandType {
    if kind == "replacement"@ {
        DemandType::StaticPickupDelivery
    } else if kind == "pickup"@ {
        if dynamic {
            DemandType::DynamicPickup
        } else {
            DemandType::StaticPickup
        }
    } else if kind == "delivery"@ {
        if dynamic {
            DemandType::DynamicDelivery
        } else {
            DemandType::StaticDelivery
        }
    } else {
        DemandType::NoDemand
    }
}

/// The job's tasks of the activity kind.
pub open spec fn task_list(job: Job, kind: Seq<char>) -> Option<Vec<JobTask>> {
    if kind == "pickup"@ {
        job.pickups
    } else if kind == "delivery"@ {
        job.deliveries
    } else if kind == "service"@ {
        job.services
    } else if kind == "replacement"@ {
        job.replacements
    } else {
        None
    }
}

/// Whether two optional tags are equal.
pub open spec fn same_tag(a: Option<String>, b: Option<String>) -> bool {
    match (a, b) {
        (Some(x), Some(y)) => x@ == y@,
        (None, None) => true,
        _ => false,
    }
}

/// Whether some place of the task has the tag.
pub open spec fn has_tag(task: JobTask, tag: Option<String>) -> bool {
    exists|p: int| 0 <= p < task.places.len() && same_tag((#[trigger] task.places@[p]).tag, tag)
}

/// The index of the first task with a place of the tag.
pub open spec fn first_tagged(tasks: Seq<JobTask>, tag: Option<String>) -> Option<int>
    decreases tasks.len(),
{
    if tasks.len() == 0 {
        None
    } else {
        match first_tagged(tasks.drop_last(), tag) {
            Some(i) => Some(i),
            None => if has_tag(tasks.last(), tag) {
                Some(tasks.len() - 1)
            } else {
                None
            },
        }
    }
}

/// Message for an activity whose job the plan does not have.
pub open spec fn missing_job_msg(id: Seq<char>) -> Seq<char> {
    "cannot find job with id '"@ + id + "'"@
}

/// Message for an untagged activity of a job with several tasks.
pub open spec fn untagged_activity_msg(id: Seq<char>) -> Seq<char> {
    "checker requires that multi job activity must have tag: '"@ + id + "'"@
}

/// Message for an activity that matches no task of its job.
pub open spec fn unmatched_place_msg() -> Seq<char> {
    "cannot match activity to job place"@
}

/// The task an activity serves: the first of its kind for a job with one task,
/// or one pickup and one delivery, else the first of its kind with a place of
/// the activity's tag.
pub open spec fn served_task(job: Job, activity: Activity) -> Option<JobTask> {
    let tasks = job_tasks(job);
    let single = tasks < 2 || (tasks == 2 && task_count(job.pickups) == 1 && task_count(job.deliveries) == 1);
    match task_list(job, activity.activity_type@) {
        None => None,
        Some(list) => if single {
            if list.len() > 0 {
                Some(list@[0])
            } else {
                None
            }
        } else {
            match first_tagged(list@, activity.job_tag) {
                Some(i) => Some(list@[i]),
                None => None,
            }
        },
    }
}

/// The demand of an activity of the given type: its demand type and the demand
/// of the task it serves; activities of other than jobs demand nothing.
pub open spec fn demand_spec(ctx: CheckerContext, activity: Activity, kind: ActivityType) -> Run<(DemandType, LoadVal)> {
    let jobs = ctx.problem.plan.jobs@;
    let index = job_id_index(jobs);
    let id = activity.job_id@;
    match kind {
        ActivityType::Job => if !index.contains_key(id) {
            Run::Fail(missing_job_msg(id))
        } else {
            let job = jobs[index[id] as int];
            let tasks = job_tasks(job);
            let single = tasks < 2 || (tasks == 2 && task_count(job.pickups) == 1 && task_count(job.deliveries) == 1);
            if !single && activity.job_tag is None {
                Run::Fail(untagged_activity_msg(id))
            } else {
                match served_task(job, activity) {
                    None => Run::Fail(unmatched_place_msg()),
                    Some(task) => {
                        let dynamic = task_count(job.pickups) > 0 && task_count(job.deliveries) > 0;
                        let demand_type = demand_type_of(dynamic, activity.activity_type@);
                        match task.demand {
                            None => Run::Done((demand_type, zero_load())),
                            Some(d) => if d.len() > 8 {
                                Run::Panic
                            } else {
                                Run::Done((demand_type, load_from(d@)))
                            },
                        }
                    },
                }
            }
        },
        _ => Run::Done((demand_type_of(false, activity.activity_type@), zero_load())),
    }
}

// endregion


// region Demand checks

/// Whether some place of the task has the tag.
fn has_place_tag(task: &JobTask, tag: &Option<String>) -> (found: bool)
    ensures
        found == has_tag(*task, *tag),
{
    let mut p: usize = 0;
    while p < task.places.len()
        invariant
            p <= task.places.len(),
            forall|q: int| 0 <= q < p ==> !same_tag((#[trigger] task.places@[q]).tag, *tag),
        decreases task.places.len() - p,
    {
        if same_optional_string(&task.places[p].tag, tag) {
            proof {
                assert(same_tag(task.places@[p as int].tag, *tag));
            }
            return true;
        }
        p = p + 1;
    }
    false
}

/// The first task with a place of the tag.
fn find_tagged<'a>(tasks: &'a Vec<JobTask>, tag: &Option<String>) -> (found: Option<&'a JobTask>)
    ensures
        match found {
            Some(task) => first_tagged(tasks@, *tag) matches Some(i) && *task == tasks@[i],
            None => first_tagged(tasks@, *tag) is None,
        },
{
    let mut idx: usize = 0;
    while idx < tasks.len()
        invariant
            idx <= tasks.len(),
            first_tagged(tasks@.take(idx as int), *tag) is None,
        decreases tasks.len() - idx,
    {
        proof {
            assert(tasks@.take(idx + 1).drop_last() =~= tasks@.take(idx as int));
            assert(tasks@.take(idx + 1).last() == tasks@[idx as int]);
        }
        if has_place_tag(&tasks[idx], tag) {
            proof {
                lemma_first_tagged_prefix(tasks@, *tag, (idx + 1) as nat);
            }
            return Some(&tasks[idx]);
        }
        idx = idx + 1;
    }
    proof {
        assert(tasks@.take(idx as int) =~= tasks@);
    }
    None
}

/// A task found among a prefix of the tasks is the first one found among all of them.
pub proof fn lemma_first_tagged_prefix(tasks: Seq<JobTask>, tag: Option<String>, n: nat)
    requires
        n <= tasks.len(),
        first_tagged(tasks.take(n as int), tag) is Some,
    ensures
        first_tagged(tasks, tag) == first_tagged(tasks.take(n as int), tag),
    decreases tasks.len(),
{
    if n < tasks.len() {
        assert(tasks.drop_last().take(n as int) =~= tasks.take(n as int));
        lemma_first_tagged_prefix(tasks.drop_last(), tag, n);
    } else {
        assert(tasks.take(n as int) =~= tasks);
    }
}

/// The job's tasks of the activity kind.
fn task_list_of<'a>(job: &'a Job, kind: &str) -> (list: Option<&'a Vec<JobTask>>)
    ensures
        match list {
            Some(l) => task_list(*job, kind@) == Some(*l),
            None => task_list(*job, kind@) is None,
        },
{
    if str_equal(kind, "pickup") {
        job.pickups.as_ref()
    } else if str_equal(kind, "delivery") {
        job.deliveries.as_ref()
    } else if str_equal(kind, "service") {
        job.services.as_ref()
    } else if str_equal(kind, "replacement") {
        job.replacements.as_ref()
    } else {
        None
    }
}

/// The demand type of an activity kind, for a job with both pickups and deliveries or not.
fn get_demand_type(dynamic: bool, kind: &str) -> (demand_type: DemandType)
    ensures
        demand_type == demand_type_of(dynamic, kind@),
{
    if str_equal(kind, "replacement") {
        DemandType::StaticPickupDelivery
    } else if str_equal(kind, "pickup") {
        if dynamic {
            DemandType::DynamicPickup
        } else {
            DemandType::StaticPickup
        }
    } else if str_equal(kind, "delivery") {
        if dynamic {
            DemandType::DynamicDelivery
        } else {
            DemandType::StaticDelivery
        }
    } else {
        DemandType::NoDemand
    }
}

/// The load with no used dimension.
fn empty_load() -> (load: MultiDimensionalCapacity)
    ensures
        lv(load) == zero_load(),
        load.size == 0,
{
    let load = MultiDimensionalCapacity::new(Vec::new());
    proof {
        assert(lv(load).dims =~= zero_load().dims);
    }
    load
}

/// The load of the given dimension values.
fn load_of(values: &Vec<i32>) -> (load: MultiDimensionalCapacity)
    requires
        values.len() <= 8,
    ensures
        lv(load) == load_from(values@),
        load.size <= 8,
{
    let load = MultiDimensionalCapacity::new(values.clone());
    proof {
        assert(lv(load).dims =~= load_from(values@).dims);
    }
    load
}

/// Returns the demand of an activity of the given type: its demand type and the
/// demand of the task it serves. `index` maps job ids to the last job with that id.
pub fn get_demand(ctx: &CheckerContext, index: &IndexMap, activity: &Activity, kind: &ActivityType) -> (result: Result<
    (DemandType, MultiDimensionalCapacity),
    Halt,
>)
    requires
        index_map_entries(*index) == job_id_index(ctx.problem.plan.jobs@),
    ensures
        match result {
            Ok((t, d)) => demand_spec(*ctx, *activity, *kind) == Run::Done((t, lv(d))) && d.size <= 8,
            Err(h) => halted(demand_spec(*ctx, *activity, *kind), h),
        },
{
    match kind {
        ActivityType::Job => {
            let jobs = &ctx.problem.plan.jobs;
            let j = match index.get(activity.job_id.as_str()) {
                Some(j) => j,
                None => {
                    let mut message = String::from_str("cannot find job with id '");
                    message.append(activity.job_id.as_str());
                    message.append("'");
                    return Err(Halt::Error(message));
                },
            };
            let job_count = jobs.len();
            proof {
                assert(jobs@.len() == job_count);
                lemma_job_id_index(jobs@);
            }
            let job = &jobs[j];
            let pickups = job_task_size(&job.pickups);
            let deliveries = job_task_size(&job.deliveries);
            let tasks: u128 = pickups as u128 + deliveries as u128 + job_task_size(&job.services) as u128
                + job_task_size(&job.replacements) as u128;
            let single = tasks < 2 || (tasks == 2 && pickups == 1 && deliveries == 1);
            if !single && activity.job_tag.is_none() {
                let mut message = String::from_str("checker requires that multi job activity must have tag: '");
                message.append(activity.job_id.as_str());
                message.append("'");
                return Err(Halt::Error(message));
            }
            let found = match task_list_of(job, activity.activity_type.as_str()) {
                None => None,
                Some(list) => if single {
                    if list.len() > 0 {
                        Some(&list[0])
                    } else {
                        None
                    }
                } else {
                    find_tagged(list, &activity.job_tag)
                },
            };
            match found {
                None => Err(Halt::Error(String::from_str("cannot match activity to job place"))),
                Some(task) => {
                    let dynamic = pickups > 0 && deliveries > 0;
                    let demand_type = get_demand_type(dynamic, activity.activity_type.as_str());
                    match &task.demand {
                        None => Ok((demand_type, empty_load())),
                        Some(d) => if d.len() > 8 {
                            Err(Halt::Abort)
                        } else {
                            Ok((demand_type, load_of(d)))
                        },
                    }
                },
            }
        },
        _ => Ok((get_demand_type(false, activity.activity_type.as_str()), empty_load())),
    }
}

// endregion


// region Intervals

/// Whether the stop's first activity is a reload.
pub open spec fn is_reload_stop(stop: Stop) -> bool {
    stop.activities@.len() > 0 && stop.activities@[0].activity_type@ == "reload"@
}

/// The number of legs between consecutive stops.
pub open spec fn leg_count(stops: Seq<Stop>) -> int {
    if stops.len() < 2 {
        0
    } else {
        stops.len() - 1
    }
}

/// The intervals between reloads found among the first `n` legs, as ranges of
/// legs `(start, end)`: an interval ends at the leg before a leg to a reload
/// stop, or at the last leg, and the next one starts after the reload's leg.
pub open spec fn interval_bounds(stops: Seq<Stop>, n: nat) -> Run<Seq<(int, int)>>
    decreases n,
{
    if n == 0 {
        Run::Done(Seq::empty())
    } else {
        match interval_bounds(stops, (n - 1) as nat) {
            Run::Done(acc) => {
                let idx = n - 1;
                let last = leg_count(stops) - 1;
                if is_reload_stop(stops[idx + 1]) || idx == last {
                    let start = if acc.len() == 0 {
                        0
                    } else {
                        acc.last().1 + 2
                    };
                    if idx != last && idx == 0 {
                        Run::Panic
                    } else {
                        let end = if idx == last {
                            last
                        } else {
                            idx - 1
                        };
                        if end < start {
                            Run::Panic
                        } else {
                            Run::Done(acc.push((start, end)))
                        }
                    }
                } else {
                    Run::Done(acc)
                }
            },
            Run::Fail(e) => Run::Fail(e),
            Run::Panic => Run::Panic,
        }
    }
}

/// The intervals of a tour's stops.
pub open spec fn tour_intervals(stops: Seq<Stop>) -> Run<Seq<(int, int)>> {
    interval_bounds(stops, leg_count(stops) as nat)
}

/// The intervals lie among the legs, in order, each with at least one leg.
pub proof fn lemma_interval_bounds(stops: Seq<Stop>, n: nat)
    requires
        n <= leg_count(stops),
    ensures
        interval_bounds(stops, n) matches Run::Done(b) ==> forall|k: int|
            0 <= k < b.len() ==> 0 <= (#[trigger] b[k]).0 <= b[k].1 < n,
        !(interval_bounds(stops, n) is Fail),
    decreases n,
{
    if n > 0 {
        lemma_interval_bounds(stops, (n - 1) as nat);
        match interval_bounds(stops, (n - 1) as nat) {
            Run::Done(acc) => {
                if acc.len() > 0 {
                    assert(acc.last() == acc[acc.len() - 1]);
                }
            },
            _ => {},
        }
    }
}

/// Returns the intervals between reloads of a tour as ranges of legs `(start, end)`,
/// leg `i` going from stop `i` to stop `i + 1`; `None` for two reload stops in a
/// row, or a reload second stop of a tour of more legs, which have no intervals.
pub fn get_intervals(tour: &Tour) -> (intervals: Option<Vec<(usize, usize)>>)
    ensures
        match intervals {
            Some(found) => tour_intervals(tour.stops@) matches Run::Done(b) && found@.len() == b.len() && forall|k: int|
                0 <= k < b.len() ==> (#[trigger] found@[k]).0 == b[k].0 && found@[k].1 == b[k].1,
            None => tour_intervals(tour.stops@) is Panic,
        },
{
    let stops = &tour.stops;
    let legs: usize = if stops.len() < 2 {
        0
    } else {
        stops.len() - 1
    };
    let mut found: Vec<(usize, usize)> = Vec::new();
    let mut idx: usize = 0;
    proof {
        lemma_run_prefix(stops@, legs as nat);
    }
    while idx < legs
        invariant
            idx <= legs,
            legs == leg_count(stops@),
            stops == &tour.stops,
            !(interval_bounds(stops@, legs as nat) is Panic) ==> forall|m: nat|
                m <= legs ==> !(#[trigger] interval_bounds(stops@, m) is Panic),
            interval_bounds(stops@, idx as nat) matches Run::Done(b) && found@.len() == b.len() && forall|k: int|
                0 <= k < b.len() ==> (#[trigger] found@[k]).0 == b[k].0 && found@[k].1 == b[k].1,
        decreases legs - idx,
    {
        let last = legs - 1;
        proof {
            lemma_interval_bounds(stops@, idx as nat);
        }
        if is_reload(&stops[idx + 1]) || idx == last {
            let start: usize = if found.len() == 0 {
                0
            } else {
                found[found.len() - 1].1 + 2
            };
            if idx != last && idx == 0 {
                proof {
                    assert(interval_bounds(stops@, (idx + 1) as nat) is Panic);
                }
                return None;
            }
            let end: usize = if idx == last {
                last
            } else {
                idx - 1
            };
            if end < start {
                proof {
                    assert(interval_bounds(stops@, (idx + 1) as nat) is Panic);
                }
                return None;
            }
            found.push((start, end));
        }
        idx = idx + 1;
    }
    Some(found)
}

/// Whether the stop's first activity is a reload.
fn is_reload(stop: &Stop) -> (reload: bool)
    ensures
        reload == is_reload_stop(*stop),
{
    stop.activities.len() > 0 && str_equal(stop.activities[0].activity_type.as_str(), "reload")
}

/// Once the intervals of a prefix of the legs panic, those of longer prefixes do too.
pub proof fn lemma_run_prefix(stops: Seq<Stop>, n: nat)
    ensures
        !(interval_bounds(stops, n) is Panic) ==> forall|m: nat| m <= n ==> !(#[trigger] interval_bounds(stops, m) is Panic),
    decreases n,
{
    if n > 0 {
        lemma_run_prefix(stops, (n - 1) as nat);
        if !(interval_bounds(stops, n) is Panic) {
            assert(!(interval_bounds(stops, (n - 1) as nat) is Panic));
        }
    }
}

// endregion


// region Load rules

/// Runs `step` over `0..n` from `init`, stopping at the first failure or panic.
pub open spec fn fold_run<S>(n: nat, init: S, step: spec_fn(int, S) -> Run<S>) -> Run<S>
    decreases n,
{
    if n == 0 {
        Run::Done(init)
    } else {
        match fold_run((n - 1) as nat, init, step) {
            Run::Done(x) => step(n - 1, x),
            Run::Fail(e) => Run::Fail(e),
            Run::Panic => Run::Panic,
        }
    }
}

/// A run that stops in a prefix stops there.
pub proof fn lemma_fold_run_halt<S>(n: nat, m: nat, init: S, step: spec_fn(int, S) -> Run<S>)
    requires
        m <= n,
        !(fold_run(m, init, step) is Done),
    ensures
        fold_run(n, init, step) == fold_run(m, init, step),
    decreases n,
{
    if m < n {
        lemma_fold_run_halt((n - 1) as nat, m, init, step);
    }
}

/// Every step of a run that completes completes.
pub proof fn lemma_fold_run_done<S>(n: nat, m: nat, init: S, step: spec_fn(int, S) -> Run<S>)
    requires
        m < n,
        fold_run(n, init, step) is Done,
    ensures
        fold_run(m, init, step) is Done,
        step(m as int, fold_run(m, init, step)->Done_0) is Done,
{
    if !(fold_run(m, init, step) is Done) {
        lemma_fold_run_halt(n, m, init, step);
    }
    if !(fold_run((m + 1) as nat, init, step) is Done) {
        lemma_fold_run_halt(n, (m + 1) as nat, init, step);
    }
}

/// A property kept by every completed step holds of a completed run.
pub proof fn lemma_fold_run_keeps<S>(n: nat, init: S, step: spec_fn(int, S) -> Run<S>, inv: spec_fn(S) -> bool)
    requires
        inv(init),
        forall|i: int, x: S| 0 <= i < n && inv(x) && #[trigger] step(i, x) is Done ==> inv(step(i, x)->Done_0),
    ensures
        fold_run(n, init, step) is Done ==> inv(fold_run(n, init, step)->Done_0),
    decreases n,
{
    if n > 0 {
        lemma_fold_run_keeps((n - 1) as nat, init, step, inv);
    }
}

/// The sum of two loads, a panic on overflow.
pub open spec fn add_run(a: LoadVal, b: LoadVal) -> Run<LoadVal> {
    if in_i32(add_vals(a, b)) {
        Run::Done(add_vals(a, b))
    } else {
        Run::Panic
    }
}

/// The difference of two loads, a panic on overflow.
pub open spec fn sub_run(a: LoadVal, b: LoadVal) -> Run<LoadVal> {
    if in_i32(sub_vals(a, b)) {
        Run::Done(sub_vals(a, b))
    } else {
        Run::Panic
    }
}

/// The activity at stop `s`, position `a` of tour `t`.
pub open spec fn activity_at(ctx: CheckerContext, t: int, s: int, a: int) -> Activity {
    ctx.solution.tours@[t].stops@[s].activities@[a]
}

/// One activity of an interval's demand count: static deliveries add to the
/// load at the interval's start, static pickups to the pickups at its end.
pub open spec fn demand_step(
    ctx: CheckerContext,
    kinds: Seq<Vec<Vec<Result<ActivityType, String>>>>,
    t: int,
    s: int,
    a: int,
    acc: (LoadVal, LoadVal),
) -> Run<(LoadVal, LoadVal)> {
    match kinds[t]@[s]@[a] {
        Err(e) => Run::Fail(e@),
        Ok(kind) => match demand_spec(ctx, activity_at(ctx, t, s, a), kind) {
            Run::Done((demand_type, d)) => match demand_type {
                DemandType::StaticDelivery => match add_run(acc.0, d) {
                    Run::Done(x) => Run::Done((x, acc.1)),
                    Run::Fail(e) => Run::Fail(e),
                    Run::Panic => Run::Panic,
                },
                DemandType::StaticPickup => match add_run(acc.1, d) {
                    Run::Done(x) => Run::Done((acc.0, x)),
                    Run::Fail(e) => Run::Fail(e),
                    Run::Panic => Run::Panic,
                },
                DemandType::StaticPickupDelivery => match (add_run(acc.0, d), add_run(acc.1, d)) {
                    (Run::Done(x), Run::Done(y)) => Run::Done((x, y)),
                    _ => Run::Panic,
                },
                _ => Run::Done(acc),
            },
            Run::Fail(e) => Run::Fail(e),
            Run::Panic => Run::Panic,
        },
    }
}

/// The demand count over the activities of stop `s`.
pub open spec fn stop_demands(
    ctx: CheckerContext,
    kinds: Seq<Vec<Vec<Result<ActivityType, String>>>>,
    t: int,
    s: int,
    acc: (LoadVal, LoadVal),
) -> Run<(LoadVal, LoadVal)> {
    fold_run(ctx.solution.tours@[t].stops@[s].activities@.len(), acc, demand_steps(ctx, kinds, t, s))
}

/// The steps of a stop's demand count.
pub open spec fn demand_steps(ctx: CheckerContext, kinds: Seq<Vec<Vec<Result<ActivityType, String>>>>, t: int, s: int) -> spec_fn(int, (LoadVal, LoadVal)) -> Run<
    (LoadVal, LoadVal),
> {
    |a: int, x: (LoadVal, LoadVal)| demand_step(ctx, kinds, t, s, a, x)
}

/// The demand count over the activities of `m` stops from stop `lo`.
pub open spec fn range_demands(
    ctx: CheckerContext,
    kinds: Seq<Vec<Vec<Result<ActivityType, String>>>>,
    t: int,
    lo: int,
    m: nat,
    acc: (LoadVal, LoadVal),
) -> Run<(LoadVal, LoadVal)> {
    fold_run(m, acc, stop_steps(ctx, kinds, t, lo))
}

/// The steps of the demand count over stops from stop `lo`.
pub open spec fn stop_steps(ctx: CheckerContext, kinds: Seq<Vec<Vec<Result<ActivityType, String>>>>, t: int, lo: int) -> spec_fn(int, (LoadVal, LoadVal)) -> Run<
    (LoadVal, LoadVal),
> {
    |i: int, x: (LoadVal, LoadVal)| stop_demands(ctx, kinds, t, lo + i, x)
}

/// One activity of a stop's load change: deliveries, and the pickups of the
/// interval at an arrival or reload, leave the vehicle; pickups enter it.
pub open spec fn change_step(
    ctx: CheckerContext,
    kinds: Seq<Vec<Vec<Result<ActivityType, String>>>>,
    t: int,
    s: int,
    a: int,
    end_pickup: LoadVal,
    acc: LoadVal,
) -> Run<LoadVal> {
    let activity = activity_at(ctx, t, s, a);
    match kinds[t]@[s]@[a] {
        Err(e) => Run::Fail(e@),
        Ok(kind) => {
            let demand = if activity.activity_type@ == "arrival"@ || activity.activity_type@ == "reload"@ {
                Run::Done((DemandType::StaticDelivery, end_pickup))
            } else {
                demand_spec(ctx, activity, kind)
            };
            match demand {
                Run::Done((demand_type, d)) => match demand_type {
                    DemandType::StaticDelivery | DemandType::DynamicDelivery => sub_run(acc, d),
                    DemandType::StaticPickup | DemandType::DynamicPickup => add_run(acc, d),
                    _ => Run::Done(acc),
                },
                Run::Fail(e) => Run::Fail(e),
                Run::Panic => Run::Panic,
            }
        },
    }
}

/// The load change over the activities of stop `s`.
pub open spec fn stop_change(
    ctx: CheckerContext,
    kinds: Seq<Vec<Vec<Result<ActivityType, String>>>>,
    t: int,
    s: int,
    end_pickup: LoadVal,
) -> Run<LoadVal> {
    fold_run(ctx.solution.tours@[t].stops@[s].activities@.len(), zero_load(), change_steps(ctx, kinds, t, s, end_pickup))
}

/// The steps of a stop's load change.
pub open spec fn change_steps(ctx: CheckerContext, kinds: Seq<Vec<Vec<Result<ActivityType, String>>>>, t: int, s: int, end_pickup: LoadVal) -> spec_fn(int, LoadVal) -> Run<
    LoadVal,
> {
    |a: int, x: LoadVal| change_step(ctx, kinds, t, s, a, end_pickup, x)
}

/// Message for a load above the vehicle's capacity.
pub open spec fn capacity_exceeded_msg(id: Seq<char>) -> Seq<char> {
    "load exceeds capacity in tour '"@ + id + "'"@
}

/// Message for a load that does not match the demands, at the leg from stop `idx`.
pub open spec fn load_mismatch_msg(from_valid: bool, to_valid: bool, idx: nat, id: Seq<char>) -> Seq<char> {
    let place = if from_valid && !to_valid {
        "at stop "@ + decimal(idx + 1)
    } else if !from_valid && to_valid {
        "at stop "@ + decimal(idx)
    } else {
        "at stops "@ + decimal(idx) + ", "@ + decimal(idx + 1)
    };
    "load mismatch "@ + place + " in tour '"@ + id + "'"@
}

/// The leg from stop `idx`: both stop loads fit the capacity, the load leaving
/// the first stop is the expected one `acc`, and the load leaving the next stop
/// is that load changed by the next stop's demands; gives the next stop's load.
pub open spec fn leg_step(
    ctx: CheckerContext,
    kinds: Seq<Vec<Vec<Result<ActivityType, String>>>>,
    t: int,
    capacity: LoadVal,
    end_pickup: LoadVal,
    idx: int,
    acc: LoadVal,
) -> Run<LoadVal> {
    let tour = ctx.solution.tours@[t];
    let from = tour.stops@[idx];
    let to = tour.stops@[idx + 1];
    if from.load.len() > 8 || to.load.len() > 8 {
        Run::Panic
    } else {
        let from_load = load_from(from.load@);
        let to_load = load_from(to.load@);
        if !fits_into(capacity, from_load) || !fits_into(capacity, to_load) {
            Run::Fail(capacity_exceeded_msg(tour.vehicle_id@))
        } else {
            match stop_change(ctx, kinds, t, idx + 1, end_pickup) {
                Run::Done(change) => match add_run(from_load, change) {
                    Run::Done(expected) => {
                        let from_valid = same_load(from_load, acc);
                        let to_valid = same_load(to_load, expected);
                        if from_valid && to_valid {
                            Run::Done(to_load)
                        } else {
                            Run::Fail(load_mismatch_msg(from_valid, to_valid, idx as nat, tour.vehicle_id@))
                        }
                    },
                    Run::Fail(e) => Run::Fail(e),
                    Run::Panic => Run::Panic,
                },
                Run::Fail(e) => Run::Fail(e),
                Run::Panic => Run::Panic,
            }
        }
    }
}

/// The legs of an interval, from leg `start`, `m` of them.
pub open spec fn legs_run(
    ctx: CheckerContext,
    kinds: Seq<Vec<Vec<Result<ActivityType, String>>>>,
    t: int,
    capacity: LoadVal,
    end_pickup: LoadVal,
    start: int,
    m: nat,
    acc: LoadVal,
) -> Run<LoadVal> {
    fold_run(m, acc, leg_steps(ctx, kinds, t, capacity, end_pickup, start))
}

/// The steps over the legs from leg `start`.
pub open spec fn leg_steps(
    ctx: CheckerContext,
    kinds: Seq<Vec<Vec<Result<ActivityType, String>>>>,
    t: int,
    capacity: LoadVal,
    end_pickup: LoadVal,
    start: int,
) -> spec_fn(int, LoadVal) -> Run<LoadVal> {
    |i: int, x: LoadVal| leg_step(ctx, kinds, t, capacity, end_pickup, start + i, x)
}

/// An interval of legs `(start, end)`, entered with load `acc`: counts its
/// demands, checks its legs, and gives the load left after its pickups.
pub open spec fn interval_run(
    ctx: CheckerContext,
    kinds: Seq<Vec<Vec<Result<ActivityType, String>>>>,
    t: int,
    capacity: LoadVal,
    bound: (int, int),
    acc: LoadVal,
) -> Run<LoadVal> {
    let (start, end) = bound;
    match range_demands(ctx, kinds, t, start, (end - start + 2) as nat, (acc, zero_load())) {
        Run::Done((start_delivery, end_pickup)) => match legs_run(
            ctx,
            kinds,
            t,
            capacity,
            end_pickup,
            start,
            (end - start + 1) as nat,
            start_delivery,
        ) {
            Run::Done(end_capacity) => sub_run(end_capacity, end_pickup),
            Run::Fail(e) => Run::Fail(e),
            Run::Panic => Run::Panic,
        },
        Run::Fail(e) => Run::Fail(e),
        Run::Panic => Run::Panic,
    }
}

/// The load rule for tour `t`.
pub open spec fn tour_load_run(ctx: CheckerContext, kinds: Seq<Vec<Vec<Result<ActivityType, String>>>>, t: int) -> Run<()> {
    let tour = ctx.solution.tours@[t];
    let vehicles = ctx.problem.fleet.vehicles@;
    match vehicle_index(vehicles, tour.vehicle_id@) {
        None => Run::Fail(unknown_vehicle_msg(tour.vehicle_id@)),
        Some(v) => {
            let values = vehicles[v].capacity@;
            if values.len() > 8 {
                Run::Panic
            } else {
                match tour_intervals(tour.stops@) {
                    Run::Done(bounds) => match fold_run(
                        bounds.len(),
                        zero_load(),
                        interval_steps(ctx, kinds, t, load_from(values), bounds),
                    ) {
                        Run::Done(_) => Run::Done(()),
                        Run::Fail(e) => Run::Fail(e),
                        Run::Panic => Run::Panic,
                    },
                    Run::Fail(e) => Run::Fail(e),
                    Run::Panic => Run::Panic,
                }
            }
        },
    }
}

/// The steps over the intervals of a tour.
pub open spec fn interval_steps(
    ctx: CheckerContext,
    kinds: Seq<Vec<Vec<Result<ActivityType, String>>>>,
    t: int,
    capacity: LoadVal,
    bounds: Seq<(int, int)>,
) -> spec_fn(int, LoadVal) -> Run<LoadVal> {
    |k: int, x: LoadVal| interval_run(ctx, kinds, t, capacity, bounds[k], x)
}

/// The load rule over all tours, stopping at the first failing tour.
pub open spec fn load_assignment_run(ctx: CheckerContext, kinds: Seq<Vec<Vec<Result<ActivityType, String>>>>) -> Run<()> {
    fold_run(ctx.solution.tours.len() as nat, (), tour_steps(ctx, kinds))
}

/// The steps over the tours.
pub open spec fn tour_steps(ctx: CheckerContext, kinds: Seq<Vec<Vec<Result<ActivityType, String>>>>) -> spec_fn(int, ()) -> Run<()> {
    |t: int, x: ()| tour_load_run(ctx, kinds, t)
}

// endregion


// region Load checks

/// Whether the table holds one entry per activity of each tour.
pub open spec fn kinds_fit(tours: Seq<Tour>, kinds: Seq<Vec<Vec<Result<ActivityType, String>>>>) -> bool {
    &&& kinds.len() == tours.len()
    &&& forall|t: int| 0 <= t < tours.len() ==> (#[trigger] kinds[t])@.len() == tours[t].stops@.len()
    &&& forall|t: int, s: int|
        0 <= t < tours.len() && 0 <= s < tours[t].stops@.len() ==> (#[trigger] kinds[t]@[s])@.len()
            == tours[t].stops@[s].activities@.len()
}

/// The sum of two loads, `None` when a dimension leaves `i32`.
fn add_loads(a: MultiDimensionalCapacity, b: MultiDimensionalCapacity) -> (sum: Option<MultiDimensionalCapacity>)
    requires
        a.size <= 8,
        b.size <= 8,
    ensures
        match sum {
            Some(x) => in_i32(add_vals(lv(a), lv(b))) && lv(x) == add_vals(lv(a), lv(b)) && x.size <= 8,
            None => !in_i32(add_vals(lv(a), lv(b))),
        },
{
    let mut idx: usize = 0;
    while idx < 8
        invariant
            idx <= 8,
            forall|i: int| 0 <= i < idx ==> i32::MIN <= #[trigger] add_vals(lv(a), lv(b)).dims[i] <= i32::MAX,
        decreases 8 - idx,
    {
        let value = a.capacity[idx] as i64 + b.capacity[idx] as i64;
        if value < i32::MIN as i64 || value > i32::MAX as i64 {
            proof {
                assert(add_vals(lv(a), lv(b)).dims[idx as int] == value);
            }
            return None;
        }
        idx = idx + 1;
    }
    proof {
        lemma_lv_add(a, b);
    }
    Some(a + b)
}

/// The difference of two loads, `None` when a dimension leaves `i32`.
fn sub_loads(a: MultiDimensionalCapacity, b: MultiDimensionalCapacity) -> (difference: Option<MultiDimensionalCapacity>)
    requires
        a.size <= 8,
        b.size <= 8,
    ensures
        match difference {
            Some(x) => in_i32(sub_vals(lv(a), lv(b))) && lv(x) == sub_vals(lv(a), lv(b)) && x.size <= 8,
            None => !in_i32(sub_vals(lv(a), lv(b))),
        },
{
    let mut idx: usize = 0;
    while idx < 8
        invariant
            idx <= 8,
            forall|i: int| 0 <= i < idx ==> i32::MIN <= #[trigger] sub_vals(lv(a), lv(b)).dims[i] <= i32::MAX,
        decreases 8 - idx,
    {
        let value = a.capacity[idx] as i64 - b.capacity[idx] as i64;
        if value < i32::MIN as i64 || value > i32::MAX as i64 {
            proof {
                assert(sub_vals(lv(a), lv(b)).dims[idx as int] == value);
            }
            return None;
        }
        idx = idx + 1;
    }
    proof {
        lemma_lv_sub(a, b);
    }
    Some(a - b)
}

/// Whether a load fits into a capacity.
pub fn load_fits(capacity: &MultiDimensionalCapacity, load: &MultiDimensionalCapacity) -> (fits: bool)
    ensures
        fits == fits_into(lv(*capacity), lv(*load)),
{
    let mut idx: usize = 0;
    while idx < 8
        invariant
            idx <= 8,
            forall|i: int| 0 <= i < idx ==> lv(*capacity).dims[i] >= #[trigger] lv(*load).dims[i],
        decreases 8 - idx,
    {
        if capacity.capacity[idx] < load.capacity[idx] {
            proof {
                assert(lv(*capacity).dims[idx as int] < lv(*load).dims[idx as int]);
            }
            return false;
        }
        idx = idx + 1;
    }
    true
}

/// Whether two loads are equal.
pub fn loads_equal(a: &MultiDimensionalCapacity, b: &MultiDimensionalCapacity) -> (equal: bool)
    requires
        a.size <= 8,
        b.size <= 8,
    ensures
        equal == same_load(lv(*a), lv(*b)),
{
    let size = if a.size >= b.size {
        a.size
    } else {
        b.size
    };
    if size == 0 {
        return false;
    }
    let mut idx: usize = 0;
    while idx < size
        invariant
            idx <= size <= 8,
            size == max_nat(a.size as nat, b.size as nat),
            forall|i: int| 0 <= i < idx ==> #[trigger] lv(*a).dims[i] == lv(*b).dims[i],
        decreases size - idx,
    {
        if a.capacity[idx] != b.capacity[idx] {
            proof {
                assert(lv(*a).dims[idx as int] != lv(*b).dims[idx as int]);
            }
            return false;
        }
        idx = idx + 1;
    }
    true
}

/// Whether a load exceeds another.
pub fn load_exceeds(a: &MultiDimensionalCapacity, b: &MultiDimensionalCapacity) -> (greater: bool)
    requires
        a.size <= 8,
        b.size <= 8,
    ensures
        greater == exceeds(lv(*a), lv(*b)),
{
    let size = if a.size >= b.size {
        a.size
    } else {
        b.size
    };
    if size == 0 {
        return false;
    }
    let mut idx: usize = 0;
    while idx < size
        invariant
            idx <= size <= 8,
            size == max_nat(a.size as nat, b.size as nat),
            forall|i: int| 0 <= i < idx ==> #[trigger] lv(*a).dims[i] > lv(*b).dims[i],
        decreases size - idx,
    {
        if a.capacity[idx] <= b.capacity[idx] {
            proof {
                assert(!(lv(*a).dims[idx as int] > lv(*b).dims[idx as int]));
            }
            return false;
        }
        idx = idx + 1;
    }
    true
}

/// Counts the demands of the activities of the stops from `start` to `end + 1`.
fn interval_demands(
    ctx: &CheckerContext,
    index: &IndexMap,
    kinds: &Vec<Vec<Vec<Result<ActivityType, String>>>>,
    t: usize,
    start: usize,
    end: usize,
    acc: MultiDimensionalCapacity,
) -> (result: Result<(MultiDimensionalCapacity, MultiDimensionalCapacity), Halt>)
    requires
        t < ctx.solution.tours.len(),
        start <= end,
        end + 1 < ctx.solution.tours@[t as int].stops.len(),
        kinds_fit(ctx.solution.tours@, kinds@),
        index_map_entries(*index) == job_id_index(ctx.problem.plan.jobs@),
        acc.size <= 8,
    ensures
        match result {
            Ok((x, y)) => range_demands(*ctx, kinds@, t as int, start as int, (end - start + 2) as nat, (lv(acc), zero_load()))
                == Run::Done((lv(x), lv(y))) && x.size <= 8 && y.size <= 8,
            Err(h) => halted(
                range_demands(*ctx, kinds@, t as int, start as int, (end - start + 2) as nat, (lv(acc), zero_load())),
                h,
            ),
        },
{
    let tour = &ctx.solution.tours[t];
    let ghost init = (lv(acc), zero_load());
    let ghost total = (end - start + 2) as nat;
    let ghost outer = stop_steps(*ctx, kinds@, t as int, start as int);
    let mut x = acc;
    let mut y = empty_load();
    let mut s: usize = start;
    while s <= end + 1
        invariant
            start <= s <= end + 2,
            t < ctx.solution.tours.len(),
            tour == &ctx.solution.tours@[t as int],
            end + 1 < tour.stops.len(),
            kinds_fit(ctx.solution.tours@, kinds@),
            index_map_entries(*index) == job_id_index(ctx.problem.plan.jobs@),
            total == end - start + 2,
            init == (lv(acc), zero_load()),
            outer == stop_steps(*ctx, kinds@, t as int, start as int),
            fold_run((s - start) as nat, init, outer) == Run::Done((lv(x), lv(y))),
            x.size <= 8,
            y.size <= 8,
        decreases end + 2 - s,
    {
        let stop = &tour.stops[s];
        let ghost inner = demand_steps(*ctx, kinds@, t as int, s as int);
        let ghost stop_init = (lv(x), lv(y));
        proof {
            assert(fold_run((s - start + 1) as nat, init, outer) == stop_demands(*ctx, kinds@, t as int, s as int, stop_init));
        }
        let mut a: usize = 0;
        while a < stop.activities.len()
            invariant
                a <= stop.activities.len(),
                s < tour.stops.len(),
                t < ctx.solution.tours.len(),
                tour == &ctx.solution.tours@[t as int],
                stop == &tour.stops@[s as int],
                kinds_fit(ctx.solution.tours@, kinds@),
                index_map_entries(*index) == job_id_index(ctx.problem.plan.jobs@),
                inner == demand_steps(*ctx, kinds@, t as int, s as int),
                start <= s <= end + 1,
                total == end - start + 2,
                init == (lv(acc), zero_load()),
                outer == stop_steps(*ctx, kinds@, t as int, start as int),
                fold_run((s - start + 1) as nat, init, outer) == fold_run(stop.activities@.len(), stop_init, inner),
                fold_run(a as nat, stop_init, inner) == Run::Done((lv(x), lv(y))),
                x.size <= 8,
                y.size <= 8,
            decreases stop.activities.len() - a,
        {
            let activity = &stop.activities[a];
            let ghost step = demand_step(*ctx, kinds@, t as int, s as int, a as int, (lv(x), lv(y)));
            let mut halt: Option<Halt> = None;
            match &kinds[t][s][a] {
                Err(e) => {
                    halt = Some(Halt::Error(e.clone()));
                },
                Ok(kind) => {
                    match get_demand(ctx, index, activity, kind) {
                        Err(h) => {
                            halt = Some(h);
                        },
                        Ok((demand_type, d)) => {
                            match demand_type {
                                DemandType::StaticDelivery => match add_loads(x, d) {
                                    Some(next) => {
                                        x = next;
                                    },
                                    None => {
                                        halt = Some(Halt::Abort);
                                    },
                                },
                                DemandType::StaticPickup => match add_loads(y, d) {
                                    Some(next) => {
                                        y = next;
                                    },
                                    None => {
                                        halt = Some(Halt::Abort);
                                    },
                                },
                                DemandType::StaticPickupDelivery => match (add_loads(x, d), add_loads(y, d)) {
                                    (Some(next_x), Some(next_y)) => {
                                        x = next_x;
                                        y = next_y;
                                    },
                                    _ => {
                                        halt = Some(Halt::Abort);
                                    },
                                },
                                _ => {},
                            }
                        },
                    }
                },
            }
            match halt {
                Some(h) => {
                    proof {
                        assert(halted(step, h));
                        assert(halted(fold_run((a + 1) as nat, stop_init, inner), h));
                        lemma_fold_run_halt(stop.activities@.len(), (a + 1) as nat, stop_init, inner);
                        lemma_fold_run_halt(total, (s - start + 1) as nat, init, outer);
                    }
                    return Err(h);
                },
                None => {},
            }
            a = a + 1;
        }
        s = s + 1;
    }
    Ok((x, y))
}

/// The load change over the activities of stop `s` of tour `t`.
fn stop_load_change(
    ctx: &CheckerContext,
    index: &IndexMap,
    kinds: &Vec<Vec<Vec<Result<ActivityType, String>>>>,
    t: usize,
    s: usize,
    end_pickup: &MultiDimensionalCapacity,
) -> (result: Result<MultiDimensionalCapacity, Halt>)
    requires
        t < ctx.solution.tours.len(),
        s < ctx.solution.tours@[t as int].stops.len(),
        kinds_fit(ctx.solution.tours@, kinds@),
        index_map_entries(*index) == job_id_index(ctx.problem.plan.jobs@),
        end_pickup.size <= 8,
    ensures
        match result {
            Ok(x) => stop_change(*ctx, kinds@, t as int, s as int, lv(*end_pickup)) == Run::Done(lv(x)) && x.size <= 8,
            Err(h) => halted(stop_change(*ctx, kinds@, t as int, s as int, lv(*end_pickup)), h),
        },
{
    let stop = &ctx.solution.tours[t].stops[s];
    let ghost steps = change_steps(*ctx, kinds@, t as int, s as int, lv(*end_pickup));
    let mut acc = empty_load();
    let mut a: usize = 0;
    while a < stop.activities.len()
        invariant
            a <= stop.activities.len(),
            t < ctx.solution.tours.len(),
            s < ctx.solution.tours@[t as int].stops.len(),
            stop == &ctx.solution.tours@[t as int].stops@[s as int],
            kinds_fit(ctx.solution.tours@, kinds@),
            index_map_entries(*index) == job_id_index(ctx.problem.plan.jobs@),
            end_pickup.size <= 8,
            steps == change_steps(*ctx, kinds@, t as int, s as int, lv(*end_pickup)),
            fold_run(a as nat, zero_load(), steps) == Run::Done(lv(acc)),
            acc.size <= 8,
        decreases stop.activities.len() - a,
    {
        let activity = &stop.activities[a];
        let ghost step = change_step(*ctx, kinds@, t as int, s as int, a as int, lv(*end_pickup), lv(acc));
        let mut halt: Option<Halt> = None;
        match &kinds[t][s][a] {
            Err(e) => {
                halt = Some(Halt::Error(e.clone()));
            },
            Ok(kind) => {
                let kind_name = activity.activity_type.as_str();
                let demand = if str_equal(kind_name, "arrival") || str_equal(kind_name, "reload") {
                    Ok((DemandType::StaticDelivery, *end_pickup))
                } else {
                    get_demand(ctx, index, activity, kind)
                };
                match demand {
                    Err(h) => {
                        halt = Some(h);
                    },
                    Ok((demand_type, d)) => {
                        let changed = match demand_type {
                            DemandType::StaticDelivery | DemandType::DynamicDelivery => sub_loads(acc, d),
                            DemandType::StaticPickup | DemandType::DynamicPickup => add_loads(acc, d),
                            _ => Some(acc),
                        };
                        match changed {
                            Some(next) => {
                                acc = next;
                            },
                            None => {
                                halt = Some(Halt::Abort);
                            },
                        }
                    },
                }
            },
        }
        match halt {
            Some(h) => {
                proof {
                    assert(halted(step, h));
                    assert(halted(fold_run((a + 1) as nat, zero_load(), steps), h));
                    lemma_fold_run_halt(stop.activities@.len(), (a + 1) as nat, zero_load(), steps);
                }
                return Err(h);
            },
            None => {},
        }
        a = a + 1;
    }
    Ok(acc)
}

/// The message for a load mismatch at the leg from stop `idx`.
fn mismatch_message(from_valid: bool, to_valid: bool, idx: usize, vehicle_id: &str) -> (message: String)
    requires
        idx < usize::MAX,
    ensures
        message@ == load_mismatch_msg(from_valid, to_valid, idx as nat, vehicle_id@),
{
    let mut message = String::from_str("load mismatch ");
    if from_valid && !to_valid {
        message.append("at stop ");
        message.append(usize_to_string(idx + 1).as_str());
    } else if !from_valid && to_valid {
        message.append("at stop ");
        message.append(usize_to_string(idx).as_str());
    } else {
        message.append("at stops ");
        message.append(usize_to_string(idx).as_str());
        message.append(", ");
        message.append(usize_to_string(idx + 1).as_str());
    }
    message.append(" in tour '");
    message.append(vehicle_id);
    message.append("'");
    message
}

/// Checks the leg from stop `idx` of tour `t`, entered with the expected load `acc`.
fn check_leg(
    ctx: &CheckerContext,
    index: &IndexMap,
    kinds: &Vec<Vec<Vec<Result<ActivityType, String>>>>,
    t: usize,
    capacity: &MultiDimensionalCapacity,
    end_pickup: &MultiDimensionalCapacity,
    idx: usize,
    acc: MultiDimensionalCapacity,
) -> (result: Result<MultiDimensionalCapacity, Halt>)
    requires
        t < ctx.solution.tours.len(),
        idx + 1 < ctx.solution.tours@[t as int].stops.len(),
        kinds_fit(ctx.solution.tours@, kinds@),
        index_map_entries(*index) == job_id_index(ctx.problem.plan.jobs@),
        end_pickup.size <= 8,
        acc.size <= 8,
    ensures
        match result {
            Ok(x) => leg_step(*ctx, kinds@, t as int, lv(*capacity), lv(*end_pickup), idx as int, lv(acc)) == Run::Done(
                lv(x),
            ) && x.size <= 8,
            Err(h) => halted(leg_step(*ctx, kinds@, t as int, lv(*capacity), lv(*end_pickup), idx as int, lv(acc)), h),
        },
{
    let tour = &ctx.solution.tours[t];
    let from = &tour.stops[idx];
    let to = &tour.stops[idx + 1];
    if from.load.len() > 8 || to.load.len() > 8 {
        return Err(Halt::Abort);
    }
    let from_load = load_of(&from.load);
    let to_load = load_of(&to.load);
    if !load_fits(capacity, &from_load) || !load_fits(capacity, &to_load) {
        let mut message = String::from_str("load exceeds capacity in tour '");
        message.append(tour.vehicle_id.as_str());
        message.append("'");
        return Err(Halt::Error(message));
    }
    let change = stop_load_change(ctx, index, kinds, t, idx + 1, end_pickup)?;
    let from_valid = loads_equal(&from_load, &acc);
    let expected = match add_loads(from_load, change) {
        Some(expected) => expected,
        None => return Err(Halt::Abort),
    };
    let to_valid = loads_equal(&to_load, &expected);
    if from_valid && to_valid {
        Ok(to_load)
    } else {
        Err(Halt::Error(mismatch_message(from_valid, to_valid, idx, tour.vehicle_id.as_str())))
    }
}

/// Checks the interval of legs `(start, end)` of tour `t`, entered with load `acc`;
/// gives the load left after the interval's pickups.
fn check_interval(
    ctx: &CheckerContext,
    index: &IndexMap,
    kinds: &Vec<Vec<Vec<Result<ActivityType, String>>>>,
    t: usize,
    capacity: &MultiDimensionalCapacity,
    start: usize,
    end: usize,
    acc: MultiDimensionalCapacity,
) -> (result: Result<MultiDimensionalCapacity, Halt>)
    requires
        t < ctx.solution.tours.len(),
        start <= end,
        end + 1 < ctx.solution.tours@[t as int].stops.len(),
        kinds_fit(ctx.solution.tours@, kinds@),
        index_map_entries(*index) == job_id_index(ctx.problem.plan.jobs@),
        acc.size <= 8,
    ensures
        match result {
            Ok(x) => interval_run(*ctx, kinds@, t as int, lv(*capacity), (start as int, end as int), lv(acc)) == Run::Done(
                lv(x),
            ) && x.size <= 8,
            Err(h) => halted(interval_run(*ctx, kinds@, t as int, lv(*capacity), (start as int, end as int), lv(acc)), h),
        },
{
    let (start_delivery, end_pickup) = interval_demands(ctx, index, kinds, t, start, end, acc)?;
    let ghost legs = (end - start + 1) as nat;
    let ghost steps = leg_steps(*ctx, kinds@, t as int, lv(*capacity), lv(end_pickup), start as int);
    let mut x = start_delivery;
    let mut i: usize = start;
    while i <= end
        invariant
            start <= i <= end + 1,
            t < ctx.solution.tours.len(),
            end + 1 < ctx.solution.tours@[t as int].stops.len(),
            kinds_fit(ctx.solution.tours@, kinds@),
            index_map_entries(*index) == job_id_index(ctx.problem.plan.jobs@),
            end_pickup.size <= 8,
            x.size <= 8,
            legs == end - start + 1,
            range_demands(*ctx, kinds@, t as int, start as int, (end - start + 2) as nat, (lv(acc), zero_load()))
                == Run::Done((lv(start_delivery), lv(end_pickup))),
            steps == leg_steps(*ctx, kinds@, t as int, lv(*capacity), lv(end_pickup), start as int),
            fold_run((i - start) as nat, lv(start_delivery), steps) == Run::Done(lv(x)),
            fold_run(legs, lv(start_delivery), steps) == legs_run(
                *ctx,
                kinds@,
                t as int,
                lv(*capacity),
                lv(end_pickup),
                start as int,
                legs,
                lv(start_delivery),
            ),
        decreases end + 1 - i,
    {
        match check_leg(ctx, index, kinds, t, capacity, &end_pickup, i, x) {
            Ok(next) => {
                x = next;
            },
            Err(h) => {
                proof {
                    lemma_fold_run_halt(legs, (i - start + 1) as nat, lv(start_delivery), steps);
                }
                return Err(h);
            },
        }
        i = i + 1;
    }
    match sub_loads(x, end_pickup) {
        Some(left) => Ok(left),
        None => Err(Halt::Abort),
    }
}

/// Checks the loads of tour `t`.
fn check_tour_load(
    ctx: &CheckerContext,
    index: &IndexMap,
    kinds: &Vec<Vec<Vec<Result<ActivityType, String>>>>,
    t: usize,
) -> (result: Result<(), Halt>)
    requires
        t < ctx.solution.tours.len(),
        kinds_fit(ctx.solution.tours@, kinds@),
        index_map_entries(*index) == job_id_index(ctx.problem.plan.jobs@),
    ensures
        match result {
            Ok(_) => tour_load_run(*ctx, kinds@, t as int) == Run::Done(()),
            Err(h) => halted(tour_load_run(*ctx, kinds@, t as int), h),
        },
{
    let tour = &ctx.solution.tours[t];
    let vehicle = match ctx.get_vehicle(tour.vehicle_id.as_str()) {
        Ok(vehicle) => vehicle,
        Err(e) => return Err(Halt::Error(e)),
    };
    if vehicle.capacity.len() > 8 {
        return Err(Halt::Abort);
    }
    let capacity = load_of(&vehicle.capacity);
    let intervals = match get_intervals(tour) {
        Some(intervals) => intervals,
        None => return Err(Halt::Abort),
    };
    let ghost bounds = tour_intervals(tour.stops@)->Done_0;
    let ghost steps = interval_steps(*ctx, kinds@, t as int, lv(capacity), bounds);
    proof {
        lemma_interval_bounds(tour.stops@, leg_count(tour.stops@) as nat);
    }
    let mut acc = empty_load();
    let mut k: usize = 0;
    let ghost outcome = match fold_run(bounds.len(), zero_load(), steps) {
        Run::Done(_) => Run::Done(()),
        Run::Fail(e) => Run::Fail(e),
        Run::Panic => Run::<()>::Panic,
    };
    assert(tour_load_run(*ctx, kinds@, t as int) == outcome);
    while k < intervals.len()
        invariant
            tour_load_run(*ctx, kinds@, t as int) == outcome,
            outcome == match fold_run(bounds.len(), zero_load(), steps) {
                Run::Done(_) => Run::Done(()),
                Run::Fail(e) => Run::Fail(e),
                Run::Panic => Run::<()>::Panic,
            },
            k <= intervals.len() == bounds.len(),
            t < ctx.solution.tours.len(),
            tour == &ctx.solution.tours@[t as int],
            kinds_fit(ctx.solution.tours@, kinds@),
            index_map_entries(*index) == job_id_index(ctx.problem.plan.jobs@),
            forall|j: int| 0 <= j < bounds.len() ==> (#[trigger] intervals@[j]).0 == bounds[j].0 && intervals@[j].1
                == bounds[j].1,
            forall|j: int| 0 <= j < bounds.len() ==> 0 <= (#[trigger] bounds[j]).0 <= bounds[j].1 < leg_count(tour.stops@),
            steps == interval_steps(*ctx, kinds@, t as int, lv(capacity), bounds),
            fold_run(k as nat, zero_load(), steps) == Run::Done(lv(acc)),
            acc.size <= 8,
        decreases intervals.len() - k,
    {
        let (start, end) = intervals[k];
        match check_interval(ctx, index, kinds, t, &capacity, start, end, acc) {
            Ok(next) => {
                acc = next;
            },
            Err(h) => {
                proof {
                    lemma_fold_run_halt(bounds.len(), (k + 1) as nat, zero_load(), steps);
                }
                return Err(h);
            },
        }
        k = k + 1;
    }
    Ok(())
}

/// The vehicle's capacity is respected and loads change by the demands served:
/// when the load check passes, the loads of both stops of every leg of every
/// interval of every tour fit into the capacity of the tour's vehicle, and the
/// load leaving the leg's second stop is the load leaving its first changed by
/// the demands of the second stop (where the interval's pickups leave at a
/// reload or arrival).
pub proof fn lemma_passing_loads_fit_capacity(
    ctx: CheckerContext,
    kinds: Seq<Vec<Vec<Result<ActivityType, String>>>>,
    t: int,
    k: int,
    i: int,
)
    requires
        load_assignment_run(ctx, kinds) == Run::Done(()),
        0 <= t < ctx.solution.tours.len(),
        tour_intervals(ctx.solution.tours@[t].stops@) is Done,
        0 <= k < tour_intervals(ctx.solution.tours@[t].stops@)->Done_0.len(),
        tour_intervals(ctx.solution.tours@[t].stops@)->Done_0[k].0 <= i <= tour_intervals(
            ctx.solution.tours@[t].stops@,
        )->Done_0[k].1,
    ensures
        vehicle_index(ctx.problem.fleet.vehicles@, ctx.solution.tours@[t].vehicle_id@) is Some,
        ({
            let vehicle = ctx.problem.fleet.vehicles@[vehicle_index(
                ctx.problem.fleet.vehicles@,
                ctx.solution.tours@[t].vehicle_id@,
            )->Some_0];
            let stops = ctx.solution.tours@[t].stops@;
            &&& fits_into(load_from(vehicle.capacity@), load_from(stops[i].load@))
            &&& fits_into(load_from(vehicle.capacity@), load_from(stops[i + 1].load@))
        }),
        exists|end_pickup: LoadVal|
            #[trigger] stop_change(ctx, kinds, t, i + 1, end_pickup) matches Run::Done(change) && same_load(
                load_from(ctx.solution.tours@[t].stops@[i + 1].load@),
                add_vals(load_from(ctx.solution.tours@[t].stops@[i].load@), change),
            ),
{
    let tour = ctx.solution.tours@[t];
    lemma_fold_run_done(ctx.solution.tours.len() as nat, t as nat, (), tour_steps(ctx, kinds));
    assert(tour_load_run(ctx, kinds, t) is Done);
    let v = vehicle_index(ctx.problem.fleet.vehicles@, tour.vehicle_id@)->Some_0;
    let capacity = load_from(ctx.problem.fleet.vehicles@[v].capacity@);
    let bounds = tour_intervals(tour.stops@)->Done_0;
    let steps = interval_steps(ctx, kinds, t, capacity, bounds);
    lemma_fold_run_done(bounds.len(), k as nat, zero_load(), steps);
    let entry = fold_run(k as nat, zero_load(), steps)->Done_0;
    assert(interval_run(ctx, kinds, t, capacity, bounds[k], entry) is Done);
    let (start, end) = bounds[k];
    let demands = range_demands(ctx, kinds, t, start, (end - start + 2) as nat, (entry, zero_load()));
    assert(demands is Done);
    let (start_delivery, end_pickup) = demands->Done_0;
    let legs = leg_steps(ctx, kinds, t, capacity, end_pickup, start);
    assert(legs_run(ctx, kinds, t, capacity, end_pickup, start, (end - start + 1) as nat, start_delivery) is Done);
    lemma_fold_run_done((end - start + 1) as nat, (i - start) as nat, start_delivery, legs);
    let before = fold_run((i - start) as nat, start_delivery, legs)->Done_0;
    assert(leg_step(ctx, kinds, t, capacity, end_pickup, i, before) is Done);
    assert(stop_change(ctx, kinds, t, i + 1, end_pickup) is Done);
}

/// The load rule over all tours: `Ok` or the error of the first failing tour.
pub open spec fn load_assignment_outcome(ctx: CheckerContext, kinds: Seq<Vec<Vec<Result<ActivityType, String>>>>) -> Result<
    (),
    Seq<char>,
> {
    match load_assignment_run(ctx, kinds) {
        Run::Fail(e) => Err(e),
        _ => Ok(()),
    }
}

/// Checks the vehicle loads of every tour: the capacity is respected and loads
/// change by the demands served at each stop. `kinds` holds the type of each
/// activity, tour by tour, stop by stop, or why it could not be found.
pub fn check_vehicle_load_assignment(ctx: &CheckerContext, kinds: &Vec<Vec<Vec<Result<ActivityType, String>>>>) -> (result:
    Result<(), Halt>)
    requires
        kinds_fit(ctx.solution.tours@, kinds@),
    ensures
        match result {
            Ok(_) => load_assignment_run(*ctx, kinds@) == Run::Done(()),
            Err(h) => halted(load_assignment_run(*ctx, kinds@), h),
        },
{
    let index = job_ids_index(&ctx.problem.plan.jobs);
    let tours = &ctx.solution.tours;
    let ghost steps = tour_steps(*ctx, kinds@);
    let mut t: usize = 0;
    while t < tours.len()
        invariant
            t <= tours.len(),
            tours == &ctx.solution.tours,
            kinds_fit(ctx.solution.tours@, kinds@),
            index_map_entries(index) == job_id_index(ctx.problem.plan.jobs@),
            steps == tour_steps(*ctx, kinds@),
            fold_run(t as nat, (), steps) == Run::Done(()),
        decreases tours.len() - t,
    {
        match check_tour_load(ctx, &index, kinds, t) {
            Ok(_) => {},
            Err(h) => {
                proof {
                    lemma_fold_run_halt(tours.len() as nat, (t + 1) as nat, (), steps);
                }
                return Err(h);
            },
        }
        t = t + 1;
    }
    Ok(())
}
// endregion


// region Resource rules

/// The capacities of the shared resources, the last of the same id winning; a
/// panic for a capacity of more than eight dimensions.
pub open spec fn resource_capacities(resources: Seq<VehicleResource>) -> Run<Map<Seq<char>, LoadVal>>
    decreases resources.len(),
{
    if resources.len() == 0 {
        Run::Done(Map::empty())
    } else {
        match resource_capacities(resources.drop_last()) {
            Run::Done(caps) => match resources.last() {
                VehicleResource::Reload { id, capacity } => if capacity.len() > 8 {
                    Run::Panic
                } else {
                    Run::Done(caps.insert(id@, load_from(capacity@)))
                },
            },
            other => other,
        }
    }
}

/// The resources of the fleet.
pub open spec fn fleet_resources(ctx: CheckerContext) -> Seq<VehicleResource> {
    match ctx.problem.fleet.resources {
        Some(r) => r@,
        None => Seq::empty(),
    }
}

/// The resource drawn from by the first `n` activities of stop `s`: the first
/// reload among them with a resource id.
pub open spec fn drawn_resource(kinds: Seq<Vec<Vec<Result<ActivityType, String>>>>, t: int, s: int, n: nat) -> Option<Seq<char>>
    decreases n,
{
    if n == 0 {
        None
    } else {
        match drawn_resource(kinds, t, s, (n - 1) as nat) {
            Some(r) => Some(r),
            None => match kinds[t]@[s]@[n - 1] {
                Ok(ActivityType::Reload { resource_id: Some(r) }) => Some(r@),
                _ => None,
            },
        }
    }
}

/// One activity of an interval's consumption: static deliveries consume; activities
/// whose type or demand cannot be found are skipped.
pub open spec fn consume_step(ctx: CheckerContext, kinds: Seq<Vec<Vec<Result<ActivityType, String>>>>, t: int, s: int, a: int, acc: LoadVal) -> Run<LoadVal> {
    match kinds[t]@[s]@[a] {
        Err(_) => Run::Done(acc),
        Ok(kind) => match demand_spec(ctx, activity_at(ctx, t, s, a), kind) {
            Run::Done((demand_type, d)) => if demand_type == DemandType::StaticDelivery {
                add_run(acc, d)
            } else {
                Run::Done(acc)
            },
            Run::Fail(_) => Run::Done(acc),
            Run::Panic => Run::Panic,
        },
    }
}

/// The steps of a stop's consumption.
pub open spec fn consume_steps(ctx: CheckerContext, kinds: Seq<Vec<Vec<Result<ActivityType, String>>>>, t: int, s: int) -> spec_fn(int, LoadVal) -> Run<LoadVal> {
    |a: int, x: LoadVal| consume_step(ctx, kinds, t, s, a, x)
}

/// The consumption of the activities of stop `s`.
pub open spec fn stop_consumption(ctx: CheckerContext, kinds: Seq<Vec<Vec<Result<ActivityType, String>>>>, t: int, s: int, acc: LoadVal) -> Run<LoadVal> {
    fold_run(ctx.solution.tours@[t].stops@[s].activities@.len(), acc, consume_steps(ctx, kinds, t, s))
}

/// The steps of the consumption over stops from stop `lo`.
pub open spec fn consume_stop_steps(ctx: CheckerContext, kinds: Seq<Vec<Vec<Result<ActivityType, String>>>>, t: int, lo: int) -> spec_fn(int, LoadVal) -> Run<LoadVal> {
    |i: int, x: LoadVal| stop_consumption(ctx, kinds, t, lo + i, x)
}

/// The consumption over the activities of the stops of an interval of legs `(start, end)`.
pub open spec fn interval_consumption(ctx: CheckerContext, kinds: Seq<Vec<Vec<Result<ActivityType, String>>>>, t: int, bound: (int, int)) -> Run<LoadVal> {
    fold_run((bound.1 - bound.0 + 2) as nat, zero_load(), consume_stop_steps(ctx, kinds, t, bound.0))
}

/// The resources consumed so far, in order of first consumption, with their totals.
pub struct ResourceUse {
    pub order: Seq<Seq<char>>,
    pub used: Map<Seq<char>, LoadVal>,
}

/// Adds an interval's consumption of a resource.
pub open spec fn record_use(state: ResourceUse, r: Seq<char>, consumed: LoadVal) -> Run<ResourceUse> {
    let before = if state.used.contains_key(r) {
        state.used[r]
    } else {
        zero_load()
    };
    match add_run(before, consumed) {
        Run::Done(total) => Run::Done(
            ResourceUse {
                order: if state.used.contains_key(r) {
                    state.order
                } else {
                    state.order.push(r)
                },
                used: state.used.insert(r, total),
            },
        ),
        _ => Run::Panic,
    }
}

/// Interval `k` of tour `t` with the given bounds: when it starts at a reload
/// of a resource, its consumption is added to that resource's.
pub open spec fn interval_use(ctx: CheckerContext, kinds: Seq<Vec<Vec<Result<ActivityType, String>>>>, t: int, bounds: Seq<(int, int)>, k: int, state: ResourceUse) -> Run<ResourceUse> {
    let start = bounds[k].0;
    match drawn_resource(kinds, t, start, ctx.solution.tours@[t].stops@[start].activities@.len()) {
        None => Run::Done(state),
        Some(r) => match interval_consumption(ctx, kinds, t, bounds[k]) {
            Run::Done(consumed) => record_use(state, r, consumed),
            _ => Run::Panic,
        },
    }
}

/// The steps over the intervals of tour `t`.
pub open spec fn interval_use_steps(ctx: CheckerContext, kinds: Seq<Vec<Vec<Result<ActivityType, String>>>>, t: int, bounds: Seq<(int, int)>) -> spec_fn(int, ResourceUse) -> Run<ResourceUse> {
    |k: int, x: ResourceUse| interval_use(ctx, kinds, t, bounds, k, x)
}

/// The consumption of the intervals of tour `t`.
pub open spec fn tour_use(ctx: CheckerContext, kinds: Seq<Vec<Vec<Result<ActivityType, String>>>>, t: int, state: ResourceUse) -> Run<ResourceUse> {
    match tour_intervals(ctx.solution.tours@[t].stops@) {
        Run::Done(bounds) => fold_run(bounds.len(), state, interval_use_steps(ctx, kinds, t, bounds)),
        _ => Run::Panic,
    }
}

/// The steps over the tours.
pub open spec fn tour_use_steps(ctx: CheckerContext, kinds: Seq<Vec<Vec<Result<ActivityType, String>>>>) -> spec_fn(int, ResourceUse) -> Run<ResourceUse> {
    |t: int, x: ResourceUse| tour_use(ctx, kinds, t, x)
}

/// The consumption over all tours.
pub open spec fn consumption_run(ctx: CheckerContext, kinds: Seq<Vec<Vec<Result<ActivityType, String>>>>) -> Run<ResourceUse> {
    fold_run(
        ctx.solution.tours.len() as nat,
        ResourceUse { order: Seq::empty(), used: Map::empty() },
        tour_use_steps(ctx, kinds),
    )
}

/// The text of a load: all eight dimension values, as a list.
pub open spec fn load_text(l: LoadVal) -> Seq<char> {
    "["@ + signed_decimal(l.dims[0]) + ", "@ + signed_decimal(l.dims[1]) + ", "@ + signed_decimal(l.dims[2]) + ", "@
        + signed_decimal(l.dims[3]) + ", "@ + signed_decimal(l.dims[4]) + ", "@ + signed_decimal(l.dims[5]) + ", "@
        + signed_decimal(l.dims[6]) + ", "@ + signed_decimal(l.dims[7]) + "]"@
}

/// Message for a consumed resource that the fleet does not have.
pub open spec fn unknown_resource_msg(r: Seq<char>) -> Seq<char> {
    "cannot find resource '"@ + r + "' in list of available resources"@
}

/// Message for a resource consumed beyond its capacity.
pub open spec fn overconsumed_msg(r: Seq<char>, consumed: LoadVal, available: LoadVal) -> Seq<char> {
    "consumed more resource '"@ + r + "' than available: "@ + load_text(consumed) + " vs "@ + load_text(available)
}

/// The rule for the `i`-th consumed resource: the fleet has it and it is not
/// consumed beyond its capacity.
pub open spec fn resource_rule(caps: Map<Seq<char>, LoadVal>, state: ResourceUse, i: int) -> Result<(), Seq<char>> {
    let r = state.order[i];
    if !caps.contains_key(r) {
        Err(unknown_resource_msg(r))
    } else if exceeds(state.used[r], caps[r]) {
        Err(overconsumed_msg(r, state.used[r], caps[r]))
    } else {
        Ok(())
    }
}

pub open spec fn resource_rules(caps: Map<Seq<char>, LoadVal>, state: ResourceUse) -> spec_fn(int) -> Result<(), Seq<char>> {
    |i: int| resource_rule(caps, state, i)
}

/// The resource rule: every shared resource consumed by the intervals that start
/// at its reloads is available in the fleet and not over-consumed; resources
/// are checked in the order they are first consumed.
pub open spec fn resource_run(ctx: CheckerContext, kinds: Seq<Vec<Vec<Result<ActivityType, String>>>>) -> Run<()> {
    match resource_capacities(fleet_resources(ctx)) {
        Run::Done(caps) => match consumption_run(ctx, kinds) {
            Run::Done(state) => match first_error_of(state.order.len(), resource_rules(caps, state)) {
                Err(e) => Run::Fail(e),
                Ok(_) => Run::Done(()),
            },
            _ => Run::Panic,
        },
        _ => Run::Panic,
    }
}

/// The resource rule's outcome.
pub open spec fn resource_outcome(ctx: CheckerContext, kinds: Seq<Vec<Vec<Result<ActivityType, String>>>>) -> Result<(), Seq<char>> {
    match resource_run(ctx, kinds) {
        Run::Fail(e) => Err(e),
        _ => Ok(()),
    }
}

// endregion


/// Every resource with a recorded use is in the order of first use.
pub open spec fn use_ordered(state: ResourceUse) -> bool {
    forall|r: Seq<char>| #[trigger] state.used.contains_key(r) ==> state.order.contains(r)
}

/// The property of a use state that the consumption keeps.
pub open spec fn ordered_use() -> spec_fn(ResourceUse) -> bool {
    |state: ResourceUse| use_ordered(state)
}

/// Recording a consumption keeps every used resource in the order.
proof fn lemma_record_use_ordered(state: ResourceUse, r: Seq<char>, consumed: LoadVal)
    requires
        use_ordered(state),
    ensures
        record_use(state, r, consumed) matches Run::Done(next) ==> use_ordered(next),
{
    if record_use(state, r, consumed) is Done {
        let next = record_use(state, r, consumed)->Done_0;
        assert forall|q: Seq<char>| #[trigger] next.used.contains_key(q) implies next.order.contains(q) by {
            if state.used.contains_key(q) {
                let i = state.order.index_of(q);
                assert(next.order[i] == q);
            } else {
                assert(next.order[next.order.len() - 1] == q);
            }
        }
    }
}

/// The consumption of all tours keeps every used resource in the order.
proof fn lemma_consumption_ordered(ctx: CheckerContext, kinds: Seq<Vec<Vec<Result<ActivityType, String>>>>)
    ensures
        consumption_run(ctx, kinds) matches Run::Done(state) ==> use_ordered(state),
{
    let init = ResourceUse { order: Seq::empty(), used: Map::empty() };
    let inv = ordered_use();
    assert forall|t: int, x: ResourceUse| 0 <= t < ctx.solution.tours.len() && inv(x) && #[trigger] tour_use_steps(
        ctx,
        kinds,
    )(t, x) is Done implies inv(tour_use_steps(ctx, kinds)(t, x)->Done_0) by {
        let bounds = tour_intervals(ctx.solution.tours@[t].stops@)->Done_0;
        let steps = interval_use_steps(ctx, kinds, t, bounds);
        assert forall|k: int, y: ResourceUse| 0 <= k < bounds.len() && inv(y) && #[trigger] steps(k, y) is Done implies inv(
            steps(k, y)->Done_0,
        ) by {
            let start = bounds[k].0;
            match drawn_resource(kinds, t, start, ctx.solution.tours@[t].stops@[start].activities@.len()) {
                None => {},
                Some(r) => {
                    lemma_record_use_ordered(y, r, interval_consumption(ctx, kinds, t, bounds[k])->Done_0);
                },
            }
        }
        lemma_fold_run_keeps(bounds.len(), x, steps, inv);
    }
    lemma_fold_run_keeps(ctx.solution.tours.len() as nat, init, tour_use_steps(ctx, kinds), inv);
}

/// Shared resources are not over-consumed: when the resource check passes, every
/// resource consumed by the intervals that start at its reloads is a resource of
/// the fleet, and its total consumption does not exceed its capacity.
pub proof fn lemma_passing_resources_within_capacity(
    ctx: CheckerContext,
    kinds: Seq<Vec<Vec<Result<ActivityType, String>>>>,
    r: Seq<char>,
)
    requires
        resource_run(ctx, kinds) == Run::Done(()),
        consumption_run(ctx, kinds) is Done,
        consumption_run(ctx, kinds)->Done_0.used.contains_key(r),
    ensures
        resource_capacities(fleet_resources(ctx)) is Done,
        ({
            let caps = resource_capacities(fleet_resources(ctx))->Done_0;
            let used = consumption_run(ctx, kinds)->Done_0.used;
            caps.contains_key(r) && !exceeds(used[r], caps[r])
        }),
{
    let caps = resource_capacities(fleet_resources(ctx))->Done_0;
    let state = consumption_run(ctx, kinds)->Done_0;
    lemma_consumption_ordered(ctx, kinds);
    lemma_first_error_ok(state.order.len(), resource_rules(caps, state));
    let i = state.order.index_of(r);
    assert(resource_rules(caps, state)(i) is Ok);
}

// region Resource checks

/// Whether the index and loads hold the given resource capacities.
pub open spec fn caps_match(index: Map<Seq<char>, usize>, loads: Seq<MultiDimensionalCapacity>, caps: Map<Seq<char>, LoadVal>) -> bool {
    &&& forall|r: Seq<char>| #[trigger] caps.contains_key(r) <==> index.contains_key(r)
    &&& forall|r: Seq<char>| #[trigger] index.contains_key(r) ==> index[r] < loads.len() && lv(loads[index[r] as int])
        == caps[r] && loads[index[r] as int].size <= 8
}

/// A panic over a prefix of the resources is a panic over all of them.
pub proof fn lemma_caps_panic_stays(resources: Seq<VehicleResource>, n: nat)
    requires
        n <= resources.len(),
        resource_capacities(resources.take(n as int)) is Panic,
    ensures
        resource_capacities(resources) is Panic,
    decreases resources.len(),
{
    if n < resources.len() {
        assert(resources.drop_last().take(n as int) =~= resources.take(n as int));
        lemma_caps_panic_stays(resources.drop_last(), n);
    } else {
        assert(resources.take(n as int) =~= resources);
    }
}

/// The capacities of the shared resources: ids mapped to positions in the loads.
fn resource_table(ctx: &CheckerContext) -> (table: Option<(IndexMap, Vec<MultiDimensionalCapacity>)>)
    ensures
        match table {
            Some(table) => resource_capacities(fleet_resources(*ctx)) matches Run::Done(caps) && caps_match(
                index_map_entries(table.0),
                table.1@,
                caps,
            ),
            None => resource_capacities(fleet_resources(*ctx)) is Panic,
        },
{
    let mut index = IndexMap::new();
    let mut loads: Vec<MultiDimensionalCapacity> = Vec::new();
    let empty: Vec<VehicleResource> = Vec::new();
    let resources = match &ctx.problem.fleet.resources {
        Some(r) => r,
        None => &empty,
    };
    proof {
        assert(resources@ == fleet_resources(*ctx));
        assert(resources@.take(0) =~= Seq::empty());
        assert(caps_match(index_map_entries(index), loads@, Map::empty()));
    }
    let mut i: usize = 0;
    while i < resources.len()
        invariant
            i <= resources.len(),
            resources@ == fleet_resources(*ctx),
            resource_capacities(resources@.take(i as int)) matches Run::Done(caps) && caps_match(
                index_map_entries(index),
                loads@,
                caps,
            ),
        decreases resources.len() - i,
    {
        proof {
            assert(resources@.take(i + 1).drop_last() =~= resources@.take(i as int));
            assert(resources@.take(i + 1).last() == resources@[i as int]);
        }
        let ghost before = resource_capacities(resources@.take(i as int))->Done_0;
        let ghost loads_before = loads@;
        match &resources[i] {
            VehicleResource::Reload { id, capacity } => {
                if capacity.len() > 8 {
                    proof {
                        assert(resource_capacities(resources@.take(i + 1)) is Panic);
                        lemma_caps_panic_stays(resources@, (i + 1) as nat);
                    }
                    return None;
                }
                let load = load_of(capacity);
                let position = loads.len();
                loads.push(load);
                index.insert(id.clone(), position);
                proof {
                    let caps = before.insert(id@, load_from(capacity@));
                    assert(resource_capacities(resources@.take(i + 1)) == Run::Done(caps));
                    assert forall|r: Seq<char>| #[trigger] index_map_entries(index).contains_key(r) implies index_map_entries(
                        index,
                    )[r] < loads@.len() && lv(loads@[index_map_entries(index)[r] as int]) == caps[r]
                        && loads@[index_map_entries(index)[r] as int].size <= 8 by {
                        if r != id@ {
                            assert(loads@[index_map_entries(index)[r] as int] == loads_before[index_map_entries(index)[r] as int]);
                        }
                    }
                }
            },
        }
        i = i + 1;
    }
    proof {
        assert(resources@.take(i as int) =~= resources@);
    }
    Some((index, loads))
}


/// The resource drawn from at stop `s` of tour `t`.
fn drawn_resource_at(ctx: &CheckerContext, kinds: &Vec<Vec<Vec<Result<ActivityType, String>>>>, t: usize, s: usize) -> (found:
    Option<String>)
    requires
        t < ctx.solution.tours.len(),
        s < ctx.solution.tours@[t as int].stops.len(),
        kinds_fit(ctx.solution.tours@, kinds@),
    ensures
        match found {
            Some(r) => drawn_resource(kinds@, t as int, s as int, ctx.solution.tours@[t as int].stops@[s as int].activities@.len())
                == Some(r@),
            None => drawn_resource(kinds@, t as int, s as int, ctx.solution.tours@[t as int].stops@[s as int].activities@.len())
                is None,
        },
{
    let count = kinds[t][s].len();
    let mut a: usize = 0;
    while a < count
        invariant
            a <= count,
            t < ctx.solution.tours.len(),
            s < ctx.solution.tours@[t as int].stops.len(),
            kinds_fit(ctx.solution.tours@, kinds@),
            count == kinds@[t as int]@[s as int]@.len(),
            drawn_resource(kinds@, t as int, s as int, a as nat) is None,
        decreases count - a,
    {
        match &kinds[t][s][a] {
            Ok(ActivityType::Reload { resource_id: Some(r) }) => {
                proof {
                    lemma_drawn_resource_stays(kinds@, t as int, s as int, (a + 1) as nat, count as nat);
                }
                return Some(r.clone());
            },
            _ => {},
        }
        a = a + 1;
    }
    None
}

/// A resource drawn among the first `n` activities is the one drawn among the first `m`.
pub proof fn lemma_drawn_resource_stays(kinds: Seq<Vec<Vec<Result<ActivityType, String>>>>, t: int, s: int, n: nat, m: nat)
    requires
        n <= m,
        drawn_resource(kinds, t, s, n) is Some,
    ensures
        drawn_resource(kinds, t, s, m) == drawn_resource(kinds, t, s, n),
    decreases m,
{
    if m > n {
        lemma_drawn_resource_stays(kinds, t, s, n, (m - 1) as nat);
    }
}

/// The consumption over the activities of the stops from `start` to `end + 1`;
/// `None` where it cannot be computed (a load leaves `i32` or has too many dimensions).
fn consumption_of(
    ctx: &CheckerContext,
    index: &IndexMap,
    kinds: &Vec<Vec<Vec<Result<ActivityType, String>>>>,
    t: usize,
    start: usize,
    end: usize,
) -> (consumed: Option<MultiDimensionalCapacity>)
    requires
        t < ctx.solution.tours.len(),
        start <= end,
        end + 1 < ctx.solution.tours@[t as int].stops.len(),
        kinds_fit(ctx.solution.tours@, kinds@),
        index_map_entries(*index) == job_id_index(ctx.problem.plan.jobs@),
    ensures
        match consumed {
            Some(c) => interval_consumption(*ctx, kinds@, t as int, (start as int, end as int)) == Run::Done(lv(c))
                && c.size <= 8,
            None => interval_consumption(*ctx, kinds@, t as int, (start as int, end as int)) is Panic,
        },
{
    let tour = &ctx.solution.tours[t];
    let ghost total = (end - start + 2) as nat;
    let ghost outer = consume_stop_steps(*ctx, kinds@, t as int, start as int);
    let mut x = empty_load();
    let mut s: usize = start;
    while s <= end + 1
        invariant
            start <= s <= end + 2,
            t < ctx.solution.tours.len(),
            tour == &ctx.solution.tours@[t as int],
            end + 1 < tour.stops.len(),
            kinds_fit(ctx.solution.tours@, kinds@),
            index_map_entries(*index) == job_id_index(ctx.problem.plan.jobs@),
            total == end - start + 2,
            outer == consume_stop_steps(*ctx, kinds@, t as int, start as int),
            fold_run((s - start) as nat, zero_load(), outer) == Run::Done(lv(x)),
            x.size <= 8,
        decreases end + 2 - s,
    {
        let stop = &tour.stops[s];
        let ghost inner = consume_steps(*ctx, kinds@, t as int, s as int);
        let ghost stop_init = lv(x);
        proof {
            assert(fold_run((s - start + 1) as nat, zero_load(), outer) == stop_consumption(
                *ctx,
                kinds@,
                t as int,
                s as int,
                stop_init,
            ));
        }
        let mut a: usize = 0;
        while a < stop.activities.len()
            invariant
                a <= stop.activities.len(),
                start <= s <= end + 1,
                end + 1 < tour.stops.len(),
                t < ctx.solution.tours.len(),
                tour == &ctx.solution.tours@[t as int],
                stop == &tour.stops@[s as int],
                kinds_fit(ctx.solution.tours@, kinds@),
                index_map_entries(*index) == job_id_index(ctx.problem.plan.jobs@),
                total == end - start + 2,
                outer == consume_stop_steps(*ctx, kinds@, t as int, start as int),
                inner == consume_steps(*ctx, kinds@, t as int, s as int),
                fold_run((s - start + 1) as nat, zero_load(), outer) == fold_run(
                    stop.activities@.len(),
                    stop_init,
                    inner,
                ),
                fold_run(a as nat, stop_init, inner) == Run::Done(lv(x)),
                x.size <= 8,
            decreases stop.activities.len() - a,
        {
            let activity = &stop.activities[a];
            let mut aborted = false;
            match &kinds[t][s][a] {
                Err(_) => {},
                Ok(kind) => {
                    match get_demand(ctx, index, activity, kind) {
                        Err(Halt::Abort) => {
                            aborted = true;
                        },
                        Err(Halt::Error(_)) => {},
                        Ok((demand_type, d)) => {
                            if demand_type == DemandType::StaticDelivery {
                                match add_loads(x, d) {
                                    Some(sum) => {
                                        x = sum;
                                    },
                                    None => {
                                        aborted = true;
                                    },
                                }
                            }
                        },
                    }
                },
            }
            if aborted {
                proof {
                    assert(fold_run((a + 1) as nat, stop_init, inner) is Panic);
                    lemma_fold_run_halt(stop.activities@.len(), (a + 1) as nat, stop_init, inner);
                    lemma_fold_run_halt(total, (s - start + 1) as nat, zero_load(), outer);
                }
                return None;
            }
            a = a + 1;
        }
        s = s + 1;
    }
    Some(x)
}

/// Whether the recorded uses are the consumption state.
pub open spec fn use_matches(
    positions: Map<Seq<char>, usize>,
    order: Seq<String>,
    used: Seq<MultiDimensionalCapacity>,
    state: ResourceUse,
) -> bool {
    &&& views(order) == state.order
    &&& used.len() == order.len()
    &&& forall|r: Seq<char>| #[trigger] state.used.contains_key(r) <==> positions.contains_key(r)
    &&& forall|r: Seq<char>| #[trigger] positions.contains_key(r) ==> positions[r] < used.len() && lv(
        used[positions[r] as int],
    ) == state.used[r] && order[positions[r] as int]@ == r
    &&& forall|k: int| 0 <= k < order.len() ==> positions.contains_key(#[trigger] order[k]@)
    &&& forall|k: int| 0 <= k < used.len() ==> (#[trigger] used[k]).size <= 8
}

/// Adds an interval's consumption of a resource to the recorded uses.
fn record_resource_use(
    positions: &mut IndexMap,
    order: &mut Vec<String>,
    used: &mut Vec<MultiDimensionalCapacity>,
    r: String,
    consumed: MultiDimensionalCapacity,
    Ghost(state): Ghost<ResourceUse>,
) -> (recorded: bool)
    requires
        use_matches(index_map_entries(*old(positions)), old(order)@, old(used)@, state),
        consumed.size <= 8,
    ensures
        recorded == !(record_use(state, r@, lv(consumed)) is Panic),
        recorded ==> (record_use(state, r@, lv(consumed)) matches Run::Done(next) && use_matches(
            index_map_entries(*final(positions)),
            final(order)@,
            final(used)@,
            next,
        )),
{
    match positions.get(r.as_str()) {
        Some(k) => {
            let total = match add_loads(used[k], consumed) {
                Some(total) => total,
                None => return false,
            };
            let ghost before = used@;
            used.set(k, total);
            proof {
                let next = record_use(state, r@, lv(consumed))->Done_0;
                assert forall|q: Seq<char>| #[trigger] index_map_entries(*positions).contains_key(q) implies index_map_entries(
                    *positions,
                )[q] < used@.len() && lv(used@[index_map_entries(*positions)[q] as int]) == next.used[q]
                    && order@[index_map_entries(*positions)[q] as int]@ == q by {
                    if q != r@ {
                        assert(index_map_entries(*positions)[q] != k);
                    }
                }
                assert(views(order@) == next.order);
            }
        },
        None => {
            let k = used.len();
            let empty = empty_load();
            let total = match add_loads(empty, consumed) {
                Some(total) => total,
                None => return false,
            };
            used.push(total);
            positions.insert(r.clone(), k);
            order.push(r);
            proof {
                let next = record_use(state, r@, lv(consumed))->Done_0;
                assert(views(order@) =~= next.order);
            }
        },
    }
    true
}


/// The text of a load: all eight dimension values, as a list.
pub fn load_text_of(load: &MultiDimensionalCapacity) -> (text: String)
    ensures
        text@ == load_text(lv(*load)),
{
    let mut text = String::from_str("[");
    text.append(i64_to_string(load.capacity[0] as i64).as_str());
    text.append(", ");
    text.append(i64_to_string(load.capacity[1] as i64).as_str());
    text.append(", ");
    text.append(i64_to_string(load.capacity[2] as i64).as_str());
    text.append(", ");
    text.append(i64_to_string(load.capacity[3] as i64).as_str());
    text.append(", ");
    text.append(i64_to_string(load.capacity[4] as i64).as_str());
    text.append(", ");
    text.append(i64_to_string(load.capacity[5] as i64).as_str());
    text.append(", ");
    text.append(i64_to_string(load.capacity[6] as i64).as_str());
    text.append(", ");
    text.append(i64_to_string(load.capacity[7] as i64).as_str());
    text.append("]");
    text
}

/// Adds the consumption of the intervals of tour `t` to the recorded uses.
fn record_tour_use(
    ctx: &CheckerContext,
    index: &IndexMap,
    kinds: &Vec<Vec<Vec<Result<ActivityType, String>>>>,
    t: usize,
    positions: &mut IndexMap,
    order: &mut Vec<String>,
    used: &mut Vec<MultiDimensionalCapacity>,
    Ghost(state): Ghost<ResourceUse>,
) -> (recorded: bool)
    requires
        t < ctx.solution.tours.len(),
        kinds_fit(ctx.solution.tours@, kinds@),
        index_map_entries(*index) == job_id_index(ctx.problem.plan.jobs@),
        use_matches(index_map_entries(*old(positions)), old(order)@, old(used)@, state),
    ensures
        recorded == !(tour_use(*ctx, kinds@, t as int, state) is Panic),
        recorded ==> (tour_use(*ctx, kinds@, t as int, state) matches Run::Done(next) && use_matches(
            index_map_entries(*final(positions)),
            final(order)@,
            final(used)@,
            next,
        )),
{
    let tour = &ctx.solution.tours[t];
    let intervals = match get_intervals(tour) {
        Some(intervals) => intervals,
        None => return false,
    };
    let ghost bounds = tour_intervals(tour.stops@)->Done_0;
    let ghost steps = interval_use_steps(*ctx, kinds@, t as int, bounds);
    let ghost mut current = state;
    proof {
        lemma_interval_bounds(tour.stops@, leg_count(tour.stops@) as nat);
    }
    let mut k: usize = 0;
    while k < intervals.len()
        invariant
            k <= intervals.len() == bounds.len(),
            t < ctx.solution.tours.len(),
            tour == &ctx.solution.tours@[t as int],
            kinds_fit(ctx.solution.tours@, kinds@),
            index_map_entries(*index) == job_id_index(ctx.problem.plan.jobs@),
            tour_intervals(tour.stops@) == Run::Done(bounds),
            forall|j: int| 0 <= j < bounds.len() ==> (#[trigger] intervals@[j]).0 == bounds[j].0 && intervals@[j].1
                == bounds[j].1,
            forall|j: int| 0 <= j < bounds.len() ==> 0 <= (#[trigger] bounds[j]).0 <= bounds[j].1 < leg_count(tour.stops@),
            steps == interval_use_steps(*ctx, kinds@, t as int, bounds),
            fold_run(k as nat, state, steps) == Run::Done(current),
            use_matches(index_map_entries(*positions), order@, used@, current),
        decreases intervals.len() - k,
    {
        let (start, end) = intervals[k];
        match drawn_resource_at(ctx, kinds, t, start) {
            None => {},
            Some(r) => {
                let recorded = match consumption_of(ctx, index, kinds, t, start, end) {
                    Some(consumed) => {
                        let recorded = record_resource_use(positions, order, used, r, consumed, Ghost(current));
                        proof {
                            if recorded {
                                current = record_use(current, r@, lv(consumed))->Done_0;
                            }
                        }
                        recorded
                    },
                    None => false,
                };
                if !recorded {
                    proof {
                        assert(fold_run((k + 1) as nat, state, steps) is Panic);
                        lemma_fold_run_halt(bounds.len(), (k + 1) as nat, state, steps);
                    }
                    return false;
                }
            },
        }
        k = k + 1;
    }
    true
}

/// Checks that shared reload resources are not consumed beyond what is available.
/// `kinds` holds the type of each activity, tour by tour, stop by stop, or why
/// it could not be found; activities without a type are not counted.
pub fn check_resource_consumption(ctx: &CheckerContext, kinds: &Vec<Vec<Vec<Result<ActivityType, String>>>>) -> (result:
    Result<(), Halt>)
    requires
        kinds_fit(ctx.solution.tours@, kinds@),
    ensures
        match result {
            Ok(_) => resource_run(*ctx, kinds@) == Run::Done(()),
            Err(h) => halted(resource_run(*ctx, kinds@), h),
        },
{
    let (capacities, loads) = match resource_table(ctx) {
        Some(table) => table,
        None => return Err(Halt::Abort),
    };
    let ghost caps = resource_capacities(fleet_resources(*ctx))->Done_0;
    let index = job_ids_index(&ctx.problem.plan.jobs);
    let mut positions = IndexMap::new();
    let mut order: Vec<String> = Vec::new();
    let mut used: Vec<MultiDimensionalCapacity> = Vec::new();
    let ghost init = ResourceUse { order: Seq::empty(), used: Map::empty() };
    let ghost steps = tour_use_steps(*ctx, kinds@);
    let ghost mut current = init;
    proof {
        assert(views(order@) =~= Seq::empty());
        assert(use_matches(index_map_entries(positions), order@, used@, init));
    }
    let tours = &ctx.solution.tours;
    let mut t: usize = 0;
    while t < tours.len()
        invariant
            t <= tours.len(),
            tours == &ctx.solution.tours,
            kinds_fit(ctx.solution.tours@, kinds@),
            index_map_entries(index) == job_id_index(ctx.problem.plan.jobs@),
            resource_capacities(fleet_resources(*ctx)) == Run::Done(caps),
            steps == tour_use_steps(*ctx, kinds@),
            init == (ResourceUse { order: Seq::empty(), used: Map::empty() }),
            fold_run(t as nat, init, steps) == Run::Done(current),
            use_matches(index_map_entries(positions), order@, used@, current),
        decreases tours.len() - t,
    {
        if !record_tour_use(ctx, &index, kinds, t, &mut positions, &mut order, &mut used, Ghost(current)) {
            proof {
                assert(fold_run((t + 1) as nat, init, steps) is Panic);
                lemma_fold_run_halt(tours.len() as nat, (t + 1) as nat, init, steps);
            }
            return Err(Halt::Abort);
        }
        proof {
            current = tour_use(*ctx, kinds@, t as int, current)->Done_0;
        }
        t = t + 1;
    }
    let ghost state = current;
    let mut i: usize = 0;
    while i < order.len()
        invariant
            i <= order.len(),
            resource_capacities(fleet_resources(*ctx)) == Run::Done(caps),
            caps_match(index_map_entries(capacities), loads@, caps),
            consumption_run(*ctx, kinds@) == Run::Done(state),
            use_matches(index_map_entries(positions), order@, used@, state),
            first_error_of(i as nat, resource_rules(caps, state)) is Ok,
        decreases order.len() - i,
    {
        let r = order[i].as_str();
        proof {
            assert(state.order[i as int] == r@);
            assert(index_map_entries(positions).contains_key(r@));
        }
        match capacities.get(r) {
            None => {
                let mut message = String::from_str("cannot find resource '");
                message.append(r);
                message.append("' in list of available resources");
                proof {
                    assert(resource_rules(caps, state)(i as int) == result_view(Err(message)));
                    lemma_first_error_stays((i + 1) as nat, order.len() as nat, resource_rules(caps, state));
                }
                return Err(Halt::Error(message));
            },
            Some(c) => {
                let p = match positions.get(r) {
                    Some(p) => p,
                    None => unreached(),
                };
                let consumed = &used[p];
                let available = &loads[c];
                if load_exceeds(consumed, available) {
                    let mut message = String::from_str("consumed more resource '");
                    message.append(r);
                    message.append("' than available: ");
                    message.append(load_text_of(consumed).as_str());
                    message.append(" vs ");
                    message.append(load_text_of(available).as_str());
                    proof {
                        assert(resource_rules(caps, state)(i as int) == result_view(Err(message)));
                        lemma_first_error_stays((i + 1) as nat, order.len() as nat, resource_rules(caps, state));
                    }
                    return Err(Halt::Error(message));
                }
                proof {
                    assert(resource_rules(caps, state)(i as int) is Ok);
                }
            },
        }
        i = i + 1;
    }
    Ok(())
}

/// The outcome of both load rules: the errors of the load assignment and the
/// resource consumption, in that order.
pub open spec fn vehicle_load_outcome(ctx: CheckerContext, kinds: Seq<Vec<Vec<Result<ActivityType, String>>>>) -> Result<(), Seq<Seq<char>>> {
    combined_errors(seq![load_assignment_outcome(ctx, kinds), resource_outcome(ctx, kinds)])
}

/// A load check's outcome as a result of the rule: `None` for an abort.
fn halt_outcome(result: Result<(), Halt>) -> (outcome: Option<Result<(), String>>)
    ensures
        match outcome {
            Some(Ok(_)) => result is Ok,
            Some(Err(e)) => result == Err::<(), Halt>(Halt::Error(e)),
            None => result == Err::<(), Halt>(Halt::Abort),
        },
{
    match result {
        Ok(_) => Some(Ok(())),
        Err(Halt::Error(e)) => Some(Err(e)),
        Err(Halt::Abort) => None,
    }
}

/// Checks that vehicle load is assigned correctly: the vehicle's capacity is not
/// violated, load changes are correct, and shared resources are not over-consumed.
/// `None` where the loads cannot be computed: a load leaves `i32` or has more than
/// eight dimensions, or a tour has two reload stops in a row.
pub fn check_vehicle_load(ctx: &CheckerContext, kinds: &Vec<Vec<Vec<Result<ActivityType, String>>>>) -> (result: Option<
    Result<(), Vec<String>>,
>)
    requires
        kinds_fit(ctx.solution.tours@, kinds@),
    ensures
        match result {
            Some(r) => results_view(r) == vehicle_load_outcome(*ctx, kinds@),
            None => load_assignment_run(*ctx, kinds@) is Panic || resource_run(*ctx, kinds@) is Panic,
        },
        result is None <== (load_assignment_run(*ctx, kinds@) is Panic || resource_run(*ctx, kinds@) is Panic),
{
    let assignment = match halt_outcome(check_vehicle_load_assignment(ctx, kinds)) {
        Some(r) => r,
        None => return None,
    };
    let consumption = match halt_outcome(check_resource_consumption(ctx, kinds)) {
        Some(r) => r,
        None => return None,
    };
    let results = [assignment, consumption];
    let combined = combine_error_results(&results);
    proof {
        assert(result_views(results@) =~= seq![load_assignment_outcome(*ctx, kinds@), resource_outcome(*ctx, kinds@)]);
    }
    Some(combined)
}

// endregion

/// The demands of a job with both pickups and deliveries are dynamic: such a
/// job's pickup and delivery activities add nothing to the load expected at the
/// start of an interval nor to the pickups leaving at its end; the load rises by
/// the demand at the pickup and falls by it at the delivery.
pub proof fn lemma_pickup_delivery_demands_are_dynamic(
    ctx: CheckerContext,
    kinds: Seq<Vec<Vec<Result<ActivityType, String>>>>,
    t: int,
    s: int,
    a: int,
    acc: (LoadVal, LoadVal),
    end_pickup: LoadVal,
    load: LoadVal,
)
    requires
        kinds[t]@[s]@[a] == Ok::<ActivityType, String>(ActivityType::Job),
        job_id_index(ctx.problem.plan.jobs@).contains_key(activity_at(ctx, t, s, a).job_id@),
        ({
            let job = ctx.problem.plan.jobs@[job_id_index(ctx.problem.plan.jobs@)[activity_at(ctx, t, s, a).job_id@] as int];
            task_count(job.pickups) > 0 && task_count(job.deliveries) > 0
        }),
        activity_at(ctx, t, s, a).activity_type@ == "pickup"@ || activity_at(ctx, t, s, a).activity_type@
            == "delivery"@,
        demand_spec(ctx, activity_at(ctx, t, s, a), ActivityType::Job) is Done,
    ensures
        demand_step(ctx, kinds, t, s, a, acc) == Run::Done(acc),
        ({
            let d = demand_spec(ctx, activity_at(ctx, t, s, a), ActivityType::Job)->Done_0.1;
            let kind = activity_at(ctx, t, s, a).activity_type@;
            kind == "pickup"@ ==> change_step(ctx, kinds, t, s, a, end_pickup, load) == add_run(load, d)
        }),
        ({
            let d = demand_spec(ctx, activity_at(ctx, t, s, a), ActivityType::Job)->Done_0.1;
            let kind = activity_at(ctx, t, s, a).activity_type@;
            kind == "delivery"@ ==> change_step(ctx, kinds, t, s, a, end_pickup, load) == sub_run(load, d)
        }),
{
    reveal_strlit("pickup");
    reveal_strlit("delivery");
    reveal_strlit("replacement");
    reveal_strlit("arrival");
    reveal_strlit("reload");
    assert("pickup"@.len() != "replacement"@.len());
    assert("delivery"@.len() != "replacement"@.len());
    assert("pickup"@ != "replacement"@);
    assert("delivery"@ != "replacement"@);
    assert("pickup"@ != "delivery"@);
    assert("pickup"@ != "arrival"@);
    assert("pickup"@[0] != "reload"@[0]);
    assert("pickup"@ != "reload"@);
    assert("delivery"@ != "arrival"@);
    assert("delivery"@ != "reload"@);
}

} // verus!
