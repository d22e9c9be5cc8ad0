//! Checks of how jobs and vehicles are assigned to tours.

use super::{
    combine_error_results, combined_errors, first_error_of, lemma_first_error_ok, result_views, results_view, has_vehicle_id, job_index, job_task_size, job_tasks, lemma_first_error_stays,
    lemma_stops_activities_at, lemma_vehicle_index, result_view, stops_activities, vehicle_index, CheckerContext,
};
use crate::checker::relations::is_tour_of;
use crate::collections::{
    group_usage_entries, index_map_entries, string_set_items, tour_key_set_items, GroupUsageMap, IndexMap, StringSet,
    TourKeySet,
};
use crate::model::{Activity, Job, Stop, Tour, UnassignedJob, VehicleType};
use crate::text::{decimal, ends_with, str_ends_with, str_equal, u128_to_string, usize_to_string, views};
use vstd::prelude::*;

verus! {

// region Vehicles

/// Message for a tour of a vehicle the fleet does not know.
pub open spec fn unknown_used_vehicle_msg(id: Seq<char>) -> Seq<char> {
    "used vehicle with unknown id: '"@ + id + "'"@
}

/// Message for a vehicle used twice in the same shift.
pub open spec fn vehicle_reused_msg(id: Seq<char>, shift: usize) -> Seq<char> {
    "vehicle with '"@ + id + "' id used more than once for shift "@ + decimal(shift as nat)
}

/// The vehicle rule for the tour at `t`: its vehicle is known, and no earlier tour
/// uses the same vehicle in the same shift.
pub open spec fn vehicle_use_rule(ctx: CheckerContext, t: int) -> Result<(), Seq<char>> {
    let tours = ctx.solution.tours@;
    let tour = tours[t];
    if vehicle_index(ctx.problem.fleet.vehicles@, tour.vehicle_id@) is None {
        Err(unknown_used_vehicle_msg(tour.vehicle_id@))
    } else if exists|u: int| 0 <= u < t && is_tour_of(#[trigger] tours[u], tour.vehicle_id@, tour.shift_index) {
        Err(vehicle_reused_msg(tour.vehicle_id@, tour.shift_index))
    } else {
        Ok(())
    }
}

pub open spec fn vehicle_use_rules(ctx: CheckerContext) -> spec_fn(int) -> Result<(), Seq<char>> {
    |t: int| vehicle_use_rule(ctx, t)
}

/// The ids of all vehicles of the fleet.
fn all_vehicle_ids(context: &CheckerContext) -> (ids: StringSet)
    ensures
        forall|x: Seq<char>| #[trigger] string_set_items(ids).contains(x) <==> vehicle_index(
            context.problem.fleet.vehicles@,
            x,
        ) is Some,
{
    let vehicles = &context.problem.fleet.vehicles;
    let mut ids = StringSet::new();
    let mut v: usize = 0;
    while v < vehicles.len()
        invariant
            v <= vehicles.len(),
            vehicles == &context.problem.fleet.vehicles,
            forall|x: Seq<char>| #[trigger] string_set_items(ids).contains(x) <==> exists|i: int|
                0 <= i < v && has_vehicle_id(#[trigger] vehicles@[i], x),
        decreases vehicles.len() - v,
    {
        let vehicle_ids = &vehicles[v].vehicle_ids;
        let ghost before = string_set_items(ids);
        let mut j: usize = 0;
        while j < vehicle_ids.len()
            invariant
                j <= vehicle_ids.len(),
                v < vehicles.len(),
                vehicle_ids == &vehicles@[v as int].vehicle_ids,
                forall|x: Seq<char>| #[trigger] string_set_items(ids).contains(x) <==> (before.contains(x) || exists|k: int|
                    0 <= k < j && (#[trigger] vehicle_ids@[k])@ == x),
            decreases vehicle_ids.len() - j,
        {
            ids.insert(vehicle_ids[j].clone());
            proof {
                assert forall|x: Seq<char>| #[trigger] string_set_items(ids).contains(x) <==> (before.contains(x) || exists|k: int|
                    0 <= k < j + 1 && (#[trigger] vehicle_ids@[k])@ == x) by {
                    if x == vehicle_ids@[j as int]@ {
                        assert(vehicle_ids@[j as int]@ == x);
                    }
                }
            }
            j = j + 1;
        }
        proof {
            assert forall|x: Seq<char>| #[trigger] string_set_items(ids).contains(x) <==> exists|i: int|
                0 <= i < v + 1 && has_vehicle_id(#[trigger] vehicles@[i], x) by {
                if string_set_items(ids).contains(x) && !before.contains(x) {
                    assert(has_vehicle_id(vehicles@[v as int], x));
                }
                if exists|i: int| 0 <= i < v + 1 && has_vehicle_id(#[trigger] vehicles@[i], x) {
                    let i = choose|i: int| 0 <= i < v + 1 && has_vehicle_id(#[trigger] vehicles@[i], x);
                    if i == v {
                        let k = choose|k: int| 0 <= k < vehicle_ids.len() && (#[trigger] vehicle_ids@[k])@ == x;
                        assert(vehicle_ids@[k]@ == x);
                    }
                }
            }
        }
        v = v + 1;
    }
    proof {
        lemma_vehicle_index(vehicles@, Seq::empty());
        assert forall|x: Seq<char>| #[trigger] string_set_items(ids).contains(x) <==> vehicle_index(vehicles@, x) is Some by {
            lemma_vehicle_index(vehicles@, x);
        }
    }
    ids
}

/// Checks that vehicles in each tour are used once per shift and they are known in problem.
pub fn check_vehicles(ctx: &CheckerContext) -> (result: Result<(), String>)
    ensures
        result_view(result) == first_error_of(ctx.solution.tours.len() as nat, vehicle_use_rules(*ctx)),
{
    let all_vehicles = all_vehicle_ids(ctx);
    let mut used_vehicles = TourKeySet::new();
    let tours = &ctx.solution.tours;
    let mut t: usize = 0;
    while t < tours.len()
        invariant
            t <= tours.len(),
            tours == &ctx.solution.tours,
            forall|x: Seq<char>| #[trigger] string_set_items(all_vehicles).contains(x) <==> vehicle_index(
                ctx.problem.fleet.vehicles@,
                x,
            ) is Some,
            forall|key: (Seq<char>, usize)| #[trigger] tour_key_set_items(used_vehicles).contains(key) <==> exists|u: int|
                0 <= u < t && is_tour_of(#[trigger] tours@[u], key.0, key.1),
            first_error_of(t as nat, vehicle_use_rules(*ctx)) is Ok,
        decreases tours.len() - t,
    {
        let tour = &tours[t];
        let ghost rule = vehicle_use_rule(*ctx, t as int);
        if !all_vehicles.contains(tour.vehicle_id.as_str()) {
            let mut message = String::from_str("used vehicle with unknown id: '");
            message.append(tour.vehicle_id.as_str());
            message.append("'");
            proof {
                assert(vehicle_use_rules(*ctx)(t as int) == result_view(Err(message)));
                lemma_first_error_stays((t + 1) as nat, tours.len() as nat, vehicle_use_rules(*ctx));
            }
            return Err(message);
        }
        let added = used_vehicles.insert(tour.vehicle_id.clone(), tour.shift_index);
        if !added {
            let mut message = String::from_str("vehicle with '");
            message.append(tour.vehicle_id.as_str());
            message.append("' id used more than once for shift ");
            message.append(usize_to_string(tour.shift_index).as_str());
            proof {
                assert(vehicle_use_rules(*ctx)(t as int) == result_view(Err(message)));
                lemma_first_error_stays((t + 1) as nat, tours.len() as nat, vehicle_use_rules(*ctx));
            }
            return Err(message);
        }
        proof {
            assert(vehicle_use_rules(*ctx)(t as int) is Ok);
            assert forall|key: (Seq<char>, usize)| #[trigger] tour_key_set_items(used_vehicles).contains(key) <==> exists|u: int|
                0 <= u < t + 1 && is_tour_of(#[trigger] tours@[u], key.0, key.1) by {
                if key == (tour.vehicle_id@, tour.shift_index) {
                    assert(is_tour_of(tours@[t as int], key.0, key.1));
                }
            }
        }
        t = t + 1;
    }
    Ok(())
}

// endregion

// region Groups

/// A tour's key for group usage: its vehicle type, vehicle and shift.
pub open spec fn tour_usage_key(tour: Tour) -> (Seq<char>, Seq<char>, usize) {
    (tour.type_id@, tour.vehicle_id@, tour.shift_index)
}

/// The group of the first job with the given id.
pub open spec fn job_group(ctx: CheckerContext, id: Seq<char>) -> Option<Seq<char>> {
    match job_index(ctx.problem.plan.jobs@, id) {
        Some(j) => match ctx.problem.plan.jobs@[j].group {
            Some(g) => Some(g@),
            None => None,
        },
        None => None,
    }
}

/// Group usage: the tour keys seen per group, and the groups in order of first use.
pub struct GroupUsage {
    pub usage: Map<Seq<char>, Set<(Seq<char>, Seq<char>, usize)>>,
    pub order: Seq<Seq<char>>,
}

/// Records one activity of a tour.
pub open spec fn group_step(ctx: CheckerContext, state: GroupUsage, key: (Seq<char>, Seq<char>, usize), activity: Activity) -> GroupUsage {
    match job_group(ctx, activity.job_id@) {
        None => state,
        Some(g) => GroupUsage {
            usage: state.usage.insert(
                g,
                if state.usage.contains_key(g) {
                    state.usage[g]
                } else {
                    Set::empty()
                }.insert(key),
            ),
            order: if state.usage.contains_key(g) {
                state.order
            } else {
                state.order.push(g)
            },
        },
    }
}

/// Records the first `n` activities of a tour.
pub open spec fn group_tour(ctx: CheckerContext, state: GroupUsage, tour: Tour, n: nat) -> GroupUsage
    decreases n,
{
    if n == 0 {
        state
    } else {
        group_step(
            ctx,
            group_tour(ctx, state, tour, (n - 1) as nat),
            tour_usage_key(tour),
            stops_activities(tour.stops@)[n - 1],
        )
    }
}

/// Records the activities of the first `m` tours.
pub open spec fn group_tours(ctx: CheckerContext, m: nat) -> GroupUsage
    decreases m,
{
    if m == 0 {
        GroupUsage { usage: Map::empty(), order: Seq::empty() }
    } else {
        let tour = ctx.solution.tours@[m - 1];
        group_tour(ctx, group_tours(ctx, (m - 1) as nat), tour, stops_activities(tour.stops@).len())
    }
}

/// The groups used by more than one tour, in order of first use.
pub open spec fn shared_groups(usage: Map<Seq<char>, Set<(Seq<char>, Seq<char>, usize)>>, order: Seq<Seq<char>>) -> Seq<Seq<char>>
    decreases order.len(),
{
    if order.len() == 0 {
        Seq::empty()
    } else {
        let rest = shared_groups(usage, order.drop_last());
        if usage[order.last()].len() > 1 {
            rest.push(order.last())
        } else {
            rest
        }
    }
}

/// Items joined with commas.
pub open spec fn join_commas(items: Seq<Seq<char>>) -> Seq<char>
    decreases items.len(),
{
    if items.len() == 0 {
        Seq::empty()
    } else if items.len() == 1 {
        items[0]
    } else {
        join_commas(items.drop_last()) + ","@ + items.last()
    }
}

/// The outcome of the group rule: every group is served by a single tour.
pub open spec fn groups_outcome(ctx: CheckerContext) -> Result<(), Seq<char>> {
    let state = group_tours(ctx, ctx.solution.tours.len() as nat);
    let shared = shared_groups(state.usage, state.order);
    if shared.len() == 0 {
        Ok(())
    } else {
        Err("job groups are not respected: '"@ + join_commas(shared) + "'"@)
    }
}

/// Checks that the jobs of a group are served by one tour only.
pub fn check_groups(ctx: &CheckerContext) -> (result: Result<(), String>)
    ensures
        result_view(result) == groups_outcome(*ctx),
{
    let tours = &ctx.solution.tours;
    let mut usage = GroupUsageMap::new();
    let mut order: Vec<String> = Vec::new();
    let mut seen = StringSet::new();
    proof {
        assert(group_usage_entries(usage) =~= Map::empty());
        assert(string_set_items(seen) =~= group_usage_entries(usage).dom());
    }
    let mut t: usize = 0;
    while t < tours.len()
        invariant
            t <= tours.len(),
            tours == &ctx.solution.tours,
            group_usage_entries(usage) == group_tours(*ctx, t as nat).usage,
            views(order@) == group_tours(*ctx, t as nat).order,
            string_set_items(seen) == group_usage_entries(usage).dom(),
            forall|i: int| 0 <= i < order@.len() ==> group_usage_entries(usage).contains_key(#[trigger] order@[i]@),
        decreases tours.len() - t,
    {
        let tour = &tours[t];
        let ghost acts = stops_activities(tour.stops@);
        let ghost start = group_tours(*ctx, t as nat);
        let ghost mut idx: int = 0;
        let mut s: usize = 0;
        while s < tour.stops.len()
            invariant
                s <= tour.stops.len(),
                t < tours.len(),
                tour == &tours@[t as int],
                acts == stops_activities(tour.stops@),
                idx == stops_activities(tour.stops@.take(s as int)).len(),
                group_usage_entries(usage) == group_tour(*ctx, start, *tour, idx as nat).usage,
                views(order@) == group_tour(*ctx, start, *tour, idx as nat).order,
                string_set_items(seen) == group_usage_entries(usage).dom(),
            forall|i: int| 0 <= i < order@.len() ==> group_usage_entries(usage).contains_key(#[trigger] order@[i]@),
            decreases tour.stops.len() - s,
        {
            let stop = &tour.stops[s];
            let mut a: usize = 0;
            while a < stop.activities.len()
                invariant
                    s < tour.stops.len(),
                    stop == &tour.stops@[s as int],
                    a <= stop.activities.len(),
                    acts == stops_activities(tour.stops@),
                    idx == stops_activities(tour.stops@.take(s as int)).len() + a,
                    group_usage_entries(usage) == group_tour(*ctx, start, *tour, idx as nat).usage,
                    views(order@) == group_tour(*ctx, start, *tour, idx as nat).order,
                    string_set_items(seen) == group_usage_entries(usage).dom(),
            forall|i: int| 0 <= i < order@.len() ==> group_usage_entries(usage).contains_key(#[trigger] order@[i]@),
                decreases stop.activities.len() - a,
            {
                let activity = &stop.activities[a];
                proof {
                    lemma_stops_activities_at(tour.stops@, s as int, a as int);
                    assert(acts[idx as int] == *activity);
                }
                match ctx.get_job_by_id(activity.job_id.as_str()) {
                    Some(job) => match &job.group {
                        Some(group) => {
                            let is_new = seen.insert(group.clone());
                            usage.add(group.clone(), (tour.type_id.clone(), tour.vehicle_id.clone(), tour.shift_index));
                            if is_new {
                                order.push(group.clone());
                            }
                            proof {
                                assert(string_set_items(seen) =~= group_usage_entries(usage).dom());
                                assert(views(order@) =~= group_tour(*ctx, start, *tour, (idx + 1) as nat).order);
                                assert(group_usage_entries(usage) =~= group_tour(*ctx, start, *tour, (idx + 1) as nat).usage);
                            }
                        },
                        None => {},
                    },
                    None => {},
                }
                a = a + 1;
                proof {
                    idx = idx + 1;
                }
            }
            proof {
                if s < tour.stops.len() {
                    assert(tour.stops@.take(s + 1).drop_last() =~= tour.stops@.take(s as int));
                    assert(tour.stops@.take(s + 1).last() == *stop);
                }
            }
            s = s + 1;
        }
        proof {
            assert(tour.stops@.take(s as int) =~= tour.stops@);
        }
        t = t + 1;
    }
    let mut shared: Vec<String> = Vec::new();
    let mut g: usize = 0;
    while g < order.len()
        invariant
            g <= order.len(),
            forall|i: int| 0 <= i < order@.len() ==> group_usage_entries(usage).contains_key(#[trigger] order@[i]@),
            views(shared@) == shared_groups(group_usage_entries(usage), views(order@).take(g as int)),
        decreases order.len() - g,
    {
        proof {
            assert(views(order@).take(g + 1).drop_last() =~= views(order@).take(g as int));
            assert(views(order@).take(g + 1).last() == order@[g as int]@);
        }
        let count = match usage.usage_count(order[g].as_str()) {
            Some(count) => count,
            None => 0,
        };
        if count > 1 {
            shared.push(order[g].clone());
            proof {
                assert(views(shared@) =~= shared_groups(group_usage_entries(usage), views(order@).take(g + 1)));
            }
        } else {
            proof {
                assert(group_usage_entries(usage).contains_key(order@[g as int]@));
            }
        }
        g = g + 1;
    }
    proof {
        assert(views(order@).take(g as int) =~= views(order@));
    }
    if shared.len() == 0 {
        Ok(())
    } else {
        let mut message = String::from_str("job groups are not respected: '");
        message.append(join_with_commas(&shared).as_str());
        message.append("'");
        Err(message)
    }
}

/// Joins the items with commas.
fn join_with_commas(items: &Vec<String>) -> (joined: String)
    ensures
        joined@ == join_commas(views(items@)),
{
    let mut joined = String::new();
    let mut idx: usize = 0;
    while idx < items.len()
        invariant
            idx <= items.len(),
            joined@ == join_commas(views(items@).take(idx as int)),
        decreases items.len() - idx,
    {
        proof {
            assert(views(items@).take(idx + 1).drop_last() =~= views(items@).take(idx as int));
            assert(views(items@).take(idx + 1).last() == items@[idx as int]@);
        }
        if idx > 0 {
            joined.append(",");
        } else {
            proof {
                assert(views(items@).take(1)[0] == items@[0]@);
            }
        }
        joined.append(items[idx].as_str());
        idx = idx + 1;
    }
    proof {
        assert(views(items@).take(idx as int) =~= views(items@));
    }
    joined
}


/// Every group of the usage has a finite set of tour keys and is in the order.
pub open spec fn usage_wf(state: GroupUsage) -> bool {
    forall|g: Seq<char>| #[trigger] state.usage.contains_key(g) ==> state.usage[g].finite() && state.order.contains(g)
}

/// A tour key recorded for a group.
pub open spec fn records(state: GroupUsage, g: Seq<char>, key: (Seq<char>, Seq<char>, usize)) -> bool {
    state.usage.contains_key(g) && state.usage[g].contains(key)
}

/// Recording activities of a tour keeps what was recorded, stays well formed, and
/// records the tour's key for the group of each of the activities.
proof fn lemma_group_tour_records(ctx: CheckerContext, state: GroupUsage, tour: Tour, n: nat)
    requires
        usage_wf(state),
        n <= stops_activities(tour.stops@).len(),
    ensures
        usage_wf(group_tour(ctx, state, tour, n)),
        forall|g: Seq<char>, k: (Seq<char>, Seq<char>, usize)| #[trigger] records(state, g, k) ==> records(
            group_tour(ctx, state, tour, n),
            g,
            k,
        ),
        forall|a: int| #![trigger stops_activities(tour.stops@)[a]]
            0 <= a < n && job_group(ctx, stops_activities(tour.stops@)[a].job_id@) is Some ==> records(
                group_tour(ctx, state, tour, n),
                job_group(ctx, stops_activities(tour.stops@)[a].job_id@)->Some_0,
                tour_usage_key(tour),
            ),
    decreases n,
{
    if n > 0 {
        let before = group_tour(ctx, state, tour, (n - 1) as nat);
        let after = group_tour(ctx, state, tour, n);
        lemma_group_tour_records(ctx, state, tour, (n - 1) as nat);
        match job_group(ctx, stops_activities(tour.stops@)[n - 1].job_id@) {
            None => {},
            Some(g) => {
                assert(after == group_step(ctx, before, tour_usage_key(tour), stops_activities(tour.stops@)[n - 1]));
                assert forall|h: Seq<char>| #[trigger] after.usage.contains_key(h) implies after.usage[h].finite()
                    && after.order.contains(h) by {
                    if before.usage.contains_key(h) {
                        let i = before.order.index_of(h);
                        assert(after.order[i] == h);
                    } else {
                        assert(h == g);
                        assert(after.order[after.order.len() - 1] == g);
                    }
                }
                assert forall|h: Seq<char>, k: (Seq<char>, Seq<char>, usize)| #[trigger] records(before, h, k) implies records(
                    after,
                    h,
                    k,
                ) by {
                    if h == g {
                        assert(after.usage[g] == before.usage[g].insert(tour_usage_key(tour)));
                    }
                }
            },
        }
    }
}

/// Recording the activities of the first `m` tours records each tour's key for
/// the group of each of its activities.
proof fn lemma_group_tours_record(ctx: CheckerContext, m: nat)
    requires
        m <= ctx.solution.tours.len(),
    ensures
        usage_wf(group_tours(ctx, m)),
        forall|t: int, a: int| #![trigger stops_activities(ctx.solution.tours@[t].stops@)[a]]
            0 <= t < m && 0 <= a < stops_activities(ctx.solution.tours@[t].stops@).len() && job_group(
                ctx,
                stops_activities(ctx.solution.tours@[t].stops@)[a].job_id@,
            ) is Some ==> records(
                group_tours(ctx, m),
                job_group(ctx, stops_activities(ctx.solution.tours@[t].stops@)[a].job_id@)->Some_0,
                tour_usage_key(ctx.solution.tours@[t]),
            ),
    decreases m,
{
    if m > 0 {
        let tour = ctx.solution.tours@[m - 1];
        let before = group_tours(ctx, (m - 1) as nat);
        lemma_group_tours_record(ctx, (m - 1) as nat);
        lemma_group_tour_records(ctx, before, tour, stops_activities(tour.stops@).len());
    }
}

/// Without shared groups, every group in the order has at most one tour key.
proof fn lemma_no_shared_groups(usage: Map<Seq<char>, Set<(Seq<char>, Seq<char>, usize)>>, order: Seq<Seq<char>>)
    requires
        shared_groups(usage, order).len() == 0,
    ensures
        forall|i: int| 0 <= i < order.len() ==> usage[#[trigger] order[i]].len() <= 1,
    decreases order.len(),
{
    if order.len() > 0 {
        lemma_no_shared_groups(usage, order.drop_last());
        assert forall|i: int| 0 <= i < order.len() implies usage[#[trigger] order[i]].len() <= 1 by {
            if i < order.len() - 1 {
                assert(order[i] == order.drop_last()[i]);
            }
        }
    }
}

/// Job groups are respected: when the group check passes, any two activities of
/// jobs of the same group are served by the same tour (vehicle type, vehicle and
/// shift).
pub proof fn lemma_groups_served_by_one_tour(ctx: CheckerContext, t1: int, a1: int, t2: int, a2: int)
    requires
        groups_outcome(ctx) is Ok,
        0 <= t1 < ctx.solution.tours.len(),
        0 <= t2 < ctx.solution.tours.len(),
        0 <= a1 < stops_activities(ctx.solution.tours@[t1].stops@).len(),
        0 <= a2 < stops_activities(ctx.solution.tours@[t2].stops@).len(),
        job_group(ctx, stops_activities(ctx.solution.tours@[t1].stops@)[a1].job_id@) is Some,
        job_group(ctx, stops_activities(ctx.solution.tours@[t1].stops@)[a1].job_id@) == job_group(
            ctx,
            stops_activities(ctx.solution.tours@[t2].stops@)[a2].job_id@,
        ),
    ensures
        tour_usage_key(ctx.solution.tours@[t1]) == tour_usage_key(ctx.solution.tours@[t2]),
{
    let m = ctx.solution.tours.len() as nat;
    let state = group_tours(ctx, m);
    let g = job_group(ctx, stops_activities(ctx.solution.tours@[t1].stops@)[a1].job_id@)->Some_0;
    let k1 = tour_usage_key(ctx.solution.tours@[t1]);
    let k2 = tour_usage_key(ctx.solution.tours@[t2]);
    lemma_group_tours_record(ctx, m);
    assert(records(state, g, k1));
    assert(records(state, g, k2));
    lemma_no_shared_groups(state.usage, state.order);
    let i = state.order.index_of(g);
    assert(state.usage[state.order[i]].len() <= 1);
    if k1 != k2 {
        let both = Set::empty().insert(k1).insert(k2);
        assert(both.subset_of(state.usage[g]));
        vstd::set_lib::lemma_len_subset(both, state.usage[g]);
        assert(both.len() == 2);
    }
}

// endregion


// region Presence

/// Whether an activity type names a job task.
pub open spec fn is_job_activity_type(kind: Seq<char>) -> bool {
    kind == "pickup"@ || kind == "delivery"@ || kind == "service"@ || kind == "replacement"@
}

/// How a served job is served so far: the first tour serving it, the number of
/// its activities, its last pickup position and its first delivery position
/// (positions count all activities of a tour).
pub struct JobUse {
    pub tour: int,
    pub tasks: nat,
    pub last_pickup: Option<int>,
    pub first_delivery: Option<int>,
}

/// The served jobs in order of first appearance, the position of each in that
/// order, how each is served, and the error found, if any.
pub struct Presence {
    pub order: Seq<Seq<char>>,
    pub pos: Map<Seq<char>, usize>,
    pub uses: Seq<JobUse>,
    pub error: Option<Seq<char>>,
}

/// Whether two tours have the same vehicle and shift.
pub open spec fn same_tour_info(a: Tour, b: Tour) -> bool {
    a.vehicle_id@ == b.vehicle_id@ && a.shift_index == b.shift_index
}

/// Message for a job whose activities are in tours of different vehicles or shifts.
pub open spec fn multiple_tours_msg(id: Seq<char>) -> Seq<char> {
    "job served in multiple tours: '"@ + id + "'"@
}

/// Adds one activity of the given kind at position `idx` to a job's use.
pub open spec fn record_task(u: JobUse, kind: Seq<char>, idx: int) -> JobUse {
    JobUse {
        tour: u.tour,
        tasks: u.tasks + 1,
        last_pickup: if kind == "pickup"@ {
            match u.last_pickup {
                Some(p) => Some(if p < idx { idx } else { p }),
                None => Some(idx),
            }
        } else {
            u.last_pickup
        },
        first_delivery: if kind == "delivery"@ {
            match u.first_delivery {
                Some(d) => Some(if idx < d { idx } else { d }),
                None => Some(idx),
            }
        } else {
            u.first_delivery
        },
    }
}

/// Records the activity at position `idx` of tour `t`.
pub open spec fn presence_step(tours: Seq<Tour>, state: Presence, t: int, idx: int, activity: Activity) -> Presence {
    if state.error is Some || !is_job_activity_type(activity.activity_type@) {
        state
    } else {
        let id = activity.job_id@;
        let kind = activity.activity_type@;
        if state.pos.contains_key(id) {
            let k = state.pos[id] as int;
            if same_tour_info(tours[state.uses[k].tour], tours[t]) {
                Presence {
                    order: state.order,
                    pos: state.pos,
                    uses: state.uses.update(k, record_task(state.uses[k], kind, idx)),
                    error: None,
                }
            } else {
                Presence { order: state.order, pos: state.pos, uses: state.uses, error: Some(multiple_tours_msg(id)) }
            }
        } else {
            let fresh = JobUse { tour: t, tasks: 0, last_pickup: None, first_delivery: None };
            Presence {
                order: state.order.push(id),
                pos: state.pos.insert(id, state.order.len() as usize),
                uses: state.uses.push(record_task(fresh, kind, idx)),
                error: None,
            }
        }
    }
}

/// Records the first `n` activities of tour `t`.
pub open spec fn presence_tour(tours: Seq<Tour>, state: Presence, t: int, n: nat) -> Presence
    decreases n,
{
    if n == 0 {
        state
    } else {
        presence_step(
            tours,
            presence_tour(tours, state, t, (n - 1) as nat),
            t,
            n - 1,
            stops_activities(tours[t].stops@)[n - 1],
        )
    }
}

/// Records the activities of the first `m` tours.
pub open spec fn presence_tours(tours: Seq<Tour>, m: nat) -> Presence
    decreases m,
{
    if m == 0 {
        Presence { order: Seq::empty(), pos: Map::empty(), uses: Seq::empty(), error: None }
    } else {
        presence_tour(
            tours,
            presence_tours(tours, (m - 1) as nat),
            m - 1,
            stops_activities(tours[m - 1].stops@).len(),
        )
    }
}

/// The number of activities of all tours.
pub open spec fn activity_total(tours: Seq<Tour>) -> nat
    decreases tours.len(),
{
    if tours.len() == 0 {
        0
    } else {
        activity_total(tours.drop_last()) + stops_activities(tours.last().stops@).len()
    }
}

/// Job ids mapped to the index of the last job with that id.
pub open spec fn job_id_index(jobs: Seq<Job>) -> Map<Seq<char>, usize>
    decreases jobs.len(),
{
    if jobs.len() == 0 {
        Map::empty()
    } else {
        job_id_index(jobs.drop_last()).insert(jobs.last().id@, (jobs.len() - 1) as usize)
    }
}

/// Message for a served job the plan does not know.
pub open spec fn unknown_served_job_msg(id: Seq<char>) -> Seq<char> {
    "cannot find job with id "@ + id
}

/// Message for a job with a different number of served and planned tasks.
pub open spec fn tasks_mismatch_msg(id: Seq<char>, expected: nat, assigned: nat) -> Seq<char> {
    "not all tasks served for '"@ + id + "', expected: "@ + decimal(expected) + ", assigned: "@ + decimal(assigned)
}

/// Message for a job with a pickup after one of its deliveries.
pub open spec fn pickup_after_delivery_msg(id: Seq<char>) -> Seq<char> {
    "found pickup after delivery for '"@ + id + "'"@
}

/// The rule for the `k`-th served job: the plan knows it, all its tasks are
/// served, and no pickup comes after a delivery.
pub open spec fn served_job_rule(jobs: Seq<Job>, state: Presence, k: int) -> Result<(), Seq<char>> {
    let id = state.order[k];
    let u = state.uses[k];
    let index = job_id_index(jobs);
    if !index.contains_key(id) {
        Err(unknown_served_job_msg(id))
    } else if job_tasks(jobs[index[id] as int]) != u.tasks {
        Err(tasks_mismatch_msg(id, job_tasks(jobs[index[id] as int]), u.tasks))
    } else {
        match (u.last_pickup, u.first_delivery) {
            (Some(p), Some(d)) => if p > d {
                Err(pickup_after_delivery_msg(id))
            } else {
                Ok(())
            },
            _ => Ok(()),
        }
    }
}

pub open spec fn served_job_rules(jobs: Seq<Job>, state: Presence) -> spec_fn(int) -> Result<(), Seq<char>> {
    |k: int| served_job_rule(jobs, state, k)
}

/// The ids of the first `n` unassigned jobs, breaks left out.
pub open spec fn listed_unassigned(items: Seq<UnassignedJob>, n: nat) -> Seq<Seq<char>>
    decreases n,
{
    if n == 0 {
        Seq::empty()
    } else {
        let rest = listed_unassigned(items, (n - 1) as nat);
        if ends_with(items[n - 1].job_id@, "_break"@) {
            rest
        } else {
            rest.push(items[n - 1].job_id@)
        }
    }
}

/// The ids of the unassigned jobs of a solution, breaks left out.
pub open spec fn unassigned_ids(unassigned: Option<Vec<UnassignedJob>>) -> Seq<Seq<char>> {
    match unassigned {
        Some(items) => listed_unassigned(items@, items.len() as nat),
        None => Seq::empty(),
    }
}

/// Message for an unassigned job the plan does not know.
pub open spec fn unknown_unassigned_msg(id: Seq<char>) -> Seq<char> {
    "unknown job id in the list of unassigned jobs: '"@ + id + "'"@
}

/// Message for a job both served and listed as unassigned.
pub open spec fn assigned_and_unassigned_msg(id: Seq<char>) -> Seq<char> {
    "job present as assigned and unassigned: '"@ + id + "'"@
}

/// Message for an unassigned job listed twice.
pub open spec fn duplicated_unassigned_msg() -> Seq<char> {
    "duplicated job ids in the list of unassigned jobs"@
}

/// Message when the number of jobs in problem and solution differ.
pub open spec fn job_count_msg(planned: nat, present: nat) -> Seq<char> {
    "amount of jobs present in problem and solution doesn't match: "@ + decimal(planned) + " vs "@ + decimal(present)
}

/// The rule for the `i`-th unassigned job: the plan knows it and no tour serves it.
pub open spec fn unassigned_rule(jobs: Seq<Job>, state: Presence, ids: Seq<Seq<char>>, i: int) -> Result<(), Seq<char>> {
    let id = ids[i];
    if !job_id_index(jobs).contains_key(id) {
        Err(unknown_unassigned_msg(id))
    } else if state.pos.contains_key(id) {
        Err(assigned_and_unassigned_msg(id))
    } else {
        Ok(())
    }
}

pub open spec fn unassigned_rules(jobs: Seq<Job>, state: Presence, ids: Seq<Seq<char>>) -> spec_fn(int) -> Result<(), Seq<char>> {
    |i: int| unassigned_rule(jobs, state, ids, i)
}

/// The outcome of the presence rules: each job is served by one tour only, with
/// all its tasks and pickups before deliveries, or listed once as unassigned,
/// and every job of the plan is either served or unassigned. Served jobs are
/// checked in the order they are first served, unassigned ones in list order.
pub open spec fn presence_outcome(ctx: CheckerContext) -> Result<(), Seq<char>> {
    let tours = ctx.solution.tours@;
    let jobs = ctx.problem.plan.jobs@;
    let state = presence_tours(tours, tours.len() as nat);
    let ids = unassigned_ids(ctx.solution.unassigned);
    match state.error {
        Some(e) => Err(e),
        None => match first_error_of(state.order.len(), served_job_rules(jobs, state)) {
            Err(e) => Err(e),
            Ok(_) => if !ids.no_duplicates() {
                Err(duplicated_unassigned_msg())
            } else {
                match first_error_of(ids.len(), unassigned_rules(jobs, state, ids)) {
                    Err(e) => Err(e),
                    Ok(_) => if ids.len() + state.order.len() != job_id_index(jobs).dom().len() {
                        Err(job_count_msg(job_id_index(jobs).dom().len(), ids.len() + state.order.len()))
                    } else {
                        Ok(())
                    },
                }
            },
        },
    }
}

/// The facts of a presence state that recording keeps: each served job sits once
/// in the order at its position, was first served by one of the first `tours`
/// tours, and has at most `processed` activities.
pub open spec fn presence_wf(state: Presence, tours: int, processed: nat) -> bool {
    &&& state.order.len() == state.uses.len()
    &&& forall|id: Seq<char>| #[trigger] state.pos.contains_key(id) ==> state.pos[id] < state.order.len()
        && state.order[state.pos[id] as int] == id
    &&& forall|k: int| 0 <= k < state.order.len() ==> state.pos.contains_key(#[trigger] state.order[k])
    &&& forall|k: int| 0 <= k < state.uses.len() ==> 0 <= (#[trigger] state.uses[k]).tour < tours
        && state.uses[k].tasks <= processed
}

/// Once an error is recorded, recording more activities keeps the state.
pub proof fn lemma_presence_tour_stuck(tours: Seq<Tour>, state: Presence, t: int, n: nat)
    requires
        state.error is Some,
    ensures
        presence_tour(tours, state, t, n) == state,
    decreases n,
{
    if n > 0 {
        lemma_presence_tour_stuck(tours, state, t, (n - 1) as nat);
    }
}

/// An error found among the first `n` activities of a tour is the error after `m` of them.
pub proof fn lemma_presence_tour_tail(tours: Seq<Tour>, state: Presence, t: int, n: nat, m: nat)
    requires
        n <= m,
        presence_tour(tours, state, t, n).error is Some,
    ensures
        presence_tour(tours, state, t, m) == presence_tour(tours, state, t, n),
    decreases m,
{
    if m > n {
        lemma_presence_tour_tail(tours, state, t, n, (m - 1) as nat);
    }
}

/// An error found in the first `n` tours is the error after `m` tours.
pub proof fn lemma_presence_tours_tail(tours: Seq<Tour>, n: nat, m: nat)
    requires
        n <= m,
        presence_tours(tours, n).error is Some,
    ensures
        presence_tours(tours, m) == presence_tours(tours, n),
    decreases m,
{
    if m > n {
        lemma_presence_tours_tail(tours, n, (m - 1) as nat);
        lemma_presence_tour_stuck(
            tours,
            presence_tours(tours, (m - 1) as nat),
            m - 1,
            stops_activities(tours[m - 1].stops@).len(),
        );
    }
}

/// The activities of the first `t` tours are no more than those of all tours.
pub proof fn lemma_activity_total_prefix(tours: Seq<Tour>, t: int)
    requires
        0 <= t < tours.len(),
    ensures
        activity_total(tours.take(t + 1)) == activity_total(tours.take(t)) + stops_activities(tours[t].stops@).len(),
        activity_total(tours.take(t + 1)) <= activity_total(tours),
    decreases tours.len(),
{
    assert(tours.take(t + 1).drop_last() =~= tours.take(t));
    assert(tours.take(t + 1).last() == tours[t]);
    if t + 1 < tours.len() {
        lemma_activity_total_prefix(tours.drop_last(), t);
        assert(tours.drop_last().take(t + 1) =~= tours.take(t + 1));
    } else {
        assert(tours.take(t + 1) =~= tours);
    }
}


/// Returns the number of activities of all tours, `None` where it does not fit
/// in `usize`.
pub fn activity_total_of(tours: &Vec<Tour>) -> (total: Option<usize>)
    ensures
        match total {
            Some(n) => n == activity_total(tours@),
            None => activity_total(tours@) > usize::MAX,
        },
{
    let mut total: usize = 0;
    let mut t: usize = 0;
    while t < tours.len()
        invariant
            t <= tours.len(),
            total == activity_total(tours@.take(t as int)),
        decreases tours.len() - t,
    {
        proof {
            lemma_activity_total_prefix(tours@, t as int);
        }
        let stops = &tours[t].stops;
        let ghost base = total as int;
        let mut s: usize = 0;
        while s < stops.len()
            invariant
                t < tours.len(),
                stops == &tours@[t as int].stops,
                s <= stops.len(),
                base == activity_total(tours@.take(t as int)),
                total == base + stops_activities(stops@.take(s as int)).len(),
                activity_total(tours@.take(t + 1)) == base + stops_activities(stops@).len(),
                activity_total(tours@.take(t + 1)) <= activity_total(tours@),
            decreases stops.len() - s,
        {
            proof {
                assert(stops@.take(s + 1).drop_last() =~= stops@.take(s as int));
                assert(stops@.take(s + 1).last() == stops@[s as int]);
            }
            let count = stops[s].activities.len();
            if count > usize::MAX - total {
                proof {
                    crate::checker::lemma_stops_activities_prefix(stops@, (s + 1) as nat);
                }
                return None;
            }
            total = total + count;
            s = s + 1;
        }
        proof {
            assert(stops@.take(s as int) =~= stops@);
        }
        t = t + 1;
    }
    proof {
        assert(tours@.take(t as int) =~= tours@);
    }
    Some(total)
}

/// The served jobs as recorded while walking the tours; entry `k` of each list
/// belongs to the `k`-th job of `order`.
struct ServedJobs {
    positions: IndexMap,
    order: Vec<String>,
    first_tour: Vec<usize>,
    tasks: Vec<usize>,
    last_pickup: Vec<Option<usize>>,
    first_delivery: Vec<Option<usize>>,
}

/// An optional position as an integer.
pub open spec fn opt_int(o: Option<usize>) -> Option<int> {
    match o {
        Some(v) => Some(v as int),
        None => None,
    }
}

/// Whether the recorded served jobs are the presence state, which has no error.
spec fn served_matches(served: ServedJobs, state: Presence) -> bool {
    &&& state.error is None
    &&& views(served.order@) == state.order
    &&& index_map_entries(served.positions) == state.pos
    &&& served.first_tour@.len() == state.uses.len()
    &&& served.tasks@.len() == state.uses.len()
    &&& served.last_pickup@.len() == state.uses.len()
    &&& served.first_delivery@.len() == state.uses.len()
    &&& forall|k: int| 0 <= k < state.uses.len() ==> #[trigger] state.uses[k] == (JobUse {
        tour: served.first_tour@[k] as int,
        tasks: served.tasks@[k] as nat,
        last_pickup: opt_int(served.last_pickup@[k]),
        first_delivery: opt_int(served.first_delivery@[k]),
    })
}

/// Records the activity at position `idx` of tour `t`.
fn record_activity(
    served: &mut ServedJobs,
    tours: &Vec<Tour>,
    t: usize,
    idx: usize,
    activity: &Activity,
    Ghost(state): Ghost<Presence>,
    Ghost(processed): Ghost<nat>,
) -> (result: Result<(), String>)
    requires
        t < tours.len(),
        served_matches(*old(served), state),
        presence_wf(state, t + 1, processed),
        processed < usize::MAX,
    ensures
        match result {
            Ok(_) => served_matches(*final(served), presence_step(tours@, state, t as int, idx as int, *activity))
                && presence_wf(presence_step(tours@, state, t as int, idx as int, *activity), t + 1, processed + 1),
            Err(e) => presence_step(tours@, state, t as int, idx as int, *activity).error == Some(e@),
        },
{
    let kind = activity.activity_type.as_str();
    let is_pickup = str_equal(kind, "pickup");
    let is_delivery = str_equal(kind, "delivery");
    if !(is_pickup || is_delivery || str_equal(kind, "service") || str_equal(kind, "replacement")) {
        return Ok(());
    }
    let ghost next = presence_step(tours@, state, t as int, idx as int, *activity);
    let k: usize;
    match served.positions.get(activity.job_id.as_str()) {
        Some(found) => {
            proof {
                assert(state.pos.contains_key(activity.job_id@));
                assert(state.uses[found as int].tour == served.first_tour@[found as int]);
            }
            let first = served.first_tour[found];
            if !str_equal(tours[first].vehicle_id.as_str(), tour_vehicle(tours, t)) || tours[first].shift_index
                != tours[t].shift_index {
                let mut message = String::from_str("job served in multiple tours: '");
                message.append(activity.job_id.as_str());
                message.append("'");
                return Err(message);
            }
            k = found;
        },
        None => {
            k = served.order.len();
            served.positions.insert(activity.job_id.clone(), k);
            served.order.push(activity.job_id.clone());
            served.first_tour.push(t);
            served.tasks.push(0);
            served.last_pickup.push(None);
            served.first_delivery.push(None);
            proof {
                assert(views(served.order@) =~= state.order.push(activity.job_id@));
            }
        },
    }
    let count = served.tasks[k];
    served.tasks.set(k, count + 1);
    if is_pickup {
        let p = match served.last_pickup[k] {
            Some(p) => if p < idx {
                idx
            } else {
                p
            },
            None => idx,
        };
        served.last_pickup.set(k, Some(p));
    }
    if is_delivery {
        let d = match served.first_delivery[k] {
            Some(d) => if idx < d {
                idx
            } else {
                d
            },
            None => idx,
        };
        served.first_delivery.set(k, Some(d));
    }
    proof {
        assert(next.uses.len() == served.tasks@.len());
        assert forall|j: int| 0 <= j < next.uses.len() implies #[trigger] next.uses[j] == (JobUse {
            tour: served.first_tour@[j] as int,
            tasks: served.tasks@[j] as nat,
            last_pickup: opt_int(served.last_pickup@[j]),
            first_delivery: opt_int(served.first_delivery@[j]),
        }) by {}
        assert(next.uses =~= next.uses);
    }
    Ok(())
}

/// The vehicle id of tour `t`.
fn tour_vehicle(tours: &Vec<Tour>, t: usize) -> (id: &str)
    requires
        t < tours.len(),
    ensures
        id@ == tours@[t as int].vehicle_id@,
{
    tours[t].vehicle_id.as_str()
}


/// Walks the activities of all tours and records the served jobs, stopping at a
/// job served by tours of different vehicles or shifts.
fn record_served_jobs(tours: &Vec<Tour>) -> (result: Result<ServedJobs, String>)
    requires
        activity_total(tours@) <= usize::MAX,
    ensures
        match result {
            Ok(served) => served_matches(served, presence_tours(tours@, tours.len() as nat)) && presence_wf(
                presence_tours(tours@, tours.len() as nat),
                tours.len() as int,
                activity_total(tours@),
            ),
            Err(e) => presence_tours(tours@, tours.len() as nat).error == Some(e@),
        },
{
    let mut served = ServedJobs {
        positions: IndexMap::new(),
        order: Vec::new(),
        first_tour: Vec::new(),
        tasks: Vec::new(),
        last_pickup: Vec::new(),
        first_delivery: Vec::new(),
    };
    proof {
        assert(index_map_entries(served.positions) =~= Map::empty());
        assert(views(served.order@) =~= Seq::empty());
        assert(tours@.take(0) =~= Seq::empty());
    }
    let mut t: usize = 0;
    while t < tours.len()
        invariant
            t <= tours.len(),
            activity_total(tours@) <= usize::MAX,
            served_matches(served, presence_tours(tours@, t as nat)),
            presence_wf(presence_tours(tours@, t as nat), t as int, activity_total(tours@.take(t as int))),
        decreases tours.len() - t,
    {
        let tour = &tours[t];
        let ghost start = presence_tours(tours@, t as nat);
        let ghost base = activity_total(tours@.take(t as int));
        proof {
            lemma_activity_total_prefix(tours@, t as int);
        }
        let mut idx: usize = 0;
        let mut s: usize = 0;
        while s < tour.stops.len()
            invariant
                s <= tour.stops.len(),
                t < tours.len(),
                tour == &tours@[t as int],
                base + stops_activities(tour.stops@).len() <= activity_total(tours@) <= usize::MAX,
                start == presence_tours(tours@, t as nat),
                idx == stops_activities(tour.stops@.take(s as int)).len(),
                idx <= stops_activities(tour.stops@).len(),
                served_matches(served, presence_tour(tours@, start, t as int, idx as nat)),
                presence_wf(presence_tour(tours@, start, t as int, idx as nat), t + 1, (base + idx) as nat),
            decreases tour.stops.len() - s,
        {
            let stop = &tour.stops[s];
            let mut a: usize = 0;
            while a < stop.activities.len()
                invariant
                    s < tour.stops.len(),
                    t < tours.len(),
                    tour == &tours@[t as int],
                    stop == &tour.stops@[s as int],
                    a <= stop.activities.len(),
                    base + stops_activities(tour.stops@).len() <= activity_total(tours@) <= usize::MAX,
                    start == presence_tours(tours@, t as nat),
                start == presence_tours(tours@, t as nat),
                    idx == stops_activities(tour.stops@.take(s as int)).len() + a,
                    served_matches(served, presence_tour(tours@, start, t as int, idx as nat)),
                    presence_wf(presence_tour(tours@, start, t as int, idx as nat), t + 1, (base + idx) as nat),
                decreases stop.activities.len() - a,
            {
                let activity = &stop.activities[a];
                proof {
                    lemma_stops_activities_at(tour.stops@, s as int, a as int);
                }
                let ghost current = presence_tour(tours@, start, t as int, idx as nat);
                match record_activity(&mut served, tours, t, idx, activity, Ghost(current), Ghost((base + idx) as nat)) {
                    Err(e) => {
                        proof {
                            let n = (idx + 1) as nat;
                            let whole = stops_activities(tour.stops@).len();
                            assert(presence_tour(tours@, start, t as int, n).error == Some(e@));
                            lemma_presence_tour_tail(tours@, start, t as int, n, whole);
                            assert(presence_tours(tours@, (t + 1) as nat) == presence_tour(tours@, start, t as int, whole));
                            lemma_presence_tours_tail(tours@, (t + 1) as nat, tours.len() as nat);
                        }
                        return Err(e);
                    },
                    Ok(_) => {},
                }
                a = a + 1;
                idx = idx + 1;
            }
            proof {
                assert(tour.stops@.take(s + 1).drop_last() =~= tour.stops@.take(s as int));
                assert(tour.stops@.take(s + 1).last() == *stop);
                super::lemma_stops_activities_prefix(tour.stops@, (s + 1) as nat);
            }
            s = s + 1;
        }
        proof {
            assert(tour.stops@.take(s as int) =~= tour.stops@);
        }
        t = t + 1;
    }
    proof {
        assert(tours@.take(t as int) =~= tours@);
    }
    Ok(served)
}


/// Each id of the job index belongs to the job at its index.
pub proof fn lemma_job_id_index(jobs: Seq<Job>)
    requires
        jobs.len() <= usize::MAX,
    ensures
        forall|id: Seq<char>| #[trigger] job_id_index(jobs).contains_key(id) ==> job_id_index(jobs)[id] < jobs.len()
            && jobs[job_id_index(jobs)[id] as int].id@ == id,
    decreases jobs.len(),
{
    if jobs.len() > 0 {
        lemma_job_id_index(jobs.drop_last());
        assert forall|id: Seq<char>| #[trigger] job_id_index(jobs).contains_key(id) implies job_id_index(jobs)[id]
            < jobs.len() && jobs[job_id_index(jobs)[id] as int].id@ == id by {
            assert(jobs.last() == jobs[jobs.len() - 1]);
            if id != jobs.last().id@ {
                assert(jobs.drop_last()[job_id_index(jobs.drop_last())[id] as int] == jobs[job_id_index(
                    jobs.drop_last(),
                )[id] as int]);
            }
        }
    }
}

/// Maps each job id to the index of the last job with that id.
pub fn job_ids_index(jobs: &Vec<Job>) -> (index: IndexMap)
    ensures
        index_map_entries(index) == job_id_index(jobs@),
{
    let mut index = IndexMap::new();
    proof {
        assert(index_map_entries(index) =~= Map::empty());
    }
    let mut idx: usize = 0;
    while idx < jobs.len()
        invariant
            idx <= jobs.len(),
            index_map_entries(index) == job_id_index(jobs@.take(idx as int)),
        decreases jobs.len() - idx,
    {
        proof {
            assert(jobs@.take(idx + 1).drop_last() =~= jobs@.take(idx as int));
        }
        index.insert(jobs[idx].id.clone(), idx);
        idx = idx + 1;
    }
    proof {
        assert(jobs@.take(idx as int) =~= jobs@);
    }
    index
}

/// The ids of the unassigned jobs, breaks left out.
fn unassigned_job_ids(unassigned: &Option<Vec<UnassignedJob>>) -> (ids: Vec<String>)
    ensures
        views(ids@) == unassigned_ids(*unassigned),
{
    let mut ids: Vec<String> = Vec::new();
    match unassigned {
        None => {
            proof {
                assert(views(ids@) =~= Seq::empty());
            }
        },
        Some(items) => {
            let mut idx: usize = 0;
            proof {
                assert(views(ids@) =~= Seq::empty());
            }
            while idx < items.len()
                invariant
                    idx <= items.len(),
                    views(ids@) == listed_unassigned(items@, idx as nat),
                decreases items.len() - idx,
            {
                if !str_ends_with(items[idx].job_id.as_str(), "_break") {
                    ids.push(items[idx].job_id.clone());
                    proof {
                        assert(views(ids@) =~= listed_unassigned(items@, (idx + 1) as nat));
                    }
                }
                idx = idx + 1;
            }
        },
    }
    ids
}

/// Whether some id is listed twice.
fn has_duplicates(ids: &Vec<String>) -> (found: bool)
    ensures
        found == !views(ids@).no_duplicates(),
{
    let mut seen = StringSet::new();
    let mut found = false;
    let mut idx: usize = 0;
    while idx < ids.len()
        invariant
            idx <= ids.len(),
            string_set_items(seen) == views(ids@).take(idx as int).to_set(),
            found == !views(ids@).take(idx as int).no_duplicates(),
        decreases ids.len() - idx,
    {
        let ghost before = views(ids@).take(idx as int);
        let ghost after = views(ids@).take(idx + 1);
        proof {
            assert(after =~= before.push(ids@[idx as int]@));
            before.lemma_push_to_set_commute(ids@[idx as int]@);
        }
        let added = seen.insert(ids[idx].clone());
        if !added {
            found = true;
            proof {
                assert(before.contains(ids@[idx as int]@));
                let j = choose|j: int| 0 <= j < before.len() && before[j] == ids@[idx as int]@;
                assert(after[j] == after[idx as int]);
            }
        } else {
            proof {
                if !found {
                    assert(!before.contains(ids@[idx as int]@));
                    assert forall|i: int, j: int| 0 <= i < after.len() && 0 <= j < after.len() && i != j implies after[i]
                        != after[j] by {
                        if i == idx {
                            assert(before[j] == after[j]);
                        } else if j == idx {
                            assert(before[i] == after[i]);
                        } else {
                            assert(before[i] == after[i] && before[j] == after[j]);
                        }
                    }
                } else {
                    let (i, j) = choose|i: int, j: int| 0 <= i < before.len() && 0 <= j < before.len() && i != j
                        && before[i] == before[j];
                    assert(after[i] == after[j]);
                }
            }
        }
        idx = idx + 1;
    }
    proof {
        assert(views(ids@).take(idx as int) =~= views(ids@));
    }
    found
}


/// Checks job task rules: each job is served by the tours of one vehicle shift
/// only, with all of its tasks and no pickup after a delivery; unassigned jobs
/// are known, listed once and not served; and every job of the plan is either
/// served or unassigned.
pub fn check_jobs_presence(ctx: &CheckerContext) -> (result: Result<(), String>)
    requires
        activity_total(ctx.solution.tours@) <= usize::MAX,
    ensures
        result_view(result) == presence_outcome(*ctx),
{
    let tours = &ctx.solution.tours;
    let served = match record_served_jobs(tours) {
        Ok(served) => served,
        Err(e) => return Err(e),
    };
    let ghost state = presence_tours(tours@, tours.len() as nat);
    let jobs = &ctx.problem.plan.jobs;
    let index = job_ids_index(jobs);
    let job_count = jobs.len();
    let mut k: usize = 0;
    while k < served.order.len()
        invariant
            k <= served.order.len(),
            jobs == &ctx.problem.plan.jobs,
            jobs@.len() == job_count,
            tours == &ctx.solution.tours,
            state == presence_tours(tours@, tours.len() as nat),
            served_matches(served, state),
            presence_wf(state, tours.len() as int, activity_total(tours@)),
            index_map_entries(index) == job_id_index(jobs@),
            first_error_of(k as nat, served_job_rules(jobs@, state)) is Ok,
        decreases served.order.len() - k,
    {
        let id = served.order[k].as_str();
        proof {
            lemma_job_id_index(jobs@);
            assert(state.order[k as int] == served.order@[k as int]@);
            assert(state.uses[k as int].tasks == served.tasks@[k as int]);
        }
        match index.get(id) {
            None => {
                let mut message = String::from_str("cannot find job with id ");
                message.append(id);
                proof {
                    assert(served_job_rules(jobs@, state)(k as int) == result_view(Err(message)));
                    lemma_first_error_stays((k + 1) as nat, served.order.len() as nat, served_job_rules(jobs@, state));
                }
                return Err(message);
            },
            Some(j) => {
                let job = &jobs[j];
                let expected: u128 = job_task_size(&job.pickups) as u128 + job_task_size(&job.deliveries) as u128
                    + job_task_size(&job.services) as u128 + job_task_size(&job.replacements) as u128;
                let assigned = served.tasks[k];
                if expected != assigned as u128 {
                    let mut message = String::from_str("not all tasks served for '");
                    message.append(id);
                    message.append("', expected: ");
                    message.append(u128_to_string(expected).as_str());
                    message.append(", assigned: ");
                    message.append(usize_to_string(assigned).as_str());
                    proof {
                        assert(served_job_rules(jobs@, state)(k as int) == result_view(Err(message)));
                        lemma_first_error_stays((k + 1) as nat, served.order.len() as nat, served_job_rules(jobs@, state));
                    }
                    return Err(message);
                }
                match (served.last_pickup[k], served.first_delivery[k]) {
                    (Some(p), Some(d)) => {
                        if p > d {
                            let mut message = String::from_str("found pickup after delivery for '");
                            message.append(id);
                            message.append("'");
                            proof {
                                assert(served_job_rules(jobs@, state)(k as int) == result_view(Err(message)));
                                lemma_first_error_stays(
                                    (k + 1) as nat,
                                    served.order.len() as nat,
                                    served_job_rules(jobs@, state),
                                );
                            }
                            return Err(message);
                        }
                    },
                    _ => {},
                }
                proof {
                    assert(served_job_rules(jobs@, state)(k as int) is Ok);
                }
            },
        }
        k = k + 1;
    }
    let ids = unassigned_job_ids(&ctx.solution.unassigned);
    if has_duplicates(&ids) {
        return Err(String::from_str("duplicated job ids in the list of unassigned jobs"));
    }
    let mut i: usize = 0;
    while i < ids.len()
        invariant
            i <= ids.len(),
            jobs == &ctx.problem.plan.jobs,
            tours == &ctx.solution.tours,
            state == presence_tours(tours@, tours.len() as nat),
            views(ids@) == unassigned_ids(ctx.solution.unassigned),
            views(ids@).no_duplicates(),
            first_error_of(served.order.len() as nat, served_job_rules(jobs@, state)) is Ok,
            served_matches(served, state),
            index_map_entries(index) == job_id_index(jobs@),
            first_error_of(i as nat, unassigned_rules(jobs@, state, views(ids@))) is Ok,
        decreases ids.len() - i,
    {
        let id = ids[i].as_str();
        if index.get(id).is_none() {
            let mut message = String::from_str("unknown job id in the list of unassigned jobs: '");
            message.append(id);
            message.append("'");
            proof {
                assert(unassigned_rules(jobs@, state, views(ids@))(i as int) == result_view(Err(message)));
                lemma_first_error_stays((i + 1) as nat, ids.len() as nat, unassigned_rules(jobs@, state, views(ids@)));
            }
            return Err(message);
        }
        if served.positions.get(id).is_some() {
            let mut message = String::from_str("job present as assigned and unassigned: '");
            message.append(id);
            message.append("'");
            proof {
                assert(unassigned_rules(jobs@, state, views(ids@))(i as int) == result_view(Err(message)));
                lemma_first_error_stays((i + 1) as nat, ids.len() as nat, unassigned_rules(jobs@, state, views(ids@)));
            }
            return Err(message);
        }
        proof {
            assert(unassigned_rules(jobs@, state, views(ids@))(i as int) is Ok);
        }
        i = i + 1;
    }
    let planned = index.len();
    let present: u128 = ids.len() as u128 + served.order.len() as u128;
    if present != planned as u128 {
        let mut message = String::from_str("amount of jobs present in problem and solution doesn't match: ");
        message.append(usize_to_string(planned).as_str());
        message.append(" vs ");
        message.append(u128_to_string(present).as_str());
        return Err(message);
    }
    Ok(())
}

// endregion


// region Dispatch

/// Whether an activity is a dispatch.
pub open spec fn is_dispatch(activity: Activity) -> bool {
    activity.activity_type@ == "dispatch"@
}

/// The positions `(s, a)` of the dispatch activities among the given activities of stop `s`.
pub open spec fn dispatches_in(activities: Seq<Activity>, s: int) -> Seq<(int, int)>
    decreases activities.len(),
{
    if activities.len() == 0 {
        Seq::empty()
    } else {
        let rest = dispatches_in(activities.drop_last(), s);
        if is_dispatch(activities.last()) {
            rest.push((s, activities.len() - 1))
        } else {
            rest
        }
    }
}

/// The positions `(stop, activity)` of the dispatch activities of the given stops, in order.
pub open spec fn dispatch_positions(stops: Seq<Stop>) -> Seq<(int, int)>
    decreases stops.len(),
{
    if stops.len() == 0 {
        Seq::empty()
    } else {
        dispatch_positions(stops.drop_last()) + dispatches_in(stops.last().activities@, stops.len() - 1)
    }
}

/// Whether some shift of the vehicle type has dispatch places.
pub open spec fn has_dispatch_shift(vehicle: VehicleType) -> bool {
    exists|i: int| 0 <= i < vehicle.shifts.len() && (#[trigger] vehicle.shifts@[i]).dispatch is Some
}

/// Whether a vehicle type with the given id has a shift with dispatch places.
pub open spec fn type_has_dispatch(vehicles: Seq<VehicleType>, type_id: Seq<char>) -> bool {
    exists|v: int| 0 <= v < vehicles.len() && (#[trigger] vehicles[v]).type_id@ == type_id && has_dispatch_shift(
        vehicles[v],
    )
}

/// What was found outside of an activity's location: its text, and whether it
/// is the location of the tour's first stop.
#[derive(Clone, Debug)]
pub struct LocationFact {
    /// The location's text.
    pub text: String,
    /// Whether the location is that of the tour's first stop.
    pub at_first_stop: bool,
}

/// Whether the facts hold one fact per activity of each tour.
pub open spec fn facts_fit(tours: Seq<Tour>, texts: Seq<Vec<Vec<LocationFact>>>) -> bool {
    &&& texts.len() == tours.len()
    &&& forall|t: int| 0 <= t < tours.len() ==> (#[trigger] texts[t])@.len() == tours[t].stops@.len()
    &&& forall|t: int, s: int|
        0 <= t < tours.len() && 0 <= s < tours[t].stops@.len() ==> (#[trigger] texts[t]@[s])@.len()
            == tours[t].stops@[s].activities@.len()
}

/// Message for a tour with more than one dispatch.
pub open spec fn more_than_one_dispatch_msg(id: Seq<char>) -> Seq<char> {
    "more than one dispatch in the tour: '"@ + id + "'"@
}

/// Message for a tour without the dispatch its vehicle type asks for.
pub open spec fn missing_dispatch_msg(id: Seq<char>) -> Seq<char> {
    "tour should have dispatch, but none is found: '"@ + id + "'"@
}

/// Message for a tour with a dispatch its vehicle type does not have.
pub open spec fn unexpected_dispatch_msg(id: Seq<char>) -> Seq<char> {
    "tour should not have dispatch, but it is present: '"@ + id + "'"@
}

/// Message for a dispatch in the first stop at another location.
pub open spec fn dispatch_away_msg(text: Seq<char>) -> Seq<char> {
    "invalid dispatch location: "@ + text + ", expected to match the first stop"@
}

/// Message for a dispatch in the second stop at the first stop's location.
pub open spec fn dispatch_at_start_msg(text: Seq<char>) -> Seq<char> {
    "invalid dispatch location: "@ + text + ", expected not to match the first stop"@
}

/// Message for a dispatch at a wrong position.
pub open spec fn dispatch_index_msg(a: nat) -> Seq<char> {
    "invalid dispatch activity index, expected: 1, got: '"@ + decimal(a) + "'"@
}

/// The dispatch rule for tour `t`: a tour has exactly one dispatch when its vehicle
/// type has dispatch places and none otherwise; the dispatch is the second
/// activity of the first stop, at that stop's location, or the first activity of
/// the second stop, elsewhere. `texts` gives what was found of each activity's location.
pub open spec fn dispatch_rule(ctx: CheckerContext, texts: Seq<Vec<Vec<LocationFact>>>, t: int) -> Result<(), Seq<char>> {
    let tour = ctx.solution.tours@[t];
    let id = tour.vehicle_id@;
    let should = type_has_dispatch(ctx.problem.fleet.vehicles@, tour.type_id@);
    let found = dispatch_positions(tour.stops@);
    if found.len() > 1 {
        Err(more_than_one_dispatch_msg(id))
    } else if should && found.len() == 0 {
        Err(missing_dispatch_msg(id))
    } else if !should && found.len() > 0 {
        Err(unexpected_dispatch_msg(id))
    } else if should {
        let (s, a) = found[0];
        let activity = tour.stops@[s].activities@[a];
        let fact = texts[t]@[s]@[a];
        let text = fact.text@;
        if s == 0 && a == 1 {
            match activity.location {
                Some(_) => if fact.at_first_stop {
                    Ok(())
                } else {
                    Err(dispatch_away_msg(text))
                },
                None => Ok(()),
            }
        } else if s == 1 && a == 0 {
            match activity.location {
                Some(_) => if fact.at_first_stop {
                    Err(dispatch_at_start_msg(text))
                } else {
                    Ok(())
                },
                None => Ok(()),
            }
        } else {
            Err(dispatch_index_msg(a as nat))
        }
    } else {
        Ok(())
    }
}

pub open spec fn dispatch_rules(ctx: CheckerContext, texts: Seq<Vec<Vec<LocationFact>>>) -> spec_fn(int) -> Result<(), Seq<char>> {
    |t: int| dispatch_rule(ctx, texts, t)
}

/// The ids of the vehicle types with dispatch places.
fn dispatch_type_ids(vehicles: &Vec<VehicleType>) -> (ids: StringSet)
    ensures
        forall|x: Seq<char>| #[trigger] string_set_items(ids).contains(x) <==> type_has_dispatch(vehicles@, x),
{
    let mut ids = StringSet::new();
    let mut v: usize = 0;
    while v < vehicles.len()
        invariant
            v <= vehicles.len(),
            forall|x: Seq<char>| #[trigger] string_set_items(ids).contains(x) <==> type_has_dispatch(vehicles@.take(v as int), x),
        decreases vehicles.len() - v,
    {
        let vehicle = &vehicles[v];
        let mut has = false;
        let mut i: usize = 0;
        while i < vehicle.shifts.len()
            invariant
                i <= vehicle.shifts.len(),
                has == exists|j: int| 0 <= j < i && (#[trigger] vehicle.shifts@[j]).dispatch is Some,
            decreases vehicle.shifts.len() - i,
        {
            if vehicle.shifts[i].dispatch.is_some() {
                has = true;
            }
            i = i + 1;
        }
        let ghost before = string_set_items(ids);
        if has {
            ids.insert(vehicle.type_id.clone());
        }
        proof {
            let prefix = vehicles@.take(v as int);
            let next = vehicles@.take(v + 1);
            assert forall|x: Seq<char>| #[trigger] string_set_items(ids).contains(x) <==> type_has_dispatch(next, x) by {
                if type_has_dispatch(next, x) {
                    let w = choose|w: int| 0 <= w < next.len() && (#[trigger] next[w]).type_id@ == x && has_dispatch_shift(next[w]);
                    if w < v {
                        assert(prefix[w] == next[w]);
                    }
                }
                if type_has_dispatch(prefix, x) {
                    let w = choose|w: int| 0 <= w < prefix.len() && (#[trigger] prefix[w]).type_id@ == x && has_dispatch_shift(prefix[w]);
                    assert(prefix[w] == next[w]);
                }
                if has && x == vehicle.type_id@ {
                    assert(next[v as int] == *vehicle);
                }
            }
        }
        v = v + 1;
    }
    proof {
        assert(vehicles@.take(v as int) =~= vehicles@);
    }
    ids
}

/// The positions of the dispatch activities of a tour, stop by stop.
fn tour_dispatches(tour: &Tour) -> (found: Vec<(usize, usize)>)
    ensures
        found@.len() == dispatch_positions(tour.stops@).len(),
        forall|i: int| 0 <= i < found@.len() ==> (#[trigger] found@[i]).0 as int == dispatch_positions(tour.stops@)[i].0
            && found@[i].1 as int == dispatch_positions(tour.stops@)[i].1,
{
    let mut found: Vec<(usize, usize)> = Vec::new();
    let mut s: usize = 0;
    while s < tour.stops.len()
        invariant
            s <= tour.stops.len(),
            found@.len() == dispatch_positions(tour.stops@.take(s as int)).len(),
            forall|i: int| 0 <= i < found@.len() ==> (#[trigger] found@[i]).0 as int == dispatch_positions(
                tour.stops@.take(s as int),
            )[i].0 && found@[i].1 as int == dispatch_positions(tour.stops@.take(s as int))[i].1,
        decreases tour.stops.len() - s,
    {
        let stop = &tour.stops[s];
        let ghost before = dispatch_positions(tour.stops@.take(s as int));
        let mut a: usize = 0;
        while a < stop.activities.len()
            invariant
                a <= stop.activities.len(),
                s < tour.stops.len(),
                stop == &tour.stops@[s as int],
                found@.len() == before.len() + dispatches_in(stop.activities@.take(a as int), s as int).len(),
                forall|i: int| 0 <= i < found@.len() ==> (#[trigger] found@[i]).0 as int == (before + dispatches_in(
                    stop.activities@.take(a as int),
                    s as int,
                ))[i].0 && found@[i].1 as int == (before + dispatches_in(stop.activities@.take(a as int), s as int))[i].1,
            decreases stop.activities.len() - a,
        {
            proof {
                assert(stop.activities@.take(a + 1).drop_last() =~= stop.activities@.take(a as int));
                assert(stop.activities@.take(a + 1).last() == stop.activities@[a as int]);
            }
            if str_equal(stop.activities[a].activity_type.as_str(), "dispatch") {
                found.push((s, a));
            }
            a = a + 1;
        }
        proof {
            assert(stop.activities@.take(a as int) =~= stop.activities@);
            assert(tour.stops@.take(s + 1).drop_last() =~= tour.stops@.take(s as int));
            assert(tour.stops@.take(s + 1).last() == *stop);
        }
        s = s + 1;
    }
    proof {
        assert(tour.stops@.take(s as int) =~= tour.stops@);
    }
    found
}

/// The positions of the dispatch activities are activity positions of the stops.
pub proof fn lemma_dispatch_positions(stops: Seq<Stop>)
    ensures
        forall|i: int| 0 <= i < dispatch_positions(stops).len() ==> {
            let (s, a) = #[trigger] dispatch_positions(stops)[i];
            0 <= s < stops.len() && 0 <= a < stops[s].activities@.len() && is_dispatch(stops[s].activities@[a])
        },
    decreases stops.len(),
{
    if stops.len() > 0 {
        let prefix = stops.drop_last();
        lemma_dispatch_positions(prefix);
        lemma_dispatches_in(stops.last().activities@, stops.len() - 1);
        assert forall|i: int| 0 <= i < dispatch_positions(stops).len() implies {
            let (s, a) = #[trigger] dispatch_positions(stops)[i];
            0 <= s < stops.len() && 0 <= a < stops[s].activities@.len() && is_dispatch(stops[s].activities@[a])
        } by {
            if i < dispatch_positions(prefix).len() {
                let (s, a) = dispatch_positions(prefix)[i];
                assert(prefix[s] == stops[s]);
            } else {
                assert(stops.last() == stops[stops.len() - 1]);
            }
        }
    }
}

/// The positions found among the activities of a stop are dispatch activities of it.
pub proof fn lemma_dispatches_in(activities: Seq<Activity>, s: int)
    ensures
        forall|i: int| 0 <= i < dispatches_in(activities, s).len() ==> {
            let (p, a) = #[trigger] dispatches_in(activities, s)[i];
            p == s && 0 <= a < activities.len() && is_dispatch(activities[a])
        },
    decreases activities.len(),
{
    if activities.len() > 0 {
        lemma_dispatches_in(activities.drop_last(), s);
        assert forall|i: int| 0 <= i < dispatches_in(activities, s).len() implies {
            let (p, a) = #[trigger] dispatches_in(activities, s)[i];
            p == s && 0 <= a < activities.len() && is_dispatch(activities[a])
        } by {
            if i < dispatches_in(activities.drop_last(), s).len() {
                let (p, a) = dispatches_in(activities.drop_last(), s)[i];
                assert(activities.drop_last()[a] == activities[a]);
            }
        }
    }
}

/// Checks whether dispatch is properly assigned. `location_facts` holds what was
/// found of each activity's location, tour by tour, stop by stop.
pub fn check_dispatch(ctx: &CheckerContext, location_facts: &Vec<Vec<Vec<LocationFact>>>) -> (result: Result<(), String>)
    requires
        facts_fit(ctx.solution.tours@, location_facts@),
    ensures
        result_view(result) == first_error_of(ctx.solution.tours.len() as nat, dispatch_rules(*ctx, location_facts@)),
{
    let with_dispatch = dispatch_type_ids(&ctx.problem.fleet.vehicles);
    let tours = &ctx.solution.tours;
    let mut t: usize = 0;
    while t < tours.len()
        invariant
            t <= tours.len(),
            tours == &ctx.solution.tours,
            facts_fit(tours@, location_facts@),
            forall|x: Seq<char>| #[trigger] string_set_items(with_dispatch).contains(x) <==> type_has_dispatch(
                ctx.problem.fleet.vehicles@,
                x,
            ),
            first_error_of(t as nat, dispatch_rules(*ctx, location_facts@)) is Ok,
        decreases tours.len() - t,
    {
        let tour = &tours[t];
        let outcome = check_tour_dispatch(ctx, tour, t, &with_dispatch, location_facts);
        match outcome {
            Err(e) => {
                proof {
                    assert(dispatch_rules(*ctx, location_facts@)(t as int) == result_view(Err(e)));
                    lemma_first_error_stays((t + 1) as nat, tours.len() as nat, dispatch_rules(*ctx, location_facts@));
                }
                return Err(e);
            },
            Ok(_) => {
                proof {
                    assert(dispatch_rules(*ctx, location_facts@)(t as int) is Ok);
                }
            },
        }
        t = t + 1;
    }
    Ok(())
}

/// Checks the dispatch rule for tour `t`.
fn check_tour_dispatch(
    ctx: &CheckerContext,
    tour: &Tour,
    t: usize,
    with_dispatch: &StringSet,
    location_facts: &Vec<Vec<Vec<LocationFact>>>,
) -> (result: Result<(), String>)
    requires
        t < ctx.solution.tours.len(),
        *tour == ctx.solution.tours@[t as int],
        facts_fit(ctx.solution.tours@, location_facts@),
        forall|x: Seq<char>| #[trigger] string_set_items(*with_dispatch).contains(x) <==> type_has_dispatch(
            ctx.problem.fleet.vehicles@,
            x,
        ),
    ensures
        result_view(result) == dispatch_rule(*ctx, location_facts@, t as int),
{
    let should = with_dispatch.contains(tour.type_id.as_str());
    let found = tour_dispatches(tour);
    proof {
        lemma_dispatch_positions(tour.stops@);
    }
    if found.len() > 1 {
        let mut message = String::from_str("more than one dispatch in the tour: '");
        message.append(tour.vehicle_id.as_str());
        message.append("'");
        return Err(message);
    }
    if should && found.len() == 0 {
        let mut message = String::from_str("tour should have dispatch, but none is found: '");
        message.append(tour.vehicle_id.as_str());
        message.append("'");
        return Err(message);
    }
    if !should && found.len() > 0 {
        let mut message = String::from_str("tour should not have dispatch, but it is present: '");
        message.append(tour.vehicle_id.as_str());
        message.append("'");
        return Err(message);
    }
    if should {
        let (s, a) = found[0];
        proof {
            assert(found@[0].0 as int == dispatch_positions(tour.stops@)[0].0);
        }
        let activity = &tour.stops[s].activities[a];
        let fact = &location_facts[t][s][a];
        if s == 0 && a == 1 {
            match activity.location {
                Some(_) => if !fact.at_first_stop {
                    let mut message = String::from_str("invalid dispatch location: ");
                    message.append(fact.text.as_str());
                    message.append(", expected to match the first stop");
                    return Err(message);
                },
                None => {},
            }
        } else if s == 1 && a == 0 {
            match activity.location {
                Some(_) => if fact.at_first_stop {
                    let mut message = String::from_str("invalid dispatch location: ");
                    message.append(fact.text.as_str());
                    message.append(", expected not to match the first stop");
                    return Err(message);
                },
                None => {},
            }
        } else {
            let mut message = String::from_str("invalid dispatch activity index, expected: 1, got: '");
            message.append(usize_to_string(a).as_str());
            message.append("'");
            return Err(message);
        }
    }
    Ok(())
}

// endregion


// region Assignment

/// The outcome of the vehicle rule over all tours.
pub open spec fn vehicles_outcome(ctx: CheckerContext) -> Result<(), Seq<char>> {
    first_error_of(ctx.solution.tours.len() as nat, vehicle_use_rules(ctx))
}

/// The outcome of the dispatch rule over all tours.
pub open spec fn dispatch_outcome(ctx: CheckerContext, texts: Seq<Vec<Vec<LocationFact>>>) -> Result<(), Seq<char>> {
    first_error_of(ctx.solution.tours.len() as nat, dispatch_rules(ctx, texts))
}

/// The outcome of all assignment rules: vehicles, presence, the matching of
/// activities to jobs (`jobs_match`, found outside), dispatch and groups.
pub open spec fn assignment_outcome(
    ctx: CheckerContext,
    jobs_match: Result<(), Seq<char>>,
    texts: Seq<Vec<Vec<LocationFact>>>,
) -> Result<(), Seq<Seq<char>>> {
    combined_errors(
        seq![
            vehicles_outcome(ctx),
            presence_outcome(ctx),
            jobs_match,
            dispatch_outcome(ctx, texts),
            groups_outcome(ctx),
        ],
    )
}

/// Checks assignment of jobs and vehicles. Whether activities match their jobs is
/// found outside and given as `jobs_match`; `location_facts` holds the text of
/// each activity's location, tour by tour, stop by stop.
pub fn check_assignment(
    ctx: &CheckerContext,
    jobs_match: Result<(), String>,
    location_facts: &Vec<Vec<Vec<LocationFact>>>,
) -> (result: Result<(), Vec<String>>)
    requires
        activity_total(ctx.solution.tours@) <= usize::MAX,
        facts_fit(ctx.solution.tours@, location_facts@),
    ensures
        results_view(result) == assignment_outcome(*ctx, result_view(jobs_match), location_facts@),
{
    let results = [
        check_vehicles(ctx),
        check_jobs_presence(ctx),
        jobs_match,
        check_dispatch(ctx, location_facts),
        check_groups(ctx),
    ];
    let combined = combine_error_results(&results);
    proof {
        assert(result_views(results@) =~= seq![
            vehicles_outcome(*ctx),
            presence_outcome(*ctx),
            result_view(jobs_match),
            dispatch_outcome(*ctx, location_facts@),
            groups_outcome(*ctx),
        ]);
    }
    combined
}

// endregion


// region Laws

/// When the vehicle check passes, every tour uses a vehicle of the fleet, and no
/// two tours use the same vehicle in the same shift.
pub proof fn lemma_vehicles_known_and_used_once(ctx: CheckerContext)
    requires
        vehicles_outcome(ctx) is Ok,
    ensures
        forall|t: int|
            0 <= t < ctx.solution.tours.len() ==> vehicle_index(
                ctx.problem.fleet.vehicles@,
                (#[trigger] ctx.solution.tours@[t]).vehicle_id@,
            ) is Some,
        forall|t: int, u: int|
            0 <= u < t < ctx.solution.tours.len() ==> !same_tour_info(
                #[trigger] ctx.solution.tours@[u],
                #[trigger] ctx.solution.tours@[t],
            ),
{
    lemma_first_error_ok(ctx.solution.tours.len() as nat, vehicle_use_rules(ctx));
    assert forall|t: int, u: int|
        0 <= u < t < ctx.solution.tours.len() implies !same_tour_info(
        #[trigger] ctx.solution.tours@[u],
        #[trigger] ctx.solution.tours@[t],
    ) by {
        assert(vehicle_use_rules(ctx)(t) is Ok);
        if same_tour_info(ctx.solution.tours@[u], ctx.solution.tours@[t]) {
            assert(is_tour_of(ctx.solution.tours@[u], ctx.solution.tours@[t].vehicle_id@, ctx.solution.tours@[t].shift_index));
        }
    }
    assert forall|t: int|
        0 <= t < ctx.solution.tours.len() implies vehicle_index(
        ctx.problem.fleet.vehicles@,
        (#[trigger] ctx.solution.tours@[t]).vehicle_id@,
    ) is Some by {
        assert(vehicle_use_rules(ctx)(t) is Ok);
    }
}

/// When the dispatch check passes, a tour has a dispatch exactly when its
/// vehicle type has dispatch places, and then exactly one.
pub proof fn lemma_dispatch_present_iff_expected(ctx: CheckerContext, facts: Seq<Vec<Vec<LocationFact>>>)
    requires
        dispatch_outcome(ctx, facts) is Ok,
    ensures
        forall|t: int|
            0 <= t < ctx.solution.tours.len() ==> dispatch_positions((#[trigger] ctx.solution.tours@[t]).stops@).len() == (
            if type_has_dispatch(ctx.problem.fleet.vehicles@, ctx.solution.tours@[t].type_id@) {
                1int
            } else {
                0int
            }),
{
    lemma_first_error_ok(ctx.solution.tours.len() as nat, dispatch_rules(ctx, facts));
    assert forall|t: int| 0 <= t < ctx.solution.tours.len() implies dispatch_positions(
        (#[trigger] ctx.solution.tours@[t]).stops@,
    ).len() == (if type_has_dispatch(ctx.problem.fleet.vehicles@, ctx.solution.tours@[t].type_id@) {
        1int
    } else {
        0int
    }) by {
        assert(dispatch_rules(ctx, facts)(t) is Ok);
    }
}


/// The order of the served jobs holds each once, at its position.
pub open spec fn presence_shape(state: Presence) -> bool {
    &&& state.order.len() == state.uses.len()
    &&& forall|id: Seq<char>| #[trigger] state.pos.contains_key(id) ==> state.pos[id] < state.order.len()
        && state.order[state.pos[id] as int] == id
    &&& forall|k: int| 0 <= k < state.order.len() ==> state.pos.contains_key(#[trigger] state.order[k])
        && state.pos[state.order[k]] == k
}

/// Recording an activity keeps the shape and serves at most one more job.
pub proof fn lemma_presence_step_shape(tours: Seq<Tour>, state: Presence, t: int, idx: int, activity: Activity, processed: nat)
    requires
        presence_shape(state),
        state.order.len() <= processed,
        processed < usize::MAX,
    ensures
        presence_shape(presence_step(tours, state, t, idx, activity)),
        presence_step(tours, state, t, idx, activity).order.len() <= processed + 1,
{
    let next = presence_step(tours, state, t, idx, activity);
    if !(state.error is Some || !is_job_activity_type(activity.activity_type@)) && !state.pos.contains_key(
        activity.job_id@,
    ) {
        let id = activity.job_id@;
        assert forall|k: int| 0 <= k < next.order.len() implies next.pos.contains_key(#[trigger] next.order[k])
            && next.pos[next.order[k]] == k by {
            if k < state.order.len() {
                assert(next.order[k] == state.order[k]);
                assert(state.order[k] != id);
            }
        }
    }
}

/// Recording the first `n` activities of tour `t` keeps the shape.
pub proof fn lemma_presence_tour_shape(tours: Seq<Tour>, state: Presence, t: int, n: nat, base: nat)
    requires
        presence_shape(state),
        state.order.len() <= base,
        base + n <= usize::MAX,
    ensures
        presence_shape(presence_tour(tours, state, t, n)),
        presence_tour(tours, state, t, n).order.len() <= base + n,
    decreases n,
{
    if n > 0 {
        lemma_presence_tour_shape(tours, state, t, (n - 1) as nat, base);
        lemma_presence_step_shape(
            tours,
            presence_tour(tours, state, t, (n - 1) as nat),
            t,
            n - 1,
            stops_activities(tours[t].stops@)[n - 1],
            (base + n - 1) as nat,
        );
    }
}

/// Recording the activities of the first `m` tours keeps the shape.
pub proof fn lemma_presence_tours_shape(tours: Seq<Tour>, m: nat)
    requires
        m <= tours.len(),
        activity_total(tours) <= usize::MAX,
    ensures
        presence_shape(presence_tours(tours, m)),
        presence_tours(tours, m).order.len() <= activity_total(tours.take(m as int)),
    decreases m,
{
    if m == 0 {
        assert(tours.take(0) =~= Seq::empty());
    } else {
        lemma_presence_tours_shape(tours, (m - 1) as nat);
        lemma_activity_total_prefix(tours, m - 1);
        lemma_presence_tour_shape(
            tours,
            presence_tours(tours, (m - 1) as nat),
            m - 1,
            stops_activities(tours[m - 1].stops@).len(),
            activity_total(tours.take(m - 1)),
        );
    }
}

/// The ids of the jobs of a plan are finitely many.
pub proof fn lemma_job_ids_finite(jobs: Seq<Job>)
    ensures
        job_id_index(jobs).dom().finite(),
    decreases jobs.len(),
{
    if jobs.len() > 0 {
        lemma_job_ids_finite(jobs.drop_last());
    }
}

/// When the presence check passes, every job of the plan is either served by
/// the tours or listed as unassigned, never both, and no job is listed twice;
/// the tours serve and list no other job.
#[verifier::spinoff_prover]
pub proof fn lemma_presence_partitions_jobs(ctx: CheckerContext)
    requires
        activity_total(ctx.solution.tours@) <= usize::MAX,
        presence_outcome(ctx) is Ok,
    ensures
        ({
            let state = presence_tours(ctx.solution.tours@, ctx.solution.tours.len() as nat);
            let ids = unassigned_ids(ctx.solution.unassigned);
            let planned = job_id_index(ctx.problem.plan.jobs@).dom();
            &&& ids.no_duplicates()
            &&& forall|id: Seq<char>| #[trigger] planned.contains(id) <==> (state.pos.contains_key(id) || ids.contains(id))
            &&& forall|id: Seq<char>| !(#[trigger] state.pos.contains_key(id) && ids.contains(id))
        }),
{
    let tours = ctx.solution.tours@;
    let jobs = ctx.problem.plan.jobs@;
    let state = presence_tours(tours, tours.len() as nat);
    let ids = unassigned_ids(ctx.solution.unassigned);
    let planned = job_id_index(jobs).dom();
    lemma_presence_tours_shape(tours, tours.len() as nat);
    lemma_job_ids_finite(jobs);
    let served = state.order.to_set();
    let listed = ids.to_set();
    assert forall|i: int, j: int|
        0 <= i < state.order.len() && 0 <= j < state.order.len() && i != j implies state.order[i] != state.order[j] by {
        assert(state.pos[state.order[i]] == i);
        assert(state.pos[state.order[j]] == j);
    }
    assert(state.order.no_duplicates());
    assert(state.error is None);
    assert(first_error_of(state.order.len(), served_job_rules(jobs, state)) is Ok);
    assert(ids.no_duplicates());
    state.order.unique_seq_to_set();
    ids.unique_seq_to_set();
    lemma_first_error_ok(state.order.len(), served_job_rules(jobs, state));
    lemma_first_error_ok(ids.len(), unassigned_rules(jobs, state, ids));
    assert forall|id: Seq<char>| #[trigger] served.contains(id) <==> state.pos.contains_key(id) by {
        if state.pos.contains_key(id) {
            assert(state.order[state.pos[id] as int] == id);
        }
        if served.contains(id) {
            let k = choose|k: int| 0 <= k < state.order.len() && state.order[k] == id;
            assert(state.pos.contains_key(state.order[k]));
        }
    }
    assert forall|id: Seq<char>| served.contains(id) implies #[trigger] planned.contains(id) by {
        let k = choose|k: int| 0 <= k < state.order.len() && state.order[k] == id;
        assert(served_job_rules(jobs, state)(k) is Ok);
    }
    assert forall|id: Seq<char>| listed.contains(id) implies #[trigger] planned.contains(id) && !served.contains(id) by {
        let i = choose|i: int| 0 <= i < ids.len() && ids[i] == id;
        assert(unassigned_rules(jobs, state, ids)(i) is Ok);
    }
    assert(served.disjoint(listed)) by {
        assert forall|id: Seq<char>| !(served.contains(id) && #[trigger] listed.contains(id)) by {
            if listed.contains(id) {
                assert(planned.contains(id) && !served.contains(id));
            }
        }
    }
    vstd::set_lib::lemma_set_disjoint_lens(served, listed);
    assert((served + listed).subset_of(planned));
    vstd::set_lib::lemma_subset_equality(served + listed, planned);
    assert forall|id: Seq<char>| #[trigger] planned.contains(id) <==> (state.pos.contains_key(id) || ids.contains(id)) by {
        assert((served + listed).contains(id) == planned.contains(id));
    }
}

// endregion

/// What a presence state records of an activity at position `i`: a pickup's
/// position is at most its job's last pickup, a delivery's at least its job's
/// first delivery.
pub open spec fn records_position(state: Presence, activity: Activity, i: int) -> bool {
    let id = activity.job_id@;
    let kind = activity.activity_type@;
    &&& kind == "pickup"@ ==> state.pos.contains_key(id) && (state.uses[state.pos[id] as int].last_pickup matches Some(
        p,
    ) && i <= p)
    &&& kind == "delivery"@ ==> state.pos.contains_key(id) && (state.uses[state.pos[id] as int].first_delivery matches Some(
        d,
    ) && d <= i)
}

/// Recording an activity without error keeps what was recorded and records it.
proof fn lemma_presence_step_records(tours: Seq<Tour>, state: Presence, t: int, idx: int, activity: Activity)
    requires
        presence_shape(state),
        state.order.len() < usize::MAX,
        presence_step(tours, state, t, idx, activity).error is None,
    ensures
        state.error is None,
        forall|other: Activity, i: int| #[trigger] records_position(state, other, i) ==> records_position(
            presence_step(tours, state, t, idx, activity),
            other,
            i,
        ),
        records_position(presence_step(tours, state, t, idx, activity), activity, idx),
{
    let next = presence_step(tours, state, t, idx, activity);
    let id = activity.job_id@;
    if is_job_activity_type(activity.activity_type@) {
        if state.pos.contains_key(id) {
            let k = state.pos[id] as int;
            assert(0 <= k < state.uses.len());
            assert(next.uses[k] == record_task(state.uses[k], activity.activity_type@, idx));
            assert(next.pos[id] == k);
            assert forall|other: Activity, i: int| #[trigger] records_position(state, other, i) implies records_position(
                next,
                other,
                i,
            ) by {
                let oid = other.job_id@;
                if state.pos.contains_key(oid) && state.pos[oid] as int != k {
                    assert(next.uses[state.pos[oid] as int] == state.uses[state.pos[oid] as int]);
                }
            }
        } else {
            assert(next.pos[id] == state.order.len());
            assert(next.uses[state.order.len() as int] == record_task(
                JobUse { tour: t, tasks: 0, last_pickup: None, first_delivery: None },
                activity.activity_type@,
                idx,
            ));
            assert forall|other: Activity, i: int| #[trigger] records_position(state, other, i) implies records_position(
                next,
                other,
                i,
            ) by {
                let oid = other.job_id@;
                if state.pos.contains_key(oid) {
                    assert(oid != id);
                    assert(next.uses[state.pos[oid] as int] == state.uses[state.pos[oid] as int]);
                }
            }
        }
    }
}

/// Recording the first `n` activities of tour `t` without error keeps what was
/// recorded and records each of them.
proof fn lemma_presence_tour_records(tours: Seq<Tour>, state: Presence, t: int, n: nat, base: nat)
    requires
        presence_shape(state),
        state.order.len() <= base,
        base + n <= usize::MAX,
        n <= stops_activities(tours[t].stops@).len(),
        presence_tour(tours, state, t, n).error is None,
    ensures
        forall|other: Activity, i: int| #[trigger] records_position(state, other, i) ==> records_position(
            presence_tour(tours, state, t, n),
            other,
            i,
        ),
        forall|a: int| 0 <= a < n ==> records_position(
            presence_tour(tours, state, t, n),
            #[trigger] stops_activities(tours[t].stops@)[a],
            a,
        ),
    decreases n,
{
    if n > 0 {
        let before = presence_tour(tours, state, t, (n - 1) as nat);
        let act = stops_activities(tours[t].stops@)[n - 1];
        lemma_presence_tour_shape(tours, state, t, (n - 1) as nat, base);
        lemma_presence_step_records(tours, before, t, n - 1, act);
        lemma_presence_tour_records(tours, state, t, (n - 1) as nat, base);
    }
}

/// Recording the activities of the first `m` tours without error records each
/// of them.
proof fn lemma_presence_tours_records(tours: Seq<Tour>, m: nat)
    requires
        m <= tours.len(),
        activity_total(tours) <= usize::MAX,
        presence_tours(tours, m).error is None,
    ensures
        forall|u: int, a: int|
            0 <= u < m && 0 <= a < stops_activities(tours[u].stops@).len() ==> records_position(
                presence_tours(tours, m),
                #[trigger] stops_activities(tours[u].stops@)[a],
                a,
            ),
    decreases m,
{
    if m > 0 {
        let before = presence_tours(tours, (m - 1) as nat);
        let n = stops_activities(tours[m - 1].stops@).len();
        lemma_presence_tours_shape(tours, (m - 1) as nat);
        lemma_activity_total_prefix(tours, m - 1);
        if before.error is Some {
            lemma_presence_tour_stuck(tours, before, m - 1, n);
        }
        lemma_presence_tours_records(tours, (m - 1) as nat);
        lemma_presence_tour_records(tours, before, m - 1, n, activity_total(tours.take(m - 1)));
    }
}

/// Pickups come before deliveries: when the presence check passes, within a
/// tour every pickup activity of a job comes before every delivery activity of
/// the same job.
pub proof fn lemma_presence_pickups_before_deliveries(ctx: CheckerContext, t: int, i: int, j: int)
    requires
        activity_total(ctx.solution.tours@) <= usize::MAX,
        presence_outcome(ctx) is Ok,
        0 <= t < ctx.solution.tours.len(),
        0 <= i < stops_activities(ctx.solution.tours@[t].stops@).len(),
        0 <= j < stops_activities(ctx.solution.tours@[t].stops@).len(),
        stops_activities(ctx.solution.tours@[t].stops@)[i].activity_type@ == "pickup"@,
        stops_activities(ctx.solution.tours@[t].stops@)[j].activity_type@ == "delivery"@,
        stops_activities(ctx.solution.tours@[t].stops@)[i].job_id@ == stops_activities(
            ctx.solution.tours@[t].stops@,
        )[j].job_id@,
    ensures
        i < j,
{
    let tours = ctx.solution.tours@;
    let jobs = ctx.problem.plan.jobs@;
    let state = presence_tours(tours, tours.len() as nat);
    let acts = stops_activities(tours[t].stops@);
    lemma_presence_tours_shape(tours, tours.len() as nat);
    lemma_presence_tours_records(tours, tours.len() as nat);
    assert(records_position(state, acts[i], i));
    assert(records_position(state, acts[j], j));
    let id = acts[i].job_id@;
    let k = state.pos[id] as int;
    lemma_first_error_ok(state.order.len(), served_job_rules(jobs, state));
    assert(served_job_rules(jobs, state)(k) is Ok);
    assert(state.order[k] == id);
    assert("pickup"@ != "delivery"@) by {
        reveal_strlit("pickup");
        reveal_strlit("delivery");
        assert("pickup"@.len() != "delivery"@.len());
    }
}

} // verus!
