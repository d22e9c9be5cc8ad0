//! Checks of relation rules: jobs locked to a vehicle, in any order, in sequence
//! or in strict order.

use super::{
    combine_error_results, errors_of, first_error_of, job_index, job_tasks, lemma_first_error_none,
    lemma_first_error_stays, result_view, result_views, results_view, task_count, CheckerContext,
};
use crate::collections::{string_set_items, StringSet};
use crate::model::{RelationType, Solution, Stop, Tour};
use crate::text::{debug_string_list, debug_strings, decimal, str_equal, usize_to_string, views};
use vstd::prelude::*;

verus! {

// region Activity ids

/// The job ids of the activities of a stop.
pub open spec fn stop_ids(stop: Stop) -> Seq<Seq<char>> {
    stop.activities@.map_values(|a: crate::model::Activity| a.job_id@)
}

/// The job ids of the activities of the given stops, stop by stop.
pub open spec fn stops_ids(stops: Seq<Stop>) -> Seq<Seq<char>>
    decreases stops.len(),
{
    if stops.len() == 0 {
        Seq::empty()
    } else {
        stops_ids(stops.drop_last()) + stop_ids(stops.last())
    }
}

/// Returns the job ids of all activities of the tour, in order.
pub fn get_activity_ids(tour: &Tour) -> (ids: Vec<String>)
    ensures
        views(ids@) == stops_ids(tour.stops@),
{
    let mut ids: Vec<String> = Vec::new();
    let mut s: usize = 0;
    while s < tour.stops.len()
        invariant
            s <= tour.stops.len(),
            views(ids@) == stops_ids(tour.stops@.take(s as int)),
        decreases tour.stops.len() - s,
    {
        let stop = &tour.stops[s];
        let ghost before = views(ids@);
        let mut a: usize = 0;
        while a < stop.activities.len()
            invariant
                a <= stop.activities.len(),
                views(ids@) == before + stop_ids(*stop).take(a as int),
            decreases stop.activities.len() - a,
        {
            let ghost prev = ids@;
            ids.push(stop.activities[a].job_id.clone());
            proof {
                assert(views(ids@) =~= views(prev).push(stop.activities@[a as int].job_id@));
                assert(stop_ids(*stop).take(a + 1) =~= stop_ids(*stop).take(a as int).push(stop.activities@[a as int].job_id@));
                assert(views(ids@) =~= before + stop_ids(*stop).take(a + 1));
            }
            a = a + 1;
        }
        proof {
            assert(stop_ids(*stop).take(a as int) =~= stop_ids(*stop));
            assert(tour.stops@.take(s + 1).drop_last() =~= tour.stops@.take(s as int));
            assert(tour.stops@.take(s + 1).last() == *stop);
        }
        s = s + 1;
    }
    proof {
        assert(tour.stops@.take(s as int) =~= tour.stops@);
    }
    ids
}

// endregion

// region Intersection

/// The first position of `item` in `items`.
pub open spec fn first_position(items: Seq<Seq<char>>, item: Seq<char>) -> Option<int>
    decreases items.len(),
{
    if items.len() == 0 {
        None
    } else {
        match first_position(items.drop_last(), item) {
            Some(p) => Some(p),
            None => if items.last() == item {
                Some(items.len() - 1)
            } else {
                None
            },
        }
    }
}

/// The items of `left` equal to the item of `right` at the same position, among
/// the first `n` positions.
pub open spec fn zip_common(left: Seq<Seq<char>>, right: Seq<Seq<char>>, n: nat) -> Seq<Seq<char>>
    decreases n,
{
    if n == 0 {
        Seq::empty()
    } else {
        let rest = zip_common(left, right, (n - 1) as nat);
        if left[n - 1] == right[n - 1] {
            rest.push(left[n - 1])
        } else {
            rest
        }
    }
}

/// Starting at the first occurrence in `left` of the first item of `right`, the
/// items of `left` that equal the item of `right` at the same offset.
pub open spec fn intersection_spec(left: Seq<Seq<char>>, right: Seq<Seq<char>>) -> Seq<Seq<char>> {
    if right.len() == 0 {
        Seq::empty()
    } else {
        match first_position(left, right[0]) {
            None => Seq::empty(),
            Some(p) => {
                let rest = left.skip(p);
                zip_common(rest, right, if rest.len() <= right.len() {
                    rest.len()
                } else {
                    right.len()
                })
            },
        }
    }
}

/// The first position found is in range, holds the item, and none before does.
pub proof fn lemma_first_position(items: Seq<Seq<char>>, item: Seq<char>)
    ensures
        match first_position(items, item) {
            Some(p) => 0 <= p < items.len() && items[p] == item && forall|k: int| 0 <= k < p ==> items[k] != item,
            None => !items.contains(item),
        },
    decreases items.len(),
{
    if items.len() > 0 {
        let prefix = items.drop_last();
        let n = items.len() - 1;
        lemma_first_position(prefix, item);
        assert(items.last() == items[n]);
        assert forall|k: int| 0 <= k < n implies #[trigger] prefix[k] == items[k] by {}
        match first_position(prefix, item) {
            Some(p) => {
                assert(prefix[p] == items[p]);
                assert forall|k: int| 0 <= k < p implies items[k] != item by {
                    assert(prefix[k] == items[k]);
                }
            },
            None => {
                if items[n] == item {
                    assert forall|k: int| 0 <= k < n implies items[k] != item by {
                        assert(prefix[k] == items[k]);
                        if items[k] == item {
                            assert(prefix.contains(item));
                        }
                    }
                } else {
                    if items.contains(item) {
                        let k = choose|k: int| 0 <= k < items.len() && items[k] == item;
                        if k < n {
                            assert(prefix[k] == item);
                            assert(prefix.contains(item));
                        }
                    }
                }
            },
        }
    }
}

/// The common items of the first `n` pairs are all `n` items of `right` exactly
/// when all these pairs are equal.
pub proof fn lemma_zip_common(left: Seq<Seq<char>>, right: Seq<Seq<char>>, n: nat)
    requires
        n <= left.len(),
        n <= right.len(),
    ensures
        zip_common(left, right, n).len() <= n,
        (zip_common(left, right, n) == right.take(n as int)) <==> (forall|k: int| 0 <= k < n ==> left[k] == right[k]),
    decreases n,
{
    if n > 0 {
        let m = (n - 1) as nat;
        lemma_zip_common(left, right, m);
        let rest = zip_common(left, right, m);
        let whole = zip_common(left, right, n);
        assert(right.take(n as int).drop_last() =~= right.take(m as int));
        assert(right.take(n as int) =~= right.take(m as int).push(right[m as int]));
        if left[m as int] == right[m as int] {
            assert(whole == rest.push(left[m as int]));
            assert(whole.drop_last() =~= rest);
            if forall|k: int| 0 <= k < m ==> left[k] == right[k] {
                assert(whole =~= right.take(n as int));
                assert forall|k: int| 0 <= k < n implies left[k] == right[k] by {
                    if k < m {
                        assert(left[k] == right[k]);
                    }
                }
            } else {
                let k = choose|k: int| 0 <= k < m && left[k] != right[k];
                assert(rest != right.take(m as int));
                assert(whole != right.take(n as int));
                assert(!(forall|k: int| 0 <= k < n ==> left[k] == right[k]));
            }
        } else {
            assert(whole == rest);
            assert(whole.len() <= m);
            assert(whole.len() != right.take(n as int).len());
            assert(!(forall|k: int| 0 <= k < n ==> left[k] == right[k]));
        }
    } else {
        assert(right.take(0) =~= zip_common(left, right, 0));
    }
}

/// Finds the first position of `item` in `items`.
fn find_position(items: &Vec<String>, item: &String) -> (position: Option<usize>)
    ensures
        match position {
            Some(p) => first_position(views(items@), item@) == Some(p as int),
            None => first_position(views(items@), item@) is None,
        },
{
    let ghost all = views(items@);
    let mut idx: usize = 0;
    while idx < items.len()
        invariant
            idx <= items.len(),
            all == views(items@),
            first_position(all.take(idx as int), item@) is None,
        decreases items.len() - idx,
    {
        proof {
            assert(all.take(idx + 1).drop_last() =~= all.take(idx as int));
            assert(all.take(idx + 1).last() == items@[idx as int]@);
        }
        if items[idx] == *item {
            proof {
                assert(first_position(all.take(idx + 1), item@) == Some(idx as int));
                lemma_first_position_prefix(all, item@, (idx + 1) as nat);
            }
            return Some(idx);
        }
        idx = idx + 1;
    }
    proof {
        assert(all.take(idx as int) =~= all);
    }
    None
}

/// A position found among the first `n` items is the first position overall.
proof fn lemma_first_position_prefix(items: Seq<Seq<char>>, item: Seq<char>, n: nat)
    requires
        n <= items.len(),
        first_position(items.take(n as int), item) is Some,
    ensures
        first_position(items, item) == first_position(items.take(n as int), item),
    decreases items.len(),
{
    if n < items.len() {
        assert(items.drop_last().take(n as int) =~= items.take(n as int));
        lemma_first_position_prefix(items.drop_last(), item, n);
    } else {
        assert(items.take(n as int) =~= items);
    }
}

/// Returns the items of `left`, from the first occurrence of the first item of
/// `right` on, that equal the item of `right` at the same offset.
pub fn intersection(left: Vec<String>, right: Vec<String>) -> (common: Vec<String>)
    ensures
        views(common@) == intersection_spec(views(left@), views(right@)),
{
    if right.len() == 0 {
        return Vec::new();
    }
    let ghost l = views(left@);
    let ghost r = views(right@);
    let position = match find_position(&left, &right[0]) {
        Some(p) => p,
        None => {
            return Vec::new();
        },
    };
    proof {
        assert(r[0] == right@[0]@);
        lemma_first_position(l, r[0]);
    }
    let ghost rest = l.skip(position as int);
    let mut common: Vec<String> = Vec::new();
    let mut k: usize = 0;
    while position + k < left.len() && k < right.len()
        invariant
            position < left.len(),
            l == views(left@),
            r == views(right@),
            rest == l.skip(position as int),
            k <= right.len(),
            position + k <= left.len(),
            views(common@) == zip_common(rest, r, k as nat),
        decreases right.len() - k,
    {
        if left[position + k] == right[k] {
            common.push(left[position + k].clone());
            proof {
                assert(rest[k as int] == l[position + k]);
                assert(views(common@) =~= zip_common(rest, r, (k + 1) as nat));
            }
        } else {
            proof {
                assert(rest[k as int] == l[position + k]);
            }
        }
        k = k + 1;
    }
    common
}

/// A strict relation's jobs are all found in common with a tour exactly when they
/// appear in the tour as one contiguous block, in order, starting at the first
/// occurrence of the relation's first job.
pub proof fn lemma_strict_relation_is_contiguous_block(ids: Seq<Seq<char>>, jobs: Seq<Seq<char>>)
    ensures
        (intersection_spec(ids, jobs) == jobs) <==> (jobs.len() == 0 || (first_position(ids, jobs[0]) matches Some(p)
            && p + jobs.len() <= ids.len() && ids.subrange(p, p + jobs.len()) == jobs)),
{
    if jobs.len() == 0 {
        assert(intersection_spec(ids, jobs) =~= jobs);
    } else {
        lemma_first_position(ids, jobs[0]);
        match first_position(ids, jobs[0]) {
            None => {
                assert(intersection_spec(ids, jobs).len() == 0);
            },
            Some(p) => {
                let rest = ids.skip(p);
                let n: nat = if rest.len() <= jobs.len() {
                    rest.len()
                } else {
                    jobs.len()
                };
                lemma_zip_common(rest, jobs, n);
                let common = zip_common(rest, jobs, n);
                if common == jobs {
                    assert(n == jobs.len());
                    assert(jobs.take(n as int) =~= jobs);
                    assert(ids.subrange(p, p + jobs.len()) =~= jobs) by {
                        assert forall|k: int| 0 <= k < jobs.len() implies ids.subrange(p, p + jobs.len())[k] == jobs[k] by {
                            assert(rest[k] == ids[p + k]);
                        }
                    }
                }
                if p + jobs.len() <= ids.len() && ids.subrange(p, p + jobs.len()) == jobs {
                    assert(n == jobs.len());
                    assert forall|k: int| 0 <= k < n implies rest[k] == jobs[k] by {
                        assert(ids.subrange(p, p + jobs.len())[k] == ids[p + k]);
                    }
                    assert(jobs.take(n as int) =~= jobs);
                }
            },
        }
    }
}

// endregion

// region Tours

/// Whether the tour serves the vehicle and shift.
pub open spec fn is_tour_of(tour: Tour, vehicle_id: Seq<char>, shift_index: usize) -> bool {
    tour.vehicle_id@ == vehicle_id && tour.shift_index == shift_index
}

/// The index of the first tour of the vehicle and shift.
pub open spec fn tour_index(tours: Seq<Tour>, vehicle_id: Seq<char>, shift_index: usize) -> Option<int>
    decreases tours.len(),
{
    if tours.len() == 0 {
        None
    } else {
        match tour_index(tours.drop_last(), vehicle_id, shift_index) {
            Some(i) => Some(i),
            None => if is_tour_of(tours.last(), vehicle_id, shift_index) {
                Some(tours.len() - 1)
            } else {
                None
            },
        }
    }
}

/// The shift index a relation names, the first shift when it names none.
pub open spec fn shift_or_first(shift_index: Option<usize>) -> usize {
    match shift_index {
        Some(s) => s,
        None => 0,
    }
}

/// Message when no tour of the vehicle exists.
pub open spec fn missing_tour_msg(vehicle_id: Seq<char>) -> Seq<char> {
    "cannot find tour for '"@ + vehicle_id + "'"@
}

/// Finds the tour of the given vehicle and shift (the first shift when none is given).
pub fn get_tour_by_vehicle_id<'a>(vehicle_id: &str, shift_index: Option<usize>, solution: &'a Solution) -> (result:
    Result<&'a Tour, String>)
    ensures
        match result {
            Ok(tour) => tour_index(solution.tours@, vehicle_id@, shift_or_first(shift_index)) matches Some(i)
                && *tour == solution.tours@[i],
            Err(e) => tour_index(solution.tours@, vehicle_id@, shift_or_first(shift_index)) is None && e@
                == missing_tour_msg(vehicle_id@),
        },
{
    let shift = match shift_index {
        Some(s) => s,
        None => 0,
    };
    let tours = &solution.tours;
    let mut idx: usize = 0;
    while idx < tours.len()
        invariant
            idx <= tours.len(),
            tours == &solution.tours,
            shift == shift_or_first(shift_index),
            tour_index(tours@.take(idx as int), vehicle_id@, shift) is None,
        decreases tours.len() - idx,
    {
        proof {
            assert(tours@.take(idx + 1).drop_last() =~= tours@.take(idx as int));
            assert(tours@.take(idx + 1).last() == tours@[idx as int]);
        }
        if str_equal(tours[idx].vehicle_id.as_str(), vehicle_id) && tours[idx].shift_index == shift {
            proof {
                lemma_tour_index_prefix(tours@, vehicle_id@, shift, (idx + 1) as nat);
            }
            return Ok(&tours[idx]);
        }
        idx = idx + 1;
    }
    proof {
        assert(tours@.take(idx as int) =~= tours@);
    }
    let mut message = String::from_str("cannot find tour for '");
    message.append(vehicle_id);
    message.append("'");
    Err(message)
}

/// A tour found among the first `n` tours is the first tour of the vehicle overall.
pub proof fn lemma_tour_index_prefix(tours: Seq<Tour>, vehicle_id: Seq<char>, shift_index: usize, n: nat)
    requires
        n <= tours.len(),
        tour_index(tours.take(n as int), vehicle_id, shift_index) is Some,
    ensures
        tour_index(tours, vehicle_id, shift_index) == tour_index(tours.take(n as int), vehicle_id, shift_index),
    decreases tours.len(),
{
    if n < tours.len() {
        assert(tours.drop_last().take(n as int) =~= tours.take(n as int));
        lemma_tour_index_prefix(tours.drop_last(), vehicle_id, shift_index, n);
    } else {
        assert(tours.take(n as int) =~= tours);
    }
}

// endregion

// region Relation rules

/// Activity ids of the jobs and the reserved ids that relations may name.
pub open spec fn is_reserved_id(id: Seq<char>) -> bool {
    id == "departure"@ || id == "arrival"@ || id == "break"@ || id == "dispatch"@ || id == "reload"@
}

/// The number of activities a relation job id stands for: the tasks of the first
/// job with that id, one for a reserved id; `None` for an unknown id.
pub open spec fn id_task_count(ctx: CheckerContext, id: Seq<char>) -> Option<nat> {
    match job_index(ctx.problem.plan.jobs@, id) {
        Some(j) => Some(job_tasks(ctx.problem.plan.jobs@[j])),
        None => if is_reserved_id(id) {
            Some(1)
        } else {
            None
        },
    }
}

/// Counts the activities of the distinct ids among the first `n` relation job ids;
/// `Err` names the first unknown id.
pub open spec fn relation_count(ctx: CheckerContext, ids: Seq<Seq<char>>, n: nat) -> Result<nat, Seq<char>>
    decreases n,
{
    if n == 0 {
        Ok(0)
    } else {
        match relation_count(ctx, ids, (n - 1) as nat) {
            Err(e) => Err(e),
            Ok(count) => {
                let id = ids[n - 1];
                match id_task_count(ctx, id) {
                    None => Err(id),
                    Some(c) => if ids.take(n - 1).contains(id) {
                        Ok(count)
                    } else {
                        Ok(count + c)
                    },
                }
            },
        }
    }
}

/// The ids of `ids` that are among `members`, in order.
pub open spec fn keep_members(ids: Seq<Seq<char>>, members: Seq<Seq<char>>) -> Seq<Seq<char>>
    decreases ids.len(),
{
    if ids.len() == 0 {
        Seq::empty()
    } else {
        let rest = keep_members(ids.drop_last(), members);
        if members.contains(ids.last()) {
            rest.push(ids.last())
        } else {
            rest
        }
    }
}

/// Whether a tour of another vehicle serves some of the given ids.
pub open spec fn served_elsewhere(tours: Seq<Tour>, vehicle_id: Seq<char>, ids: Seq<Seq<char>>) -> bool {
    exists|t: int, k: int|
        0 <= t < tours.len() && (#[trigger] tours[t]).vehicle_id@ != vehicle_id && 0 <= k < stops_ids(tours[t].stops@).len()
            && ids.contains(#[trigger] stops_ids(tours[t].stops@)[k])
}

pub open spec fn unknown_relation_job_msg(id: Seq<char>) -> Seq<char> {
    "relation has unknown job id: "@ + id
}

pub open spec fn duplicated_ids_msg(idx: nat, jobs: Seq<Seq<char>>) -> Seq<char> {
    "relation "@ + decimal(idx) + " contains duplicated ids: "@ + debug_string_list(jobs)
}

pub open spec fn strict_rule_msg(idx: nat, jobs: Seq<Seq<char>>, ids: Seq<Seq<char>>, common: Seq<Seq<char>>) -> Seq<char> {
    "relation "@ + decimal(idx) + " does not follow strict rule: expected "@ + debug_string_list(jobs) + ", got "@
        + debug_string_list(ids) + ", common: "@ + debug_string_list(common)
}

pub open spec fn sequence_rule_msg(idx: nat, jobs: Seq<Seq<char>>, ids: Seq<Seq<char>>, common: Seq<Seq<char>>) -> Seq<char> {
    "relation "@ + decimal(idx) + " does not follow sequence rule: expected "@ + debug_string_list(jobs) + ", got "@
        + debug_string_list(ids) + ", common: "@ + debug_string_list(common)
}

pub open spec fn another_tour_msg(idx: nat) -> Seq<char> {
    "relation "@ + decimal(idx) + " has jobs assigned to another tour"@
}

/// The outcome of checking the relation at `idx` against its tour.
pub open spec fn relation_rule(ctx: CheckerContext, idx: int) -> Result<(), Seq<char>> {
    let relations = ctx.problem.plan.relations->0@;
    let relation = relations[idx];
    let tours = ctx.solution.tours@;
    let jobs = views(relation.jobs@);
    match tour_index(tours, relation.vehicle_id@, shift_or_first(relation.shift_index)) {
        None => if relation.type_field == RelationType::Any {
            Ok(())
        } else {
            Err(missing_tour_msg(relation.vehicle_id@))
        },
        Some(t) => {
            let ids = stops_ids(tours[t].stops@);
            match relation_count(ctx, jobs, jobs.len()) {
                Err(unknown) => Err(unknown_relation_job_msg(unknown)),
                Ok(count) => if count != jobs.len() {
                    Err(duplicated_ids_msg(idx as nat, jobs))
                } else {
                    match relation.type_field {
                        RelationType::Strict => {
                            let common = intersection_spec(ids, jobs);
                            if common != jobs {
                                Err(strict_rule_msg(idx as nat, jobs, ids, common))
                            } else {
                                Ok(())
                            }
                        },
                        RelationType::Sequence => {
                            let common = keep_members(ids, jobs);
                            if common != jobs {
                                Err(sequence_rule_msg(idx as nat, jobs, ids, common))
                            } else {
                                Ok(())
                            }
                        },
                        RelationType::Any => {
                            if served_elsewhere(tours, tours[t].vehicle_id@, jobs) {
                                Err(another_tour_msg(idx as nat))
                            } else {
                                Ok(())
                            }
                        },
                    }
                },
            }
        },
    }
}

/// The outcomes of the relation rules, by relation index.
pub open spec fn relation_rules(ctx: CheckerContext) -> spec_fn(int) -> Result<(), Seq<char>> {
    |idx: int| relation_rule(ctx, idx)
}

/// The outcome of checking all relations: the first broken rule.
pub open spec fn relations_outcome(ctx: CheckerContext) -> Result<(), Seq<char>> {
    match ctx.problem.plan.relations {
        None => Ok(()),
        Some(relations) => first_error_of(relations.len() as nat, relation_rules(ctx)),
    }
}

/// Checks relation rules.
pub fn check_relations(context: &CheckerContext) -> (result: Result<(), Vec<String>>)
    ensures
        match relations_outcome(*context) {
            Ok(_) => result is Ok,
            Err(e) => results_view(result) == Err::<(), Seq<Seq<char>>>(seq![e]),
        },
{
    let single = check_relations_assignment(context);
    let results = [single];
    let combined = combine_error_results(&results);
    proof {
        let rv = result_views(results@);
        assert(rv =~= seq![result_view(single)]);
        assert(rv.drop_last() =~= Seq::<Result<(), Seq<char>>>::empty());
        assert(errors_of(Seq::<Result<(), Seq<char>>>::empty()) =~= Seq::<Seq<char>>::empty());
        match result_view(single) {
            Ok(_) => {},
            Err(e) => {
                assert(errors_of(rv) =~= seq![e]);
            },
        }
    }
    combined
}

/// Capped accumulation of activity counts: `exceeded` once the sum passes `limit`.
fn add_capped(total: usize, exceeded: bool, value: usize, limit: usize) -> (next: (usize, bool))
    requires
        total <= limit,
    ensures
        next.0 <= limit,
        !exceeded ==> (next.1 <==> total + value > limit),
        !exceeded && !next.1 ==> next.0 == total + value,
        exceeded ==> next.1,
{
    if exceeded || value > limit - total {
        (total, true)
    } else {
        (total + value, false)
    }
}

/// Once an unknown id is met, counting further ids keeps reporting it.
proof fn lemma_relation_count_err_stays(ctx: CheckerContext, ids: Seq<Seq<char>>, n: nat, m: nat)
    requires
        n <= m,
        relation_count(ctx, ids, n) is Err,
    ensures
        relation_count(ctx, ids, m) == relation_count(ctx, ids, n),
    decreases m,
{
    if m > n {
        lemma_relation_count_err_stays(ctx, ids, n, (m - 1) as nat);
    }
}

/// Checks that relation job ids are known and counts their activities; the count
/// stops being exact once it passes the number of relation job ids.
fn relation_task_count(context: &CheckerContext, jobs: &Vec<String>) -> (result: Result<(usize, bool), String>)
    ensures
        match result {
            Ok((count, exceeded)) => relation_count(*context, views(jobs@), jobs.len() as nat) matches Ok(c) && (
            exceeded <==> c > jobs.len()) && (!exceeded ==> count == c),
            Err(e) => relation_count(*context, views(jobs@), jobs.len() as nat) matches Err(u) && e@
                == unknown_relation_job_msg(u),
        },
{
    let ghost ids = views(jobs@);
    let mut reserved = StringSet::new();
    reserved.insert(String::from_str("departure"));
    reserved.insert(String::from_str("arrival"));
    reserved.insert(String::from_str("break"));
    reserved.insert(String::from_str("dispatch"));
    reserved.insert(String::from_str("reload"));
    proof {
        assert forall|id: Seq<char>| string_set_items(reserved).contains(id) <==> is_reserved_id(id) by {}
    }
    let mut seen = StringSet::new();
    let limit = jobs.len();
    let mut total: usize = 0;
    let mut exceeded = false;
    let mut idx: usize = 0;
    while idx < jobs.len()
        invariant
            idx <= jobs.len() == limit,
            ids == views(jobs@),
            total <= limit,
            forall|id: Seq<char>| string_set_items(reserved).contains(id) <==> is_reserved_id(id),
            forall|id: Seq<char>| string_set_items(seen).contains(id) <==> ids.take(idx as int).contains(id),
            relation_count(*context, ids, idx as nat) matches Ok(c) && (exceeded <==> c > limit) && (!exceeded ==> total
                == c),
        decreases jobs.len() - idx,
    {
        let id = &jobs[idx];
        proof {
            assert(ids[idx as int] == id@);
            assert(ids.take(idx + 1) =~= ids.take(idx as int).push(id@));
            assert(ids.take(idx + 1).take(idx as int) =~= ids.take(idx as int));
        }
        match context.get_job_by_id(id.as_str()) {
            Some(job) => {
                let p = super::job_task_size(&job.pickups);
                let d = super::job_task_size(&job.deliveries);
                let r = super::job_task_size(&job.replacements);
                let s = super::job_task_size(&job.services);
                let is_new = seen.insert(id.clone());
                if is_new {
                    let a = add_capped(total, exceeded, p, limit);
                    let b = add_capped(a.0, a.1, d, limit);
                    let c = add_capped(b.0, b.1, r, limit);
                    let e = add_capped(c.0, c.1, s, limit);
                    total = e.0;
                    exceeded = e.1;
                }
            },
            None => {
                if reserved.contains(id.as_str()) {
                    let is_new = seen.insert(id.clone());
                    if is_new {
                        let a = add_capped(total, exceeded, 1, limit);
                        total = a.0;
                        exceeded = a.1;
                    }
                } else {
                    proof {
                        assert(relation_count(*context, ids, (idx + 1) as nat) == Err::<nat, Seq<char>>(id@));
                        lemma_relation_count_err_stays(*context, ids, (idx + 1) as nat, jobs.len() as nat);
                    }
                    let mut message = String::from_str("relation has unknown job id: ");
                    message.append(id.as_str());
                    return Err(message);
                }
            },
        }
        proof {
            let next = ids.take(idx + 1);
            let prev = ids.take(idx as int);
            assert forall|x: Seq<char>| string_set_items(seen).contains(x) <==> next.contains(x) by {
                if next.contains(x) && x != id@ {
                    let k = choose|k: int| 0 <= k < next.len() && next[k] == x;
                    assert(prev[k] == x);
                }
                if prev.contains(x) {
                    let k = choose|k: int| 0 <= k < prev.len() && prev[k] == x;
                    assert(next[k] == x);
                }
                if x == id@ {
                    assert(next[idx as int] == x);
                }
            }
        }
        idx = idx + 1;
    }
    Ok((total, exceeded))
}

/// Checks the relation at `idx` against its tour.
fn check_relation(context: &CheckerContext, idx: usize) -> (result: Result<(), String>)
    requires
        context.problem.plan.relations is Some,
        idx < context.problem.plan.relations->0.len(),
    ensures
        result_view(result) == relation_rule(*context, idx as int),
{
    let relations = match &context.problem.plan.relations {
        Some(r) => r,
        None => unreached(),
    };
    let relation = &relations[idx];
    let tour = match get_tour_by_vehicle_id(relation.vehicle_id.as_str(), relation.shift_index, &context.solution) {
        Ok(tour) => tour,
        Err(e) => {
            return match relation.type_field {
                RelationType::Any => Ok(()),
                _ => Err(e),
            };
        },
    };
    let ghost t = tour_index(context.solution.tours@, relation.vehicle_id@, shift_or_first(relation.shift_index))->0;
    let activity_ids = get_activity_ids(tour);
    let (count, exceeded) = match relation_task_count(context, &relation.jobs) {
        Ok(c) => c,
        Err(e) => {
            return Err(e);
        },
    };
    if exceeded || count != relation.jobs.len() {
        let mut message = String::from_str("relation ");
        message.append(usize_to_string(idx).as_str());
        message.append(" contains duplicated ids: ");
        message.append(debug_strings(&relation.jobs).as_str());
        return Err(message);
    }
    match relation.type_field {
        RelationType::Strict => {
            let left = activity_ids.clone();
            let right = relation.jobs.clone();
            proof {
                assert(left@ =~= activity_ids@);
                assert(right@ =~= relation.jobs@);
            }
            let common = intersection(left, right);
            if !crate::text::same_strings(&common, &relation.jobs) {
                let mut message = String::from_str("relation ");
                message.append(usize_to_string(idx).as_str());
                message.append(" does not follow strict rule: expected ");
                message.append(debug_strings(&relation.jobs).as_str());
                message.append(", got ");
                message.append(debug_strings(&activity_ids).as_str());
                message.append(", common: ");
                message.append(debug_strings(&common).as_str());
                Err(message)
            } else {
                Ok(())
            }
        },
        RelationType::Sequence => {
            let members = string_set_of(&relation.jobs);
            let ids = keep_known(&activity_ids, &members);
            proof {
                lemma_keep_members_set(views(activity_ids@), views(relation.jobs@), string_set_items(members));
            }
            if !crate::text::same_strings(&ids, &relation.jobs) {
                let mut message = String::from_str("relation ");
                message.append(usize_to_string(idx).as_str());
                message.append(" does not follow sequence rule: expected ");
                message.append(debug_strings(&relation.jobs).as_str());
                message.append(", got ");
                message.append(debug_strings(&activity_ids).as_str());
                message.append(", common: ");
                message.append(debug_strings(&ids).as_str());
                Err(message)
            } else {
                Ok(())
            }
        },
        RelationType::Any => {
            let members = string_set_of(&relation.jobs);
            if has_wrong_assignment(&context.solution.tours, tour.vehicle_id.as_str(), &members) {
                let mut message = String::from_str("relation ");
                message.append(usize_to_string(idx).as_str());
                message.append(" has jobs assigned to another tour");
                Err(message)
            } else {
                Ok(())
            }
        },
    }
}

/// The set of the given strings.
fn string_set_of(items: &Vec<String>) -> (set: StringSet)
    ensures
        forall|x: Seq<char>| #[trigger] string_set_items(set).contains(x) <==> views(items@).contains(x),
{
    let mut set = StringSet::new();
    let mut idx: usize = 0;
    while idx < items.len()
        invariant
            idx <= items.len(),
            forall|x: Seq<char>| #[trigger] string_set_items(set).contains(x) <==> views(items@).take(idx as int).contains(x),
        decreases items.len() - idx,
    {
        set.insert(items[idx].clone());
        proof {
            let v = views(items@);
            let next = v.take(idx + 1);
            let prev = v.take(idx as int);
            assert forall|x: Seq<char>| #[trigger] string_set_items(set).contains(x) <==> next.contains(x) by {
                if next.contains(x) && x != items@[idx as int]@ {
                    let k = choose|k: int| 0 <= k < next.len() && next[k] == x;
                    assert(prev[k] == x);
                }
                if prev.contains(x) {
                    let k = choose|k: int| 0 <= k < prev.len() && prev[k] == x;
                    assert(next[k] == x);
                }
                if x == items@[idx as int]@ {
                    assert(next[idx as int] == x);
                }
            }
        }
        idx = idx + 1;
    }
    proof {
        assert(views(items@).take(idx as int) =~= views(items@));
    }
    set
}

/// The ids of `ids` held by the set `members`, in order.
pub open spec fn keep_in_set(ids: Seq<Seq<char>>, members: Set<Seq<char>>) -> Seq<Seq<char>>
    decreases ids.len(),
{
    if ids.len() == 0 {
        Seq::empty()
    } else {
        let rest = keep_in_set(ids.drop_last(), members);
        if members.contains(ids.last()) {
            rest.push(ids.last())
        } else {
            rest
        }
    }
}

/// Keeping members of a set equals keeping members of a list with the same items.
proof fn lemma_keep_members_set(ids: Seq<Seq<char>>, members: Seq<Seq<char>>, set: Set<Seq<char>>)
    requires
        forall|x: Seq<char>| #[trigger] set.contains(x) <==> members.contains(x),
    ensures
        keep_in_set(ids, set) == keep_members(ids, members),
    decreases ids.len(),
{
    if ids.len() > 0 {
        lemma_keep_members_set(ids.drop_last(), members, set);
    }
}

/// Keeps the ids held by the set, in order.
fn keep_known(ids: &Vec<String>, members: &StringSet) -> (kept: Vec<String>)
    ensures
        views(kept@) == keep_in_set(views(ids@), string_set_items(*members)),
{
    let mut kept: Vec<String> = Vec::new();
    let mut idx: usize = 0;
    while idx < ids.len()
        invariant
            idx <= ids.len(),
            views(kept@) == keep_in_set(views(ids@).take(idx as int), string_set_items(*members)),
        decreases ids.len() - idx,
    {
        proof {
            assert(views(ids@).take(idx + 1).drop_last() =~= views(ids@).take(idx as int));
            assert(views(ids@).take(idx + 1).last() == ids@[idx as int]@);
        }
        if members.contains(ids[idx].as_str()) {
            kept.push(ids[idx].clone());
            proof {
                assert(views(kept@) =~= keep_in_set(views(ids@).take(idx + 1), string_set_items(*members)));
            }
        }
        idx = idx + 1;
    }
    proof {
        assert(views(ids@).take(idx as int) =~= views(ids@));
    }
    kept
}

/// Whether a tour of a vehicle other than `vehicle_id` serves an id of the set.
fn has_wrong_assignment(tours: &Vec<Tour>, vehicle_id: &str, members: &StringSet) -> (found: bool)
    ensures
        found == exists|t: int, k: int|
            0 <= t < tours@.len() && (#[trigger] tours@[t]).vehicle_id@ != vehicle_id@ && 0 <= k < stops_ids(
                tours@[t].stops@,
            ).len() && string_set_items(*members).contains(#[trigger] stops_ids(tours@[t].stops@)[k]),
{
    let mut t: usize = 0;
    while t < tours.len()
        invariant
            t <= tours.len(),
            forall|i: int, k: int|
                0 <= i < t && (#[trigger] tours@[i]).vehicle_id@ != vehicle_id@ && 0 <= k < stops_ids(tours@[i].stops@).len()
                    ==> !string_set_items(*members).contains(#[trigger] stops_ids(tours@[i].stops@)[k]),
        decreases tours.len() - t,
    {
        if !str_equal(tours[t].vehicle_id.as_str(), vehicle_id) {
            let ids = get_activity_ids(&tours[t]);
            let mut k: usize = 0;
            while k < ids.len()
                invariant
                    k <= ids.len(),
                    t < tours.len(),
                    tours@[t as int].vehicle_id@ != vehicle_id@,
                    views(ids@) == stops_ids(tours@[t as int].stops@),
                    forall|j: int| 0 <= j < k ==> !string_set_items(*members).contains(#[trigger] views(ids@)[j]),
                decreases ids.len() - k,
            {
                if members.contains(ids[k].as_str()) {
                    proof {
                        assert(views(ids@)[k as int] == ids@[k as int]@);
                        assert(string_set_items(*members).contains(stops_ids(tours@[t as int].stops@)[k as int]));
                    }
                    return true;
                }
                proof {
                    assert(views(ids@)[k as int] == ids@[k as int]@);
                }
                k = k + 1;
            }
            proof {
                assert forall|i: int, j: int|
                    0 <= i < t + 1 && (#[trigger] tours@[i]).vehicle_id@ != vehicle_id@ && 0 <= j < stops_ids(tours@[i].stops@).len()
                        implies !string_set_items(*members).contains(#[trigger] stops_ids(tours@[i].stops@)[j]) by {
                    if i == t {
                        assert(views(ids@)[j] == stops_ids(tours@[i].stops@)[j]);
                    }
                }
            }
        }
        t = t + 1;
    }
    false
}

/// Checks all relation rules, stopping at the first broken one.
pub fn check_relations_assignment(context: &CheckerContext) -> (result: Result<(), String>)
    ensures
        result_view(result) == relations_outcome(*context),
{
    let relations = match &context.problem.plan.relations {
        Some(r) => r,
        None => {
            return Ok(());
        },
    };
    let mut idx: usize = 0;
    while idx < relations.len()
        invariant
            idx <= relations.len(),
            context.problem.plan.relations == Some(*relations),
            first_error_of(idx as nat, relation_rules(*context)) is Ok,
        decreases relations.len() - idx,
    {
        let checked = check_relation(context, idx);
        if checked.is_err() {
            proof {
                assert(relation_rules(*context)(idx as int) == result_view(checked));
                assert(first_error_of((idx + 1) as nat, relation_rules(*context)) == result_view(checked));
                lemma_first_error_stays((idx + 1) as nat, relations.len() as nat, relation_rules(*context));
            }
            return checked;
        }
        proof {
            assert(relation_rules(*context)(idx as int) == result_view(checked));
        }
        idx = idx + 1;
    }
    Ok(())
}

// endregion

/// The ids kept are the ids that are members, in their order.
pub proof fn lemma_keep_members_filters(ids: Seq<Seq<char>>, members: Seq<Seq<char>>)
    ensures
        keep_members(ids, members) == ids.filter(|id: Seq<char>| members.contains(id)),
    decreases ids.len(),
{
    reveal(Seq::filter);
    if ids.len() > 0 {
        lemma_keep_members_filters(ids.drop_last(), members);
    }
}

/// Sequence relations are kept: when the relation check passes, for every
/// sequence relation whose vehicle has a tour, the ids of that tour's activities
/// that are among the relation's jobs are, in tour order, exactly the
/// relation's jobs in their listed order.
pub proof fn lemma_sequence_relation_in_order(ctx: CheckerContext, idx: int)
    requires
        relations_outcome(ctx) is Ok,
        ctx.problem.plan.relations is Some,
        0 <= idx < ctx.problem.plan.relations->0.len(),
        ctx.problem.plan.relations->0@[idx].type_field == RelationType::Sequence,
        tour_index(
            ctx.solution.tours@,
            ctx.problem.plan.relations->0@[idx].vehicle_id@,
            shift_or_first(ctx.problem.plan.relations->0@[idx].shift_index),
        ) is Some,
    ensures
        ({
            let relation = ctx.problem.plan.relations->0@[idx];
            let jobs = views(relation.jobs@);
            let t = tour_index(ctx.solution.tours@, relation.vehicle_id@, shift_or_first(relation.shift_index))->Some_0;
            stops_ids(ctx.solution.tours@[t].stops@).filter(|id: Seq<char>| jobs.contains(id)) == jobs
        }),
{
    let relations = ctx.problem.plan.relations->0;
    super::lemma_first_error_ok(relations.len() as nat, relation_rules(ctx));
    assert(relation_rules(ctx)(idx) is Ok);
    let relation = relations@[idx];
    let jobs = views(relation.jobs@);
    let t = tour_index(ctx.solution.tours@, relation.vehicle_id@, shift_or_first(relation.shift_index))->Some_0;
    lemma_keep_members_filters(stops_ids(ctx.solution.tours@[t].stops@), jobs);
}

} // verus!
