//! Checks that every served job's skill requirement is met by its vehicle.

use super::{
    dedup_messages, dedup_strings, first_error_of, job_index, lemma_first_error_stays, lemma_stops_activities_at,
    result_view, results_view, stops_activities, unknown_vehicle_msg, vehicle_index, CheckerContext,
};
use crate::collections::{string_set_items, StringSet};
use crate::model::{Activity, JobSkills, Tour};
use crate::text::{decimal, usize_to_string, views};
use vstd::prelude::*;

verus! {

/// The skills of a list, as a set.
pub open spec fn skill_set(skills: Option<Vec<String>>) -> Option<Set<Seq<char>>> {
    match skills {
        Some(v) => Some(views(v@).to_set()),
        None => None,
    }
}

/// The skills of a list, in order.
pub open spec fn skill_list(skills: Option<&Vec<String>>) -> Option<Seq<Seq<char>>> {
    match skills {
        Some(v) => Some(views(v@)),
        None => None,
    }
}

/// The skills a set holds.
pub open spec fn held_set(held: Option<&StringSet>) -> Option<Set<Seq<char>>> {
    match held {
        Some(h) => Some(string_set_items(*h)),
        None => None,
    }
}

/// A demand: a list with at least one skill; an empty list demands nothing.
pub open spec fn demand_of(skills: Option<Vec<String>>) -> Option<Seq<Seq<char>>> {
    match skills {
        Some(v) => if v.len() > 0 {
            Some(views(v@))
        } else {
            None
        },
        None => None,
    }
}

/// Every skill of the list is held.
pub open spec fn holds_all(demanded: Seq<Seq<char>>, held: Set<Seq<char>>) -> bool {
    forall|i: int| 0 <= i < demanded.len() ==> held.contains(#[trigger] demanded[i])
}

/// Some skill of the list is held.
pub open spec fn holds_some(demanded: Seq<Seq<char>>, held: Set<Seq<char>>) -> bool {
    exists|i: int| 0 <= i < demanded.len() && held.contains(#[trigger] demanded[i])
}

/// Every demanded skill is held; nothing can be held when skills are demanded
/// of a vehicle without skills.
pub open spec fn all_of_met(demanded: Option<Seq<Seq<char>>>, held: Option<Set<Seq<char>>>) -> bool {
    match (demanded, held) {
        (Some(d), Some(h)) => holds_all(d, h),
        (Some(_), None) => false,
        _ => true,
    }
}

/// At least one demanded skill is held.
pub open spec fn one_of_met(demanded: Option<Seq<Seq<char>>>, held: Option<Set<Seq<char>>>) -> bool {
    match (demanded, held) {
        (Some(d), Some(h)) => holds_some(d, h),
        (Some(_), None) => false,
        _ => true,
    }
}

/// No demanded skill is held.
pub open spec fn none_of_met(demanded: Option<Seq<Seq<char>>>, held: Option<Set<Seq<char>>>) -> bool {
    match (demanded, held) {
        (Some(d), Some(h)) => !holds_some(d, h),
        _ => true,
    }
}

/// The job's skill demands are met by the held skills.
pub open spec fn skills_met(skills: JobSkills, held: Option<Set<Seq<char>>>) -> bool {
    &&& all_of_met(demand_of(skills.all_of), held)
    &&& one_of_met(demand_of(skills.one_of), held)
    &&& none_of_met(demand_of(skills.none_of), held)
}

/// Returns the list when it demands at least one skill.
pub fn demand(skills: Option<&Vec<String>>) -> (result: Option<&Vec<String>>)
    ensures
        result == (match skills {
            Some(v) => if v.len() > 0 {
                Some(v)
            } else {
                None
            },
            None => None,
        }),
{
    match skills {
        Some(v) => if v.len() > 0 {
            Some(v)
        } else {
            None
        },
        None => None,
    }
}

/// Whether all demanded skills are held.
pub fn check_all_of(demanded: Option<&Vec<String>>, held: Option<&StringSet>) -> (met: bool)
    ensures
        met == all_of_met(skill_list(demanded), held_set(held)),
{
    match (demanded, held) {
        (Some(d), Some(h)) => {
            let mut idx: usize = 0;
            assert(views(d@).len() == d@.len());
            while idx < d.len()
                invariant
                    idx <= d.len(),
                    demanded == Some(d),
                    held == Some(h),
                    views(d@).len() == d@.len(),
                    forall|i: int| 0 <= i < idx ==> string_set_items(*h).contains(#[trigger] views(d@)[i]),
                decreases d.len() - idx,
            {
                if !h.contains(d[idx].as_str()) {
                    proof {
                        assert(!string_set_items(*h).contains(views(d@)[idx as int]));
                    }
                    return false;
                }
                idx = idx + 1;
            }
            true
        },
        (Some(_), None) => false,
        _ => true,
    }
}

/// Whether some held skill is among the demanded ones.
fn holds_any(d: &Vec<String>, h: &StringSet) -> (found: bool)
    ensures
        found == holds_some(views(d@), string_set_items(*h)),
{
    let mut idx: usize = 0;
    assert(views(d@).len() == d@.len());
    while idx < d.len()
        invariant
            idx <= d.len(),
            views(d@).len() == d@.len(),
            forall|i: int| 0 <= i < idx ==> !string_set_items(*h).contains(#[trigger] views(d@)[i]),
        decreases d.len() - idx,
    {
        if h.contains(d[idx].as_str()) {
            proof {
                assert(string_set_items(*h).contains(views(d@)[idx as int]));
            }
            return true;
        }
        idx = idx + 1;
    }
    false
}

/// Whether at least one demanded skill is held.
pub fn check_one_of(demanded: Option<&Vec<String>>, held: Option<&StringSet>) -> (met: bool)
    ensures
        met == one_of_met(skill_list(demanded), held_set(held)),
{
    match demanded {
        Some(d) => match held {
            Some(h) => {
                holds_any(d, h)
            },
            None => false,
        },
        None => true,
    }
}

/// Whether no demanded skill is held.
pub fn check_none_of(demanded: Option<&Vec<String>>, held: Option<&StringSet>) -> (met: bool)
    ensures
        met == none_of_met(skill_list(demanded), held_set(held)),
{
    match demanded {
        Some(d) => match held {
            Some(h) => !holds_any(d, h),
            None => true,
        },
        None => true,
    }
}

/// Whether the job's skill demands are met by the held skills.
pub fn is_satisfied(job_skills: &JobSkills, vehicle_skills: Option<&StringSet>) -> (met: bool)
    ensures
        met == skills_met(*job_skills, held_set(vehicle_skills)),
{
    check_all_of(demand(job_skills.all_of.as_ref()), vehicle_skills) && check_one_of(
        demand(job_skills.one_of.as_ref()),
        vehicle_skills,
    ) && check_none_of(demand(job_skills.none_of.as_ref()), vehicle_skills)
}

/// Message for a job whose skill demands its vehicle does not meet.
pub open spec fn skills_violation_msg(job_id: Seq<char>, vehicle_id: Seq<char>, shift: usize) -> Seq<char> {
    "job '"@ + job_id + "' requires skills its vehicle does not hold, vehicle id '"@ + vehicle_id
        + "', shift index: "@ + decimal(shift as nat)
}

/// The violation of an activity, if any: the first job with its id has skill
/// demands that the held skills do not meet.
pub open spec fn activity_violation(ctx: CheckerContext, tour: Tour, held: Option<Set<Seq<char>>>, activity: Activity) -> Option<
    Seq<char>,
> {
    let jobs = ctx.problem.plan.jobs@;
    match job_index(jobs, activity.job_id@) {
        Some(j) => match jobs[j].skills {
            Some(sk) => if skills_met(sk, held) {
                None
            } else {
                Some(skills_violation_msg(jobs[j].id@, tour.vehicle_id@, tour.shift_index))
            },
            None => None,
        },
        None => None,
    }
}

/// The violations of the first `n` activities of a tour.
pub open spec fn tour_violations(ctx: CheckerContext, tour: Tour, held: Option<Set<Seq<char>>>, n: nat) -> Seq<Seq<char>>
    decreases n,
{
    if n == 0 {
        Seq::empty()
    } else {
        let rest = tour_violations(ctx, tour, held, (n - 1) as nat);
        match activity_violation(ctx, tour, held, stops_activities(tour.stops@)[n - 1]) {
            Some(m) => rest.push(m),
            None => rest,
        }
    }
}

/// The skills of the vehicle of a tour.
pub open spec fn tour_held(ctx: CheckerContext, tour: Tour) -> Option<Set<Seq<char>>> {
    let vehicles = ctx.problem.fleet.vehicles@;
    match vehicle_index(vehicles, tour.vehicle_id@) {
        Some(v) => skill_set(vehicles[v].skills),
        None => None,
    }
}

/// The violations of the first `m` tours.
pub open spec fn skill_violations(ctx: CheckerContext, m: nat) -> Seq<Seq<char>>
    decreases m,
{
    if m == 0 {
        Seq::empty()
    } else {
        let tour = ctx.solution.tours@[m - 1];
        skill_violations(ctx, (m - 1) as nat) + tour_violations(
            ctx,
            tour,
            tour_held(ctx, tour),
            stops_activities(tour.stops@).len(),
        )
    }
}

/// The rule that the vehicle of tour `t` is known.
pub open spec fn known_vehicle_rule(ctx: CheckerContext, t: int) -> Result<(), Seq<char>> {
    let id = ctx.solution.tours@[t].vehicle_id@;
    if vehicle_index(ctx.problem.fleet.vehicles@, id) is None {
        Err(unknown_vehicle_msg(id))
    } else {
        Ok(())
    }
}

pub open spec fn known_vehicle_rules(ctx: CheckerContext) -> spec_fn(int) -> Result<(), Seq<char>> {
    |t: int| known_vehicle_rule(ctx, t)
}

/// The outcome of the skill rule: the first tour with an unknown vehicle, or
/// else every violation once, in order of appearance.
pub open spec fn skills_outcome(ctx: CheckerContext) -> Result<(), Seq<Seq<char>>> {
    let n = ctx.solution.tours.len() as nat;
    match first_error_of(n, known_vehicle_rules(ctx)) {
        Err(e) => Err(seq![e]),
        Ok(_) => {
            let found = skill_violations(ctx, n);
            if found.len() == 0 {
                Ok(())
            } else {
                Err(dedup_messages(found))
            }
        },
    }
}

/// Adds the violations of a tour to `found`.
fn collect_tour_violations(ctx: &CheckerContext, tour: &Tour, held: Option<&StringSet>, found: &mut Vec<String>)
    ensures
        views(final(found)@) == views(old(found)@) + tour_violations(
            *ctx,
            *tour,
            held_set(held),
            stops_activities(tour.stops@).len(),
        ),
{
    let ghost start = views(found@);
    let ghost mut idx: int = 0;
    let mut s: usize = 0;
    proof {
        assert(views(found@) =~= start + tour_violations(*ctx, *tour, held_set(held), 0));
    }
    while s < tour.stops.len()
        invariant
            s <= tour.stops.len(),
            idx == stops_activities(tour.stops@.take(s as int)).len(),
            views(found@) == start + tour_violations(*ctx, *tour, held_set(held), idx as nat),
        decreases tour.stops.len() - s,
    {
        let stop = &tour.stops[s];
        let mut a: usize = 0;
        while a < stop.activities.len()
            invariant
                s < tour.stops.len(),
                stop == &tour.stops@[s as int],
                a <= stop.activities.len(),
                idx == stops_activities(tour.stops@.take(s as int)).len() + a,
                views(found@) == start + tour_violations(*ctx, *tour, held_set(held), idx as nat),
            decreases stop.activities.len() - a,
        {
            let activity = &stop.activities[a];
            proof {
                lemma_stops_activities_at(tour.stops@, s as int, a as int);
                assert(stops_activities(tour.stops@)[idx] == *activity);
            }
            let ghost before = views(found@);
            let ghost violation = activity_violation(*ctx, *tour, held_set(held), *activity);
            match ctx.get_job_by_id(activity.job_id.as_str()) {
                Some(job) => match &job.skills {
                    Some(skills) => {
                        if !is_satisfied(skills, held) {
                            let mut message = String::from_str("job '");
                            message.append(job.id.as_str());
                            message.append("' requires skills its vehicle does not hold, vehicle id '");
                            message.append(tour.vehicle_id.as_str());
                            message.append("', shift index: ");
                            message.append(usize_to_string(tour.shift_index).as_str());
                            found.push(message);
                            proof {
                                assert(violation == Some(message@));
                                assert(views(found@) =~= before.push(message@));
                            }
                        } else {
                            assert(violation is None);
                        }
                    },
                    None => {
                        assert(violation is None);
                    },
                },
                None => {
                    assert(violation is None);
                },
            }
            proof {
                let n = (idx + 1) as nat;
                assert(tour_violations(*ctx, *tour, held_set(held), n) == match violation {
                    Some(m) => tour_violations(*ctx, *tour, held_set(held), idx as nat).push(m),
                    None => tour_violations(*ctx, *tour, held_set(held), idx as nat),
                });
                assert(views(found@) =~= start + tour_violations(*ctx, *tour, held_set(held), n));
                idx = idx + 1;
            }
            a = a + 1;
        }
        proof {
            assert(tour.stops@.take(s + 1).drop_last() =~= tour.stops@.take(s as int));
            assert(tour.stops@.take(s + 1).last() == *stop);
        }
        s = s + 1;
    }
    proof {
        assert(tour.stops@.take(s as int) =~= tour.stops@);
    }
}

/// Checks that every served job's skill requirement is met by the vehicle
/// serving it: `allOf` must be held entirely, `oneOf` needs one held skill and
/// `noneOf` none; an empty list demands nothing. A repeated violation is reported once.
pub fn check_skills(context: &CheckerContext) -> (result: Result<(), Vec<String>>)
    ensures
        results_view(result) == skills_outcome(*context),
{
    let tours = &context.solution.tours;
    let mut found: Vec<String> = Vec::new();
    let mut t: usize = 0;
    while t < tours.len()
        invariant
            t <= tours.len(),
            tours == &context.solution.tours,
            first_error_of(t as nat, known_vehicle_rules(*context)) is Ok,
            views(found@) == skill_violations(*context, t as nat),
        decreases tours.len() - t,
    {
        let tour = &tours[t];
        match context.get_vehicle(tour.vehicle_id.as_str()) {
            Err(e) => {
                let mut errors: Vec<String> = Vec::new();
                errors.push(e);
                proof {
                    assert(known_vehicle_rules(*context)(t as int) == result_view(Err(errors@[0])));
                    lemma_first_error_stays((t + 1) as nat, tours.len() as nat, known_vehicle_rules(*context));
                    assert(views(errors@) =~= seq![errors@[0]@]);
                }
                return Err(errors);
            },
            Ok(vehicle) => {
                let held = match &vehicle.skills {
                    Some(skills) => Some(StringSet::from_strings(skills)),
                    None => None,
                };
                let held_ref = match &held {
                    Some(h) => Some(h),
                    None => None,
                };
                proof {
                    assert(held_set(held_ref) == tour_held(*context, *tour));
                    assert(known_vehicle_rules(*context)(t as int) is Ok);
                }
                collect_tour_violations(context, tour, held_ref, &mut found);
            },
        }
        t = t + 1;
    }
    if found.len() == 0 {
        Ok(())
    } else {
        Err(dedup_strings(&found))
    }
}


/// An empty list demands nothing: a job whose skill lists are all empty is
/// served by any vehicle, with or without skills.
pub proof fn lemma_empty_lists_demand_nothing(skills: JobSkills, held: Option<Set<Seq<char>>>)
    requires
        skills.all_of is None || skills.all_of->0.len() == 0,
        skills.one_of is None || skills.one_of->0.len() == 0,
        skills.none_of is None || skills.none_of->0.len() == 0,
    ensures
        skills_met(skills, held),
{
}

/// For a vehicle with skills, a non-empty `noneOf` list is met exactly when the
/// same list as `oneOf` would not be.
pub proof fn lemma_none_of_is_not_one_of(demanded: Seq<Seq<char>>, held: Set<Seq<char>>)
    requires
        demanded.len() > 0,
    ensures
        none_of_met(Some(demanded), Some(held)) == !one_of_met(Some(demanded), Some(held)),
{
}

/// When the skill check passes, every vehicle of a tour is known and every
/// served job's skill demands are met by its vehicle.
pub proof fn lemma_skills_pass_means_demands_met(ctx: CheckerContext)
    requires
        skills_outcome(ctx) is Ok,
    ensures
        forall|t: int|
            0 <= t < ctx.solution.tours.len() ==> vehicle_index(
                ctx.problem.fleet.vehicles@,
                (#[trigger] ctx.solution.tours@[t]).vehicle_id@,
            ) is Some,
        skill_violations(ctx, ctx.solution.tours.len() as nat).len() == 0,
{
    let n = ctx.solution.tours.len() as nat;
    if first_error_of(n, known_vehicle_rules(ctx)) is Ok {
        super::lemma_first_error_ok(n, known_vehicle_rules(ctx));
        assert forall|t: int|
            0 <= t < ctx.solution.tours.len() implies vehicle_index(
            ctx.problem.fleet.vehicles@,
            (#[trigger] ctx.solution.tours@[t]).vehicle_id@,
        ) is Some by {
            assert(known_vehicle_rules(ctx)(t) is Ok);
        }
    }
}

/// What meeting a job's skill demands means for a vehicle holding the skills
/// `held`: every skill of a non-empty `allOf` is held, some skill of a
/// non-empty `oneOf` is held, and no skill of `noneOf` is held.
pub proof fn lemma_skills_met_means(skills: JobSkills, held: Set<Seq<char>>)
    ensures
        skills_met(skills, Some(held)) <==> ({
            &&& match skills.all_of {
                Some(v) => forall|i: int| 0 <= i < v.len() ==> held.contains(#[trigger] v@[i]@),
                None => true,
            }
            &&& match skills.one_of {
                Some(v) => v.len() > 0 ==> exists|i: int| 0 <= i < v.len() && held.contains(#[trigger] v@[i]@),
                None => true,
            }
            &&& match skills.none_of {
                Some(v) => forall|i: int| 0 <= i < v.len() ==> !held.contains(#[trigger] v@[i]@),
                None => true,
            }
        }),
{
    lemma_all_of_means(skills.all_of, held);
    lemma_one_of_means(skills.one_of, held);
    lemma_none_of_means(skills.none_of, held);
}

proof fn lemma_all_of_means(list: Option<Vec<String>>, held: Set<Seq<char>>)
    ensures
        all_of_met(demand_of(list), Some(held)) <==> match list {
            Some(v) => forall|i: int| 0 <= i < v.len() ==> held.contains(#[trigger] v@[i]@),
            None => true,
        },
{
    lemma_views_index(list);
    if let Some(v) = list {
        if v.len() > 0 {
            if all_of_met(demand_of(list), Some(held)) {
                assert forall|i: int| 0 <= i < v.len() implies held.contains(#[trigger] v@[i]@) by {
                    assert(held.contains(views(v@)[i]));
                }
            } else {
                let i = choose|i: int| 0 <= i < views(v@).len() && !held.contains(#[trigger] views(v@)[i]);
                assert(!held.contains(v@[i]@));
            }
        }
    }
}

proof fn lemma_one_of_means(list: Option<Vec<String>>, held: Set<Seq<char>>)
    ensures
        one_of_met(demand_of(list), Some(held)) <==> match list {
            Some(v) => v.len() > 0 ==> exists|i: int| 0 <= i < v.len() && held.contains(#[trigger] v@[i]@),
            None => true,
        },
{
    lemma_views_index(list);
    if let Some(v) = list {
        if v.len() > 0 {
            if one_of_met(demand_of(list), Some(held)) {
                let i = choose|i: int| 0 <= i < views(v@).len() && held.contains(#[trigger] views(v@)[i]);
                assert(held.contains(v@[i]@));
            } else if exists|i: int| 0 <= i < v.len() && held.contains(#[trigger] v@[i]@) {
                let i = choose|i: int| 0 <= i < v.len() && held.contains(#[trigger] v@[i]@);
                assert(held.contains(views(v@)[i]));
            }
        }
    }
}

proof fn lemma_none_of_means(list: Option<Vec<String>>, held: Set<Seq<char>>)
    ensures
        none_of_met(demand_of(list), Some(held)) <==> match list {
            Some(v) => forall|i: int| 0 <= i < v.len() ==> !held.contains(#[trigger] v@[i]@),
            None => true,
        },
{
    lemma_views_index(list);
    if let Some(v) = list {
        if v.len() > 0 {
            if none_of_met(demand_of(list), Some(held)) {
                assert forall|i: int| 0 <= i < v.len() implies !held.contains(#[trigger] v@[i]@) by {
                    if held.contains(v@[i]@) {
                        assert(held.contains(views(v@)[i]));
                    }
                }
            } else {
                let i = choose|i: int| 0 <= i < views(v@).len() && held.contains(#[trigger] views(v@)[i]);
                assert(held.contains(v@[i]@));
            }
        }
    }
}

/// What meeting a job's skill demands means for a vehicle without skills: the
/// job demands nothing by `allOf` and `oneOf`.
pub proof fn lemma_skills_met_without_skills(skills: JobSkills)
    ensures
        skills_met(skills, None) <==> ({
            &&& (skills.all_of is None || skills.all_of->0.len() == 0)
            &&& (skills.one_of is None || skills.one_of->0.len() == 0)
        }),
{
}

/// The views of a list are its strings' views, one by one.
proof fn lemma_views_index(list: Option<Vec<String>>)
    ensures
        list matches Some(v) ==> views(v@).len() == v.len() && forall|i: int|
            0 <= i < v.len() ==> #[trigger] views(v@)[i] == v@[i]@,
{
}

/// The violations of the first `n` activities of a tour include every activity
/// whose job's skill demands are not met.
proof fn lemma_tour_violations_cover(ctx: CheckerContext, tour: Tour, held: Option<Set<Seq<char>>>, n: nat, a: int)
    requires
        0 <= a < n <= stops_activities(tour.stops@).len(),
        activity_violation(ctx, tour, held, stops_activities(tour.stops@)[a]) is Some,
    ensures
        tour_violations(ctx, tour, held, n).len() > 0,
    decreases n,
{
    if a < n - 1 {
        lemma_tour_violations_cover(ctx, tour, held, (n - 1) as nat, a);
    }
}

/// The violations of the first `m` tours include those of each of them.
proof fn lemma_skill_violations_cover(ctx: CheckerContext, m: nat, t: int)
    requires
        0 <= t < m <= ctx.solution.tours.len(),
        ({
            let tour = ctx.solution.tours@[t];
            tour_violations(ctx, tour, tour_held(ctx, tour), stops_activities(tour.stops@).len()).len() > 0
        }),
    ensures
        skill_violations(ctx, m).len() > 0,
    decreases m,
{
    if t < m - 1 {
        lemma_skill_violations_cover(ctx, (m - 1) as nat, t);
    }
}

/// Skill demands are met: when the skill check passes, every served activity of
/// a job with skill demands is in a tour whose vehicle holds every skill of the
/// job's non-empty `allOf`, some skill of its non-empty `oneOf`, and no skill of
/// its `noneOf`.
pub proof fn lemma_skills_pass_serves_demands(ctx: CheckerContext, t: int, a: int)
    requires
        skills_outcome(ctx) is Ok,
        0 <= t < ctx.solution.tours.len(),
        0 <= a < stops_activities(ctx.solution.tours@[t].stops@).len(),
        job_index(ctx.problem.plan.jobs@, stops_activities(ctx.solution.tours@[t].stops@)[a].job_id@) is Some,
        ctx.problem.plan.jobs@[job_index(
            ctx.problem.plan.jobs@,
            stops_activities(ctx.solution.tours@[t].stops@)[a].job_id@,
        )->Some_0].skills is Some,
    ensures
        vehicle_index(ctx.problem.fleet.vehicles@, ctx.solution.tours@[t].vehicle_id@) is Some,
        ({
            let jobs = ctx.problem.plan.jobs@;
            let skills = jobs[job_index(jobs, stops_activities(ctx.solution.tours@[t].stops@)[a].job_id@)->Some_0].skills->0;
            let vehicle = ctx.problem.fleet.vehicles@[vehicle_index(
                ctx.problem.fleet.vehicles@,
                ctx.solution.tours@[t].vehicle_id@,
            )->Some_0];
            let held = match vehicle.skills {
                Some(v) => views(v@).to_set(),
                None => Set::empty(),
            };
            &&& match skills.all_of {
                Some(v) => v.len() > 0 ==> vehicle.skills is Some && forall|i: int|
                    0 <= i < v.len() ==> held.contains(#[trigger] v@[i]@),
                None => true,
            }
            &&& match skills.one_of {
                Some(v) => v.len() > 0 ==> vehicle.skills is Some && exists|i: int|
                    0 <= i < v.len() && held.contains(#[trigger] v@[i]@),
                None => true,
            }
            &&& match skills.none_of {
                Some(v) => forall|i: int| 0 <= i < v.len() ==> !held.contains(#[trigger] v@[i]@),
                None => true,
            }
        }),
{
    lemma_skills_pass_means_demands_met(ctx);
    let tour = ctx.solution.tours@[t];
    let held = tour_held(ctx, tour);
    let act = stops_activities(tour.stops@)[a];
    if activity_violation(ctx, tour, held, act) is Some {
        lemma_tour_violations_cover(ctx, tour, held, stops_activities(tour.stops@).len(), a);
        lemma_skill_violations_cover(ctx, ctx.solution.tours.len() as nat, t);
    }
    let jobs = ctx.problem.plan.jobs@;
    let skills = jobs[job_index(jobs, act.job_id@)->Some_0].skills->0;
    assert(skills_met(skills, held));
    match held {
        Some(h) => {
            lemma_skills_met_means(skills, h);
        },
        None => {
            lemma_skills_met_without_skills(skills);
        },
    }
}

} // verus!
