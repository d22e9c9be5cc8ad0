use vrp_pragmatic::capacity::MultiDimensionalCapacity;
use vrp_pragmatic::checker::assignment::{
    check_assignment, check_dispatch, check_groups, check_jobs_presence, check_vehicles, LocationFact,
};
use vrp_pragmatic::checker::breaks::{check_breaks, get_break_count, get_break_violation_count, BreakFindings};
use vrp_pragmatic::checker::capacity::{
    check_resource_consumption, check_vehicle_load, get_demand, get_intervals, load_exceeds, load_fits, load_text_of,
    loads_equal, DemandType, Halt,
};
use vrp_pragmatic::checker::limits::{check_shift_time, check_tour_size};
use vrp_pragmatic::checker::job_times::check_job_times;
use vrp_pragmatic::checker::relations::check_relations;
use vrp_pragmatic::checker::skills::{check_all_of, check_none_of, check_one_of, check_skills, demand, is_satisfied};
use vrp_pragmatic::checker::{
    combine_error_results, dedup_strings, ActivityType, CheckerContext, OutsideFindings,
};
use vrp_pragmatic::collections::StringSet;
use vrp_pragmatic::model::{
    Activity, Fleet, Job, JobPlace, JobSkills, JobTask, Location, Matrix, MatrixProfile, Plan, Problem, Relation,
    RelationType, Schedule, Solution, Statistic, Stop, Timing, Tour, UnassignedJob, UnassignedJobReason,
    VehicleDispatch, VehicleProfile, VehicleResource, VehicleShift, VehicleType, ShiftStart, Violation,
};

fn s(text: &str) -> String {
    text.to_string()
}

fn place(tag: Option<&str>) -> JobPlace {
    JobPlace { location: Location::Reference { index: 1 }, times: None, tag: tag.map(s) }
}

fn task(demand: Option<Vec<i32>>, tag: Option<&str>) -> JobTask {
    JobTask { places: vec![place(tag)], demand, order: None }
}

fn job(id: &str) -> Job {
    Job {
        id: s(id),
        pickups: None,
        deliveries: None,
        replacements: None,
        services: None,
        skills: None,
        group: None,
        compatibility: None,
    }
}

fn delivery_job(id: &str, amount: i32) -> Job {
    Job { deliveries: Some(vec![task(Some(vec![amount]), None)]), ..job(id) }
}

fn pickup_delivery_job(id: &str, amount: i32) -> Job {
    Job {
        pickups: Some(vec![task(Some(vec![amount]), None)]),
        deliveries: Some(vec![task(Some(vec![amount]), None)]),
        ..job(id)
    }
}

fn shift() -> VehicleShift {
    VehicleShift {
        start: ShiftStart { earliest: s("1970-01-01T00:00:00Z"), latest: None, location: Location::Reference { index: 0 } },
        end: None,
        dispatch: None,
        job_times: None,
    }
}

fn vehicle(type_id: &str, ids: &[&str], capacity: Vec<i32>) -> VehicleType {
    VehicleType {
        type_id: s(type_id),
        vehicle_ids: ids.iter().map(|id| s(id)).collect(),
        profile: VehicleProfile { matrix: s("car") },
        shifts: vec![shift()],
        capacity,
        skills: None,
        limits: None,
    }
}

fn problem(jobs: Vec<Job>, vehicles: Vec<VehicleType>) -> Problem {
    Problem {
        plan: Plan { jobs, relations: None },
        fleet: Fleet { vehicles, profiles: vec![MatrixProfile { name: s("car") }], resources: None },
    }
}

fn activity(job_id: &str, kind: &str) -> Activity {
    Activity { job_id: s(job_id), activity_type: s(kind), location: None, time: None, job_tag: None }
}

fn stop(load: Vec<i32>, activities: Vec<Activity>) -> Stop {
    Stop {
        location: Location::Reference { index: 0 },
        time: Schedule { arrival: s("1970-01-01T00:00:00Z"), departure: s("1970-01-01T00:00:00Z") },
        distance: 0,
        load,
        parking: None,
        activities,
    }
}

fn statistic() -> Statistic {
    Statistic { distance: 0, duration: 0, times: Timing::default() }
}

fn tour(vehicle_id: &str, shift_index: usize, stops: Vec<Stop>) -> Tour {
    Tour { vehicle_id: s(vehicle_id), type_id: s("car_type"), shift_index, stops, statistic: statistic() }
}

fn solution(tours: Vec<Tour>, unassigned: Option<Vec<&str>>) -> Solution {
    Solution {
        statistic: statistic(),
        tours,
        unassigned: unassigned.map(|ids| {
            ids.into_iter()
                .map(|id| UnassignedJob {
                    job_id: s(id),
                    reasons: vec![UnassignedJobReason { code: s("NO_REASON_FOUND"), description: s("unknown") }],
                })
                .collect()
        }),
        violations: None,
    }
}

fn context(problem: Problem, solution: Solution) -> CheckerContext {
    CheckerContext { problem, matrices: None, solution }
}

fn delivery_tour(vehicle_id: &str, job_id: &str, loads: (i32, i32)) -> Tour {
    tour(
        vehicle_id,
        0,
        vec![
            stop(vec![loads.0], vec![activity("departure", "departure")]),
            stop(vec![loads.1], vec![activity(job_id, "delivery")]),
        ],
    )
}

fn kinds_of(tours: &[Tour]) -> Vec<Vec<Vec<Result<ActivityType, String>>>> {
    tours
        .iter()
        .map(|tour| {
            tour.stops
                .iter()
                .map(|stop| {
                    stop.activities
                        .iter()
                        .map(|activity| match activity.activity_type.as_str() {
                            "departure" | "arrival" => Ok(ActivityType::Terminal),
                            "reload" => Ok(ActivityType::Reload { resource_id: Some(s("fuel")) }),
                            "dispatch" => Ok(ActivityType::Depot),
                            "break" => Ok(ActivityType::Break),
                            _ => Ok(ActivityType::Job),
                        })
                        .collect()
                })
                .collect()
        })
        .collect()
}

fn facts_of(tours: &[Tour], at_first_stop: bool) -> Vec<Vec<Vec<LocationFact>>> {
    tours
        .iter()
        .map(|tour| {
            tour.stops
                .iter()
                .map(|stop| {
                    stop.activities.iter().map(|_| LocationFact { text: s("index=0"), at_first_stop }).collect()
                })
                .collect()
        })
        .collect()
}

// region vehicles

#[test]
fn accepts_known_vehicles_used_once() {
    let ctx = context(
        problem(vec![delivery_job("job1", 1)], vec![vehicle("car_type", &["v1", "v2"], vec![10])]),
        solution(vec![delivery_tour("v1", "job1", (1, 0)), tour("v1", 1, vec![]), tour("v2", 0, vec![])], None),
    );
    assert_eq!(check_vehicles(&ctx), Ok(()));
}

#[test]
fn reports_unknown_vehicle() {
    let ctx = context(
        problem(vec![], vec![vehicle("car_type", &["v1"], vec![10])]),
        solution(vec![tour("v1", 0, vec![]), tour("v9", 0, vec![])], None),
    );
    assert_eq!(check_vehicles(&ctx), Err(s("used vehicle with unknown id: 'v9'")));
}

#[test]
fn reports_vehicle_used_twice_in_shift() {
    let ctx = context(
        problem(vec![], vec![vehicle("car_type", &["v1"], vec![10])]),
        solution(vec![tour("v1", 2, vec![]), tour("v1", 2, vec![])], None),
    );
    assert_eq!(check_vehicles(&ctx), Err(s("vehicle with 'v1' id used more than once for shift 2")));
}

// endregion

// region presence

#[test]
fn accepts_jobs_served_or_unassigned() {
    let ctx = context(
        problem(vec![delivery_job("job1", 1), delivery_job("job2", 1)], vec![vehicle("car_type", &["v1"], vec![10])]),
        solution(vec![delivery_tour("v1", "job1", (1, 0))], Some(vec!["job2", "v1_break"])),
    );
    assert_eq!(check_jobs_presence(&ctx), Ok(()));
}

#[test]
fn reports_job_served_in_two_tours() {
    let ctx = context(
        problem(vec![pickup_delivery_job("job1", 1)], vec![vehicle("car_type", &["v1", "v2"], vec![10])]),
        solution(
            vec![
                tour("v1", 0, vec![stop(vec![0], vec![activity("job1", "pickup")])]),
                tour("v2", 0, vec![stop(vec![0], vec![activity("job1", "delivery")])]),
            ],
            None,
        ),
    );
    assert_eq!(check_jobs_presence(&ctx), Err(s("job served in multiple tours: 'job1'")));
}

#[test]
fn reports_missing_tasks() {
    let ctx = context(
        problem(vec![pickup_delivery_job("job1", 1)], vec![vehicle("car_type", &["v1"], vec![10])]),
        solution(vec![tour("v1", 0, vec![stop(vec![0], vec![activity("job1", "pickup")])])], None),
    );
    assert_eq!(check_jobs_presence(&ctx), Err(s("not all tasks served for 'job1', expected: 2, assigned: 1")));
}

#[test]
fn reports_pickup_after_delivery() {
    let ctx = context(
        problem(vec![pickup_delivery_job("job1", 1)], vec![vehicle("car_type", &["v1"], vec![10])]),
        solution(
            vec![tour(
                "v1",
                0,
                vec![stop(vec![0], vec![activity("job1", "delivery")]), stop(vec![0], vec![activity("job1", "pickup")])],
            )],
            None,
        ),
    );
    assert_eq!(check_jobs_presence(&ctx), Err(s("found pickup after delivery for 'job1'")));
}

#[test]
fn reports_served_job_missing_in_plan() {
    let ctx = context(
        problem(vec![], vec![vehicle("car_type", &["v1"], vec![10])]),
        solution(vec![delivery_tour("v1", "job7", (1, 0))], None),
    );
    assert_eq!(check_jobs_presence(&ctx), Err(s("cannot find job with id job7")));
}

#[test]
fn reports_duplicated_unassigned_jobs() {
    let ctx = context(
        problem(vec![delivery_job("job1", 1)], vec![vehicle("car_type", &["v1"], vec![10])]),
        solution(vec![], Some(vec!["job1", "job1"])),
    );
    assert_eq!(check_jobs_presence(&ctx), Err(s("duplicated job ids in the list of unassigned jobs")));
}

#[test]
fn reports_unknown_unassigned_job() {
    let ctx = context(
        problem(vec![delivery_job("job1", 1)], vec![vehicle("car_type", &["v1"], vec![10])]),
        solution(vec![], Some(vec!["job1", "job3"])),
    );
    assert_eq!(check_jobs_presence(&ctx), Err(s("unknown job id in the list of unassigned jobs: 'job3'")));
}

#[test]
fn reports_job_assigned_and_unassigned() {
    let ctx = context(
        problem(vec![delivery_job("job1", 1)], vec![vehicle("car_type", &["v1"], vec![10])]),
        solution(vec![delivery_tour("v1", "job1", (1, 0))], Some(vec!["job1"])),
    );
    assert_eq!(check_jobs_presence(&ctx), Err(s("job present as assigned and unassigned: 'job1'")));
}

#[test]
fn reports_job_neither_served_nor_unassigned() {
    let ctx = context(
        problem(vec![delivery_job("job1", 1), delivery_job("job2", 1)], vec![vehicle("car_type", &["v1"], vec![10])]),
        solution(vec![delivery_tour("v1", "job1", (1, 0))], None),
    );
    assert_eq!(
        check_jobs_presence(&ctx),
        Err(s("amount of jobs present in problem and solution doesn't match: 2 vs 1"))
    );
}

// endregion

// region groups and dispatch

#[test]
fn reports_groups_shared_by_tours_in_first_use_order() {
    let grouped = |id: &str, group: &str| Job { group: Some(s(group)), ..delivery_job(id, 1) };
    let ctx = context(
        problem(
            vec![grouped("job1", "g2"), grouped("job2", "g1"), grouped("job3", "g2"), grouped("job4", "g1"), grouped("job5", "g3")],
            vec![vehicle("car_type", &["v1", "v2"], vec![10])],
        ),
        solution(
            vec![
                tour("v1", 0, vec![stop(vec![0], vec![activity("job1", "delivery"), activity("job2", "delivery")])]),
                tour("v2", 0, vec![stop(vec![0], vec![activity("job3", "delivery"), activity("job4", "delivery")])]),
                tour("v2", 1, vec![stop(vec![0], vec![activity("job5", "delivery")])]),
            ],
            None,
        ),
    );
    assert_eq!(check_groups(&ctx), Err(s("job groups are not respected: 'g2,g1'")));
}

#[test]
fn accepts_group_served_by_one_tour() {
    let grouped = |id: &str| Job { group: Some(s("g1")), ..delivery_job(id, 1) };
    let ctx = context(
        problem(vec![grouped("job1"), grouped("job2")], vec![vehicle("car_type", &["v1"], vec![10])]),
        solution(
            vec![tour("v1", 0, vec![stop(vec![0], vec![activity("job1", "delivery"), activity("job2", "delivery")])])],
            None,
        ),
    );
    assert_eq!(check_groups(&ctx), Ok(()));
}

fn dispatch_problem() -> Problem {
    let mut dispatching = vehicle("car_type", &["v1"], vec![10]);
    dispatching.shifts[0].dispatch = Some(vec![VehicleDispatch { location: Location::Reference { index: 0 } }]);
    problem(vec![], vec![dispatching])
}

#[test]
fn accepts_dispatch_after_departure_at_first_stop() {
    let tours = vec![tour("v1", 0, vec![stop(vec![0], vec![activity("departure", "departure"), Activity {
        location: Some(Location::Reference { index: 0 }),
        ..activity("dispatch", "dispatch")
    }])])];
    let facts = facts_of(&tours, true);
    let ctx = context(dispatch_problem(), solution(tours, None));
    assert_eq!(check_dispatch(&ctx, &facts), Ok(()));
}

#[test]
fn reports_dispatch_away_from_first_stop() {
    let tours = vec![tour("v1", 0, vec![stop(vec![0], vec![activity("departure", "departure"), Activity {
        location: Some(Location::Reference { index: 3 }),
        ..activity("dispatch", "dispatch")
    }])])];
    let facts = facts_of(&tours, false);
    let ctx = context(dispatch_problem(), solution(tours, None));
    assert_eq!(
        check_dispatch(&ctx, &facts),
        Err(s("invalid dispatch location: index=0, expected to match the first stop"))
    );
}

#[test]
fn reports_missing_and_unexpected_dispatch() {
    let tours = vec![tour("v1", 0, vec![stop(vec![0], vec![activity("departure", "departure")])])];
    let facts = facts_of(&tours, true);
    let ctx = context(dispatch_problem(), solution(tours.clone(), None));
    assert_eq!(check_dispatch(&ctx, &facts), Err(s("tour should have dispatch, but none is found: 'v1'")));

    let with_dispatch =
        vec![tour("v1", 0, vec![stop(vec![0], vec![activity("departure", "departure"), activity("dispatch", "dispatch")])])];
    let facts = facts_of(&with_dispatch, true);
    let ctx = context(problem(vec![], vec![vehicle("car_type", &["v1"], vec![10])]), solution(with_dispatch, None));
    assert_eq!(check_dispatch(&ctx, &facts), Err(s("tour should not have dispatch, but it is present: 'v1'")));
}

#[test]
fn reports_dispatch_at_wrong_position_or_twice() {
    let misplaced = vec![tour("v1", 0, vec![stop(vec![0], vec![
        activity("departure", "departure"),
        activity("job1", "delivery"),
        activity("dispatch", "dispatch"),
    ])])];
    let facts = facts_of(&misplaced, true);
    let ctx = context(dispatch_problem(), solution(misplaced, None));
    assert_eq!(check_dispatch(&ctx, &facts), Err(s("invalid dispatch activity index, expected: 1, got: '2'")));

    let twice = vec![tour("v1", 0, vec![stop(vec![0], vec![
        activity("departure", "departure"),
        activity("dispatch", "dispatch"),
        activity("dispatch", "dispatch"),
    ])])];
    let facts = facts_of(&twice, true);
    let ctx = context(dispatch_problem(), solution(twice, None));
    assert_eq!(check_dispatch(&ctx, &facts), Err(s("more than one dispatch in the tour: 'v1'")));
}

#[test]
fn assignment_collects_errors_of_all_rules() {
    let tours = vec![tour("v9", 0, vec![stop(vec![0], vec![activity("job1", "delivery")])])];
    let facts = facts_of(&tours, true);
    let ctx = context(
        problem(vec![delivery_job("job1", 1), delivery_job("job2", 1)], vec![vehicle("car_type", &["v1"], vec![10])]),
        solution(tours, None),
    );
    assert_eq!(
        check_assignment(&ctx, Err(s("cannot match activities to jobs: job1:<no tag>")), &facts),
        Err(vec![
            s("used vehicle with unknown id: 'v9'"),
            s("amount of jobs present in problem and solution doesn't match: 2 vs 1"),
            s("cannot match activities to jobs: job1:<no tag>"),
        ])
    );
}

// endregion

// region relations and skills

#[test]
fn reports_relation_of_missing_tour() {
    let mut p = problem(vec![delivery_job("job1", 1)], vec![vehicle("car_type", &["v1", "v2"], vec![10])]);
    p.plan.relations = Some(vec![Relation {
        type_field: RelationType::Strict,
        jobs: vec![s("job1")],
        vehicle_id: s("v2"),
        shift_index: None,
    }]);
    let ctx = context(p, solution(vec![delivery_tour("v1", "job1", (1, 0))], None));
    assert_eq!(check_relations(&ctx), Err(vec![s("cannot find tour for 'v2'")]));
}

#[test]
fn accepts_strict_relation_followed_by_tour() {
    let mut p = problem(vec![delivery_job("job1", 1)], vec![vehicle("car_type", &["v1"], vec![10])]);
    p.plan.relations = Some(vec![Relation {
        type_field: RelationType::Strict,
        jobs: vec![s("departure"), s("job1")],
        vehicle_id: s("v1"),
        shift_index: None,
    }]);
    let ctx = context(p, solution(vec![delivery_tour("v1", "job1", (1, 0))], None));
    assert_eq!(check_relations(&ctx), Ok(()));
}

#[test]
fn checks_single_skill_demands() {
    let held = StringSet::from_strings(&vec![s("a"), s("b")]);
    let ab = vec![s("a"), s("b")];
    let ac = vec![s("a"), s("c")];
    let c = vec![s("c")];
    assert!(check_all_of(Some(&ab), Some(&held)));
    assert!(!check_all_of(Some(&ac), Some(&held)));
    assert!(!check_all_of(Some(&ab), None));
    assert!(check_all_of(None, None));
    assert!(check_one_of(Some(&ac), Some(&held)));
    assert!(!check_one_of(Some(&c), Some(&held)));
    assert!(!check_one_of(Some(&c), None));
    assert!(check_none_of(Some(&c), Some(&held)));
    assert!(!check_none_of(Some(&ac), Some(&held)));
    assert!(check_none_of(Some(&ac), None));
}

#[test]
fn empty_skill_lists_demand_nothing() {
    let empty: Vec<String> = vec![];
    assert_eq!(demand(Some(&empty)), None);
    assert_eq!(demand(Some(&vec![s("a")])), Some(&vec![s("a")]));
    let skills = JobSkills { all_of: Some(vec![]), one_of: Some(vec![]), none_of: Some(vec![]) };
    assert!(is_satisfied(&skills, None));
    let held = StringSet::from_strings(&vec![s("a")]);
    assert!(is_satisfied(&skills, Some(&held)));
}

#[test]
fn reports_unmet_skills_once() {
    let skilled = Job {
        skills: Some(JobSkills { all_of: Some(vec![s("fridge")]), one_of: None, none_of: None }),
        ..pickup_delivery_job("job1", 1)
    };
    let mut car = vehicle("car_type", &["v1"], vec![10]);
    car.skills = Some(vec![s("ramp")]);
    let ctx = context(
        problem(vec![skilled], vec![car]),
        solution(
            vec![tour("v1", 0, vec![stop(vec![0], vec![activity("job1", "pickup"), activity("job1", "delivery")])])],
            None,
        ),
    );
    assert_eq!(
        check_skills(&ctx),
        Err(vec![s("job 'job1' requires skills its vehicle does not hold, vehicle id 'v1', shift index: 0")])
    );
}

#[test]
fn skills_report_unknown_vehicle() {
    let ctx = context(problem(vec![], vec![]), solution(vec![tour("v1", 0, vec![])], None));
    assert_eq!(check_skills(&ctx), Err(vec![s("cannot find vehicle with id 'v1'")]));
}

// endregion

// region loads

#[test]
fn compares_loads_as_vrp_core_does() {
    let a = MultiDimensionalCapacity::new(vec![2, 3]);
    let b = MultiDimensionalCapacity::new(vec![1, 2]);
    let c = MultiDimensionalCapacity::new(vec![2, 1]);
    assert!(load_exceeds(&a, &b));
    assert!(!load_exceeds(&a, &c));
    assert!(load_fits(&a, &b));
    assert!(!load_fits(&b, &c));
    assert!(loads_equal(&a, &MultiDimensionalCapacity::new(vec![2, 3])));
    assert!(!loads_equal(&MultiDimensionalCapacity::default(), &MultiDimensionalCapacity::default()));
    assert_eq!(load_text_of(&c), "[2, 1, 0, 0, 0, 0, 0, 0]");
    assert_eq!(load_text_of(&MultiDimensionalCapacity::new(vec![-4])), "[-4, 0, 0, 0, 0, 0, 0, 0]");
}

#[test]
fn finds_demand_of_job_activity() {
    let ctx = context(problem(vec![delivery_job("job1", 3)], vec![vehicle("car_type", &["v1"], vec![10])]), solution(vec![], None));
    let index = vrp_pragmatic::checker::assignment::job_ids_index(&ctx.problem.plan.jobs);
    let (demand_type, amount) = get_demand(&ctx, &index, &activity("job1", "delivery"), &ActivityType::Job).unwrap();
    assert_eq!(demand_type, DemandType::StaticDelivery);
    assert_eq!(amount.as_vec(), vec![3]);
    let (demand_type, amount) = get_demand(&ctx, &index, &activity("departure", "departure"), &ActivityType::Terminal).unwrap();
    assert_eq!(demand_type, DemandType::NoDemand);
    assert_eq!(amount.size, 0);
    assert_eq!(
        get_demand(&ctx, &index, &activity("job1", "pickup"), &ActivityType::Job).err(),
        Some(Halt::Error(s("cannot match activity to job place")))
    );
}

#[test]
fn splits_tour_into_intervals_at_reloads() {
    let legs = |kinds: &[&str]| {
        tour("v1", 0, kinds.iter().map(|kind| stop(vec![0], vec![activity("x", kind)])).collect())
    };
    assert_eq!(get_intervals(&legs(&["departure", "delivery", "arrival"])), Some(vec![(0, 1)]));
    assert_eq!(get_intervals(&legs(&["departure", "delivery", "reload", "delivery", "arrival"])), Some(vec![(0, 0), (2, 3)]));
    assert_eq!(get_intervals(&legs(&["departure"])), Some(Vec::<(usize, usize)>::new()));
    assert_eq!(get_intervals(&legs(&["departure", "reload", "reload", "arrival"])), None);
}

#[test]
fn accepts_consistent_loads() {
    let tours = vec![delivery_tour("v1", "job1", (3, 0))];
    let kinds = kinds_of(&tours);
    let ctx = context(problem(vec![delivery_job("job1", 3)], vec![vehicle("car_type", &["v1"], vec![10])]), solution(tours, None));
    assert_eq!(check_vehicle_load(&ctx, &kinds), Some(Ok(())));
}

#[test]
fn reports_load_mismatch_and_capacity() {
    let tours = vec![delivery_tour("v1", "job1", (2, 0))];
    let kinds = kinds_of(&tours);
    let ctx = context(problem(vec![delivery_job("job1", 3)], vec![vehicle("car_type", &["v1"], vec![10])]), solution(tours, None));
    assert_eq!(check_vehicle_load(&ctx, &kinds), Some(Err(vec![s("load mismatch at stops 0, 1 in tour 'v1'")])));

    let tours = vec![delivery_tour("v1", "job1", (3, 0))];
    let kinds = kinds_of(&tours);
    let ctx = context(problem(vec![delivery_job("job1", 3)], vec![vehicle("car_type", &["v1"], vec![2])]), solution(tours, None));
    assert_eq!(check_vehicle_load(&ctx, &kinds), Some(Err(vec![s("load exceeds capacity in tour 'v1'")])));
}

#[test]
fn reports_type_errors_of_activities() {
    let tours = vec![delivery_tour("v1", "job1", (3, 0))];
    let mut kinds = kinds_of(&tours);
    kinds[0][1][0] = Err(s("cannot find job with id 'job1'"));
    let ctx = context(problem(vec![delivery_job("job1", 3)], vec![vehicle("car_type", &["v1"], vec![10])]), solution(tours, None));
    assert_eq!(check_vehicle_load(&ctx, &kinds), Some(Err(vec![s("cannot find job with id 'job1'")])));
}

#[test]
fn gives_up_on_loads_that_cannot_be_computed() {
    let tours = vec![delivery_tour("v1", "job1", (3, 0))];
    let kinds = kinds_of(&tours);
    let ctx = context(
        problem(vec![delivery_job("job1", 3)], vec![vehicle("car_type", &["v1"], vec![10; 9])]),
        solution(tours, None),
    );
    assert_eq!(check_vehicle_load(&ctx, &kinds), None);

    let tours = vec![tour(
        "v1",
        0,
        vec![
            stop(vec![0], vec![activity("departure", "departure")]),
            stop(vec![0], vec![activity("job1", "delivery")]),
            stop(vec![0], vec![activity("job2", "delivery")]),
        ],
    )];
    let kinds = kinds_of(&tours);
    let ctx = context(
        problem(
            vec![delivery_job("job1", i32::MAX), delivery_job("job2", i32::MAX)],
            vec![vehicle("car_type", &["v1"], vec![i32::MAX])],
        ),
        solution(tours, None),
    );
    assert_eq!(check_vehicle_load(&ctx, &kinds), None);
}

#[test]
fn counts_activities_of_all_tours() {
    let tours = vec![delivery_tour("v1", "job1", (3, 0)), delivery_tour("v2", "job2", (1, 0))];
    assert_eq!(vrp_pragmatic::checker::assignment::activity_total_of(&tours), Some(4));
    assert_eq!(vrp_pragmatic::checker::assignment::activity_total_of(&vec![]), Some(0));
}

fn reload_tour(first: i32, second: i32) -> Tour {
    tour(
        "v1",
        0,
        vec![
            stop(vec![first], vec![activity("departure", "departure")]),
            stop(vec![0], vec![activity("job1", "delivery")]),
            stop(vec![second], vec![activity("reload", "reload")]),
            stop(vec![0], vec![activity("job2", "delivery")]),
        ],
    )
}

#[test]
fn checks_resource_consumption() {
    let tours = vec![reload_tour(2, 3)];
    let kinds = kinds_of(&tours);
    let mut p = problem(vec![delivery_job("job1", 2), delivery_job("job2", 3)], vec![vehicle("car_type", &["v1"], vec![10])]);
    p.fleet.resources = Some(vec![VehicleResource::Reload { id: s("fuel"), capacity: vec![2] }]);
    let ctx = context(p.clone(), solution(tours.clone(), None));
    assert_eq!(
        check_resource_consumption(&ctx, &kinds),
        Err(Halt::Error(s("consumed more resource 'fuel' than available: [3, 0, 0, 0, 0, 0, 0, 0] vs [2, 0, 0, 0, 0, 0, 0, 0]")))
    );
    assert_eq!(check_vehicle_load(&ctx, &kinds).unwrap().err().map(|e| e.len()), Some(1));

    p.fleet.resources = Some(vec![VehicleResource::Reload { id: s("fuel"), capacity: vec![3] }]);
    let ctx = context(p.clone(), solution(tours.clone(), None));
    assert_eq!(check_resource_consumption(&ctx, &kinds), Ok(()));
    assert_eq!(check_vehicle_load(&ctx, &kinds), Some(Ok(())));

    p.fleet.resources = None;
    let ctx = context(p, solution(tours, None));
    assert_eq!(
        check_resource_consumption(&ctx, &kinds),
        Err(Halt::Error(s("cannot find resource 'fuel' in list of available resources")))
    );
}

// endregion

// region breaks, limits and the whole check

#[test]
fn counts_breaks_and_violations() {
    let mut sol = solution(
        vec![tour("v1", 0, vec![stop(vec![0], vec![activity("break", "break"), activity("job1", "delivery")])])],
        None,
    );
    sol.violations = Some(vec![
        Violation::Break { vehicle_id: s("v1"), shift_index: 0 },
        Violation::Break { vehicle_id: s("v1"), shift_index: 1 },
    ]);
    assert_eq!(get_break_count(&sol.tours[0]), 1);
    assert_eq!(get_break_violation_count(&sol, &sol.tours[0]), 1);
    let ctx = context(problem(vec![], vec![]), sol);
    assert_eq!(check_breaks(&ctx, &vec![BreakFindings { matched: Ok(1), expected: Ok(2) }]), Ok(()));
    assert_eq!(
        check_breaks(&ctx, &vec![BreakFindings { matched: Ok(0), expected: Ok(2) }]),
        Err(vec![s("cannot match all breaks, matched: '0', actual '1' for vehicle 'v1', shift index '0'")])
    );
    assert_eq!(
        check_breaks(&ctx, &vec![BreakFindings { matched: Ok(1), expected: Ok(1) }]),
        Err(vec![s("amount of breaks does not match, expected: '1', got '2' for vehicle 'v1', shift index '0'")])
    );
    assert_eq!(
        check_breaks(&ctx, &vec![BreakFindings { matched: Err(s("cannot find shift")), expected: Ok(1) }]),
        Err(vec![s("cannot find shift")])
    );
}

#[test]
fn checks_tour_size_without_terminals() {
    let t = tour("v1", 3, vec![stop(vec![0], vec![
        activity("departure", "departure"),
        activity("job1", "delivery"),
        activity("job2", "delivery"),
        activity("arrival", "arrival"),
    ])]);
    assert_eq!(check_tour_size(&t, 2), Ok(()));
    assert_eq!(
        check_tour_size(&t, 1),
        Err(s("tour size limit violation, expected: not more than 1, got: 2, vehicle id 'v1', shift index: 3"))
    );
}

#[test]
fn tour_size_leaves_out_breaks_reloads_and_recharges() {
    let t = tour("v1", 0, vec![stop(vec![0], vec![
        activity("departure", "departure"),
        activity("break", "break"),
        activity("job1", "service"),
    ])]);
    assert_eq!(check_tour_size(&t, 1), Ok(()));
    let t = tour("v1", 0, vec![
        stop(vec![0], vec![activity("departure", "departure"), activity("job1", "pickup")]),
        stop(vec![0], vec![activity("reload", "reload"), activity("recharge", "recharge")]),
        stop(vec![0], vec![activity("job2", "delivery"), activity("arrival", "arrival")]),
    ]);
    assert_eq!(check_tour_size(&t, 2), Ok(()));
    assert_eq!(
        check_tour_size(&t, 1),
        Err(s("tour size limit violation, expected: not more than 1, got: 2, vehicle id 'v1', shift index: 0"))
    );
}

#[test]
fn combines_and_deduplicates_errors() {
    assert_eq!(combine_error_results(&[Ok(()), Ok(())]), Ok(()));
    assert_eq!(combine_error_results(&[Err(s("a")), Ok(()), Err(s("b"))]), Err(vec![s("a"), s("b")]));
    assert_eq!(dedup_strings(&vec![s("a"), s("b"), s("a"), s("c"), s("b")]), vec![s("a"), s("b"), s("c")]);
}

#[test]
fn context_refuses_inconsistent_matrices() {
    let matrix = |timestamp: Option<&str>| Matrix {
        profile: Some(s("car")),
        timestamp: timestamp.map(s),
        travel_times: vec![0],
        distances: vec![0],
        error_codes: None,
    };
    let refused = CheckerContext::new(problem(vec![], vec![]), Some(vec![matrix(Some("2020-01-01T00:00:00Z"))]), solution(vec![], None));
    assert_eq!(refused.err(), Some(vec![s("not implemented: time aware routing check")]));
    let refused = CheckerContext::new(problem(vec![], vec![]), Some(vec![matrix(None), matrix(None)]), solution(vec![], None));
    assert_eq!(
        refused.err(),
        Some(vec![s("precondition failed: amount of matrices supplied (2) does not match profile specified (1)")])
    );
    assert!(CheckerContext::new(problem(vec![], vec![]), Some(vec![matrix(None)]), solution(vec![], None)).is_ok());
}

#[test]
fn whole_check_reports_each_error_once() {
    let tours = vec![delivery_tour("v1", "job1", (3, 0)), delivery_tour("v1", "job2", (3, 0))];
    let findings = OutsideFindings {
        activity_types: kinds_of(&tours),
        location_facts: facts_of(&tours, true),
        jobs_match: Ok(()),
        breaks: vec![BreakFindings { matched: Ok(0), expected: Ok(0) }, BreakFindings { matched: Ok(0), expected: Ok(0) }],
        routing: Err(vec![s("used vehicle with unknown id: 'v1'"), s("routing failed")]),
        limits: Err(s("routing failed")),
    };
    let ctx = context(
        problem(vec![delivery_job("job1", 3), delivery_job("job2", 3)], vec![vehicle("car_type", &["v1"], vec![10])]),
        solution(tours, None),
    );
    assert_eq!(
        ctx.check(&findings),
        Err(vec![
            s("vehicle with 'v1' id used more than once for shift 0"),
            s("used vehicle with unknown id: 'v1'"),
            s("routing failed"),
        ])
    );
}

#[test]
fn whole_check_reports_unmet_skills() {
    let tours = vec![delivery_tour("v1", "job1", (3, 0))];
    let findings = OutsideFindings {
        activity_types: kinds_of(&tours),
        location_facts: facts_of(&tours, true),
        jobs_match: Ok(()),
        breaks: vec![BreakFindings { matched: Ok(0), expected: Ok(0) }],
        routing: Ok(()),
        limits: Ok(()),
    };
    let skilled = Job {
        skills: Some(JobSkills { all_of: Some(vec![s("fridge")]), one_of: None, none_of: None }),
        ..delivery_job("job1", 3)
    };
    let ctx = context(problem(vec![skilled], vec![vehicle("car_type", &["v1"], vec![10])]), solution(tours.clone(), None));
    assert_eq!(
        ctx.check(&findings),
        Err(vec![s("job 'job1' requires skills its vehicle does not hold, vehicle id 'v1', shift index: 0")])
    );
    let ctx = context(problem(vec![delivery_job("job1", 3)], vec![vehicle("car_type", &["v1"], vec![10])]), solution(tours, None));
    assert_eq!(ctx.check(&findings), Ok(()));
}

// endregion

// region shifts and shift times

fn timed_shift(earliest: &str, latest: Option<&str>) -> VehicleShift {
    VehicleShift {
        start: ShiftStart { earliest: s(earliest), latest: None, location: Location::Reference { index: 0 } },
        end: latest.map(|latest| vrp_pragmatic::model::ShiftEnd {
            earliest: None,
            latest: s(latest),
            location: Location::Reference { index: 0 },
        }),
        dispatch: None,
        job_times: None,
    }
}

fn timed_stop(arrival: &str, departure: &str) -> Stop {
    Stop { time: Schedule { arrival: s(arrival), departure: s(departure) }, ..stop(vec![0], vec![activity("x", "departure")]) }
}

fn shift_context(shifts: Vec<VehicleShift>, stops: Vec<Stop>) -> CheckerContext {
    let mut car = vehicle("car_type", &["v1"], vec![10]);
    car.shifts = shifts;
    context(problem(vec![], vec![car]), solution(vec![tour("v1", 0, stops)], None))
}

#[test]
fn finds_shift_intersecting_tour_time() {
    let stops = vec![timed_stop("2020-01-01T10:00:00Z", "2020-01-01T10:00:00Z"), timed_stop("2020-01-01T12:00:00Z", "2020-01-01T12:00:00Z")];
    let ctx = shift_context(
        vec![
            timed_shift("2020-01-01T00:00:00Z", Some("2020-01-01T09:59:59Z")),
            timed_shift("2020-01-01T11:00:00Z", Some("2020-01-01T20:00:00Z")),
            timed_shift("2020-01-01T00:00:00Z", None),
        ],
        stops.clone(),
    );
    assert_eq!(ctx.get_vehicle_shift(&ctx.solution.tours[0]), Some(Ok(1)));

    let ctx = shift_context(vec![timed_shift("2020-01-01T12:00:01Z", None)], stops.clone());
    assert_eq!(
        ctx.get_vehicle_shift(&ctx.solution.tours[0]),
        Some(Err(s("cannot find shift for tour with vehicle if: 'v1'")))
    );

    let ctx = shift_context(vec![timed_shift("not a time", None)], stops.clone());
    assert_eq!(ctx.get_vehicle_shift(&ctx.solution.tours[0]), None);

    let ctx = shift_context(vec![timed_shift("2020-01-01T00:00:00Z", None)], vec![]);
    assert_eq!(ctx.get_vehicle_shift(&ctx.solution.tours[0]), Some(Err(s("cannot get first activity"))));

    let mut ctx = shift_context(vec![timed_shift("2020-01-01T00:00:00Z", None)], stops);
    ctx.solution.tours[0].vehicle_id = s("v2");
    assert_eq!(ctx.get_vehicle_shift(&ctx.solution.tours[0]), Some(Err(s("cannot find vehicle with id 'v2'"))));
}

#[test]
fn checks_tour_time_within_shift_time() {
    let stops = vec![timed_stop("2020-01-01T09:00:00Z", "2020-01-01T10:00:00Z"), timed_stop("2020-01-01T12:00:00Z", "2020-01-01T12:30:00Z")];
    let ctx = shift_context(vec![timed_shift("2020-01-01T10:00:00Z", Some("2020-01-01T12:00:00Z"))], stops.clone());
    assert_eq!(check_shift_time(&ctx), Some(Ok(())));

    let ctx = shift_context(
        vec![
            timed_shift("2020-01-01T10:00:01Z", None),
            timed_shift("2020-01-01T10:00:00Z", Some("2020-01-01T11:59:59Z")),
        ],
        stops.clone(),
    );
    assert_eq!(check_shift_time(&ctx), Some(Err(s("tour time is outside shift time, vehicle id 'v1', shift index: 0"))));

    let ctx = shift_context(vec![timed_shift("2020-01-01T10:00:00+01:00", None)], stops.clone());
    assert_eq!(check_shift_time(&ctx), Some(Ok(())));

    let ctx = shift_context(vec![timed_shift("2020-01-01", None)], stops);
    assert_eq!(check_shift_time(&ctx), None);

    let ctx = shift_context(vec![timed_shift("2020-01-01T10:00:00Z", None)], vec![]);
    assert_eq!(check_shift_time(&ctx), Some(Err(s("empty tour"))));
}

// endregion

// region job times

fn job_stop(time: (&str, &str), kind: &str) -> Stop {
    Stop {
        time: Schedule { arrival: s(time.0), departure: s(time.1) },
        ..stop(vec![0], vec![activity(if kind == "service" { "job1" } else { kind }, kind)])
    }
}

fn job_times_context(earliest_first: Option<&str>, latest_last: Option<&str>) -> CheckerContext {
    let mut shift = timed_shift("2020-01-01T00:00:00Z", None);
    shift.job_times = Some(vrp_pragmatic::model::ShiftJobTimes {
        earliest_first: earliest_first.map(s),
        latest_last: latest_last.map(s),
    });
    shift_context(
        vec![shift],
        vec![
            job_stop(("2020-01-01T08:00:00Z", "2020-01-01T08:00:00Z"), "departure"),
            job_stop(("2020-01-01T09:00:00Z", "2020-01-01T09:30:00Z"), "break"),
            job_stop(("2020-01-01T10:00:00Z", "2020-01-01T10:30:00Z"), "service"),
            job_stop(("2020-01-01T11:00:00Z", "2020-01-01T11:30:00Z"), "service"),
            job_stop(("2020-01-01T12:00:00Z", "2020-01-01T12:30:00Z"), "reload"),
            job_stop(("2020-01-01T13:00:00Z", "2020-01-01T13:00:00Z"), "arrival"),
        ],
    )
}

#[test]
fn checks_job_time_bounds() {
    let ctx = job_times_context(Some("2020-01-01T10:00:00Z"), Some("2020-01-01T11:30:00Z"));
    assert_eq!(check_job_times(&ctx), Some(Ok(())));
    let ctx = job_times_context(Some("2020-01-01T10:00:01Z"), None);
    assert_eq!(
        check_job_times(&ctx),
        Some(Err(vec![s(
            "job time bound violation: first job starts at 2020-01-01T10:00:00Z, earliest allowed is 2020-01-01T10:00:01Z, vehicle id 'v1', shift index: 0"
        )]))
    );
    let ctx = job_times_context(None, Some("2020-01-01T11:29:59Z"));
    assert_eq!(
        check_job_times(&ctx),
        Some(Err(vec![s(
            "job time bound violation: last job departs at 2020-01-01T11:30:00Z, latest allowed is 2020-01-01T11:29:59Z, vehicle id 'v1', shift index: 0"
        )]))
    );
    let ctx = job_times_context(Some("ten o'clock"), None);
    assert_eq!(check_job_times(&ctx), None);
    let ctx = job_times_context(None, None);
    assert_eq!(check_job_times(&ctx), Some(Ok(())));
    let ctx = shift_context(vec![timed_shift("2020-01-02T00:00:00Z", None)], vec![job_stop(("2020-01-01T08:00:00Z", "2020-01-01T08:00:00Z"), "service")]);
    assert_eq!(check_job_times(&ctx), Some(Err(vec![s("cannot find shift for tour with vehicle if: 'v1'")])));
}

// endregion

#[test]
fn first_job_may_wait_for_earliest_bound() {
    let mut shift = timed_shift("2020-01-01T00:00:00Z", None);
    shift.job_times = Some(vrp_pragmatic::model::ShiftJobTimes {
        earliest_first: Some(s("2020-01-01T10:00:00Z")),
        latest_last: None,
    });
    let mut service = activity("job1", "service");
    service.time = Some(vrp_pragmatic::model::Interval {
        start: s("2020-01-01T10:00:00Z"),
        end: s("2020-01-01T10:30:00Z"),
    });
    let waiting = Stop {
        time: Schedule { arrival: s("2020-01-01T09:50:00Z"), departure: s("2020-01-01T10:30:00Z") },
        ..stop(vec![0], vec![service])
    };
    let stops = vec![job_stop(("2020-01-01T08:00:00Z", "2020-01-01T08:00:00Z"), "departure"), waiting.clone()];
    let ctx = shift_context(vec![shift.clone()], stops);
    assert_eq!(check_job_times(&ctx), Some(Ok(())));

    let mut late_bound = shift;
    late_bound.job_times.as_mut().unwrap().earliest_first = Some(s("2020-01-01T10:00:01Z"));
    let stops = vec![job_stop(("2020-01-01T08:00:00Z", "2020-01-01T08:00:00Z"), "departure"), waiting];
    let ctx = shift_context(vec![late_bound], stops);
    assert_eq!(
        check_job_times(&ctx),
        Some(Err(vec![s(
            "job time bound violation: first job starts at 2020-01-01T10:00:00Z, earliest allowed is 2020-01-01T10:00:01Z, vehicle id 'v1', shift index: 0"
        )]))
    );
}
