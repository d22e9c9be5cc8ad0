use vrp_pragmatic::format::fleet::{plan_vehicles, VehiclePlan};
use vrp_pragmatic::model::{
    Fleet, Location, MatrixProfile, ShiftEnd, ShiftStart, VehicleProfile, VehicleShift, VehicleType,
};

fn shift(earliest: &str, latest: Option<&str>, end: Option<&str>) -> VehicleShift {
    VehicleShift {
        start: ShiftStart {
            earliest: earliest.to_string(),
            latest: latest.map(|t| t.to_string()),
            location: Location::Reference { index: 0 },
        },
        end: end.map(|t| ShiftEnd { earliest: None, latest: t.to_string(), location: Location::Reference { index: 0 } }),
        dispatch: None,
        job_times: None,
    }
}

fn vehicle_type(ids: &[&str], profile: &str, shifts: Vec<VehicleShift>) -> VehicleType {
    VehicleType {
        type_id: "t".to_string(),
        vehicle_ids: ids.iter().map(|id| id.to_string()).collect(),
        profile: VehicleProfile { matrix: profile.to_string() },
        shifts,
        capacity: vec![1],
        skills: None,
        limits: None,
    }
}

fn fleet(vehicles: Vec<VehicleType>, profiles: &[&str]) -> Fleet {
    Fleet {
        vehicles,
        profiles: profiles.iter().map(|name| MatrixProfile { name: name.to_string() }).collect(),
        resources: None,
    }
}

#[test]
fn numbers_profiles_by_first_appearance() {
    let f = fleet(
        vec![
            vehicle_type(&["a"], "bike", vec![shift("1970-01-01T00:00:00Z", None, None)]),
            vehicle_type(&["b"], "car", vec![shift("1970-01-01T00:00:00Z", None, None)]),
        ],
        &["car", "truck", "car", "bike"],
    );
    let plans = plan_vehicles(&f).unwrap();
    assert_eq!(plans.iter().map(|p| p.profile_index).collect::<Vec<_>>(), vec![2, 0]);
}

#[test]
fn plans_one_vehicle_per_type_shift_and_id() {
    let f = fleet(
        vec![
            vehicle_type(
                &["a", "b"],
                "truck",
                vec![
                    shift("1970-01-01T00:00:10Z", None, Some("1970-01-01T00:01:00Z")),
                    shift("1970-01-01T00:02:00Z", Some("1970-01-01T00:02:30Z"), None),
                ],
            ),
            vehicle_type(&["c"], "car", vec![shift("1970-01-01T00:00:00Z", None, None)]),
        ],
        &["car", "truck"],
    );
    let plan = |vehicle_type, vehicle, shift_index, profile_index, start_earliest, start_latest, end_latest| VehiclePlan {
        vehicle_type,
        vehicle,
        shift_index,
        profile_index,
        start_earliest,
        start_latest,
        end_latest,
    };
    assert_eq!(
        plan_vehicles(&f),
        Some(vec![
            plan(0, 0, 0, 1, 10, None, Some(60)),
            plan(0, 1, 0, 1, 10, None, Some(60)),
            plan(0, 0, 1, 1, 120, Some(150), None),
            plan(0, 1, 1, 1, 120, Some(150), None),
            plan(1, 0, 0, 0, 0, None, None),
        ])
    );
}

#[test]
fn gives_up_on_unknown_profiles_and_unreadable_times() {
    let f = fleet(vec![vehicle_type(&["a"], "boat", vec![])], &["car"]);
    assert_eq!(plan_vehicles(&f), None);
    let f = fleet(vec![vehicle_type(&[], "car", vec![shift("1970-01-01T00:00:00Z", None, Some("later"))])], &["car"]);
    assert_eq!(plan_vehicles(&f), None);
}
