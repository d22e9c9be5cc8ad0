use vrp_pragmatic::checker::routing::{
    check_stop_statistic, check_tour_statistic, get_matrix_size, get_matrix_value, skip_distance_check,
};
use vrp_pragmatic::model::{Activity, Interval, Matrix, Schedule, Solution, Statistic, Stop, Location, Timing, Tour};

fn matrix(len: usize) -> Matrix {
    Matrix { profile: None, timestamp: None, travel_times: vec![1; len], distances: vec![2; len], error_codes: None }
}

#[test]
fn matrix_size_is_rounded_square_root() {
    assert_eq!(get_matrix_size(&[matrix(0)]), 0);
    assert_eq!(get_matrix_size(&[matrix(1)]), 1);
    assert_eq!(get_matrix_size(&[matrix(4)]), 2);
    assert_eq!(get_matrix_size(&[matrix(9), matrix(16)]), 3);
    assert_eq!(get_matrix_size(&[matrix(6)]), 2);
    assert_eq!(get_matrix_size(&[matrix(7)]), 3);
    assert_eq!(get_matrix_size(&[matrix(12)]), 3);
    assert_eq!(get_matrix_size(&[matrix(13)]), 4);
}

#[test]
fn matrix_value_is_read_or_out_of_bounds() {
    let values = vec![10, 20, 30];
    assert_eq!(get_matrix_value(1, &values), Ok(20));
    assert_eq!(get_matrix_value(3, &values), Err("attempt to get value out of bounds: 3 vs 3".to_string()));
}

fn stop(distance: i64) -> Stop {
    Stop {
        location: Location::Reference { index: 0 },
        time: Schedule { arrival: "1970-01-01T00:00:00Z".to_string(), departure: "1970-01-01T00:00:00Z".to_string() },
        distance,
        load: vec![0],
        parking: None,
        activities: vec![],
    }
}

fn solution(distances: Vec<i64>) -> Solution {
    let statistic = Statistic { distance: 0, duration: 0, times: Timing::default() };
    Solution {
        statistic,
        tours: vec![Tour {
            vehicle_id: "v1".to_string(),
            type_id: "t1".to_string(),
            shift_index: 0,
            stops: distances.into_iter().map(stop).collect(),
            statistic,
        }],
        unassigned: None,
        violations: None,
    }
}

#[test]
fn distance_check_is_skipped_only_without_distances() {
    assert!(skip_distance_check(&solution(vec![0, 0])));
    assert!(!skip_distance_check(&solution(vec![0, 5])));
}

fn timed_stop(arrival: &str, distance: i64) -> Stop {
    Stop { time: Schedule { arrival: arrival.to_string(), departure: arrival.to_string() }, ..stop(distance) }
}

fn timed_tour(stops: Vec<Stop>, distance: i64, duration: i64) -> Tour {
    Tour {
        vehicle_id: "v1".to_string(),
        type_id: "t1".to_string(),
        shift_index: 0,
        stops,
        statistic: Statistic { distance, duration, times: Timing::default() },
    }
}

#[test]
fn checks_stop_arrival_and_distance() {
    let to = timed_stop("1970-01-01T00:01:40Z", 50);
    let tour = timed_tour(vec![timed_stop("1970-01-01T00:00:00Z", 0), to.clone()], 50, 100);
    assert_eq!(check_stop_statistic(100, 50, 1, &to, &tour, false), Some(Ok(())));
    assert_eq!(check_stop_statistic(101, 51, 1, &to, &tour, false), Some(Ok(())));
    assert_eq!(
        check_stop_statistic(102, 50, 1, &to, &tour, false),
        Some(Err("arrival time mismatch for 1 stop in the tour: v1, expected: '1970-01-01T00:01:42Z', got: '1970-01-01T00:01:40Z'".to_string()))
    );
    assert_eq!(
        check_stop_statistic(100, 48, 1, &to, &tour, false),
        Some(Err("distance mismatch for 1 stop in the tour: v1, expected: '48', got: '50'".to_string()))
    );
    assert_eq!(check_stop_statistic(100, 48, 1, &to, &tour, true), Some(Ok(())));
    assert_eq!(check_stop_statistic(i64::MIN, 50, 1, &to, &tour, false), None);
    assert_eq!(check_stop_statistic(100, 50, 1, &timed_stop("noon", 50), &tour, false), None);
}

#[test]
fn checks_tour_distance_and_duration() {
    let tour = timed_tour(vec![timed_stop("1970-01-01T00:00:00Z", 0), timed_stop("1970-01-01T00:01:40Z", 50)], 50, 100);
    assert_eq!(check_tour_statistic(100, 50, 0, &tour, false), Some(Ok(())));
    assert_eq!(
        check_tour_statistic(100, 60, 0, &tour, false),
        Some(Err("distance mismatch for tour statistic: v1, expected: '60', got: '50'".to_string()))
    );
    assert_eq!(
        check_tour_statistic(110, 60, 0, &tour, true),
        Some(Err("duration mismatch for tour statistic: v1, expected: '110', got: '100'".to_string()))
    );
    assert_eq!(check_tour_statistic(i64::MAX, 50, -1, &tour, false), None);

    let mut dispatched = tour.clone();
    let dispatch = Activity {
        job_id: "dispatch".to_string(),
        activity_type: "dispatch".to_string(),
        location: None,
        time: Some(Interval { start: "1970-01-01T00:00:00Z".to_string(), end: "1970-01-01T00:00:30Z".to_string() }),
        job_tag: None,
    };
    let departure = Activity { activity_type: "departure".to_string(), time: None, ..dispatch.clone() };
    dispatched.stops[0].activities = vec![departure, dispatch];
    assert_eq!(check_tour_statistic(70, 50, 0, &dispatched, false), Some(Ok(())));
    assert_eq!(
        check_tour_statistic(100, 50, 0, &dispatched, false),
        Some(Err("duration mismatch for tour statistic: v1, expected: '130', got: '100'".to_string()))
    );
}
