//! The plain problem and solution model that the checker reads.
//!
//! Coordinates are kept as the IEEE-754 bit patterns of latitude and longitude;
//! durations, costs, scales and other fractional values are not part of this model.

use vstd::prelude::*;

verus! {

// region Common

/// A location: a coordinate, or a reference to a matrix index.
#[derive(Clone, Copy, Debug)]
pub enum Location {
    /// A geo coordinate, kept as the bit patterns of latitude and longitude.
    Coordinate { lat: u64, lng: u64 },
    /// A reference to a routing matrix index.
    Reference { index: usize },
}

// endregion

// region Plan

/// Relation type.
#[derive(Clone, Copy, Debug, PartialEq, Eq, Structural)]
pub enum RelationType {
    /// Relation type which locks jobs to specific vehicle in any order.
    Any,
    /// Relation type which locks jobs in specific order allowing insertion of other jobs in between.
    Sequence,
    /// Relation type which locks jobs in strict order, no insertions in between are allowed.
    Strict,
}

/// Relation is the way to lock specific jobs to specific vehicles.
#[derive(Clone, Debug)]
pub struct Relation {
    /// Relation type.
    pub type_field: RelationType,
    /// List of job ids.
    pub jobs: Vec<String>,
    /// Vehicle id.
    pub vehicle_id: String,
    /// Vehicle shift index.
    pub shift_index: Option<usize>,
}

/// A job skills limitation for a vehicle.
#[derive(Clone, Debug)]
pub struct JobSkills {
    /// Vehicle should have all of these skills defined.
    pub all_of: Option<Vec<String>>,
    /// Vehicle should have at least one of these skills defined.
    pub one_of: Option<Vec<String>>,
    /// Vehicle should have none of these skills defined.
    pub none_of: Option<Vec<String>>,
}

/// Specifies a place for sub job.
#[derive(Clone, Debug)]
pub struct JobPlace {
    /// A job place location.
    pub location: Location,
    /// A list of job place time windows with time specified in RFC3339 format.
    pub times: Option<Vec<Vec<String>>>,
    /// A tag which will be propagated back within corresponding activity in solution.
    pub tag: Option<String>,
}

/// Specifies a job task.
#[derive(Clone, Debug)]
pub struct JobTask {
    /// A list of possible places where given task can be performed.
    pub places: Vec<JobPlace>,
    /// Job place demand.
    pub demand: Option<Vec<i32>>,
    /// An order, bigger value - later assignment in the route.
    pub order: Option<i32>,
}

/// A customer job: all of its tasks are completed or none of them, and all
/// pickups come before any of the deliveries.
#[derive(Clone, Debug)]
pub struct Job {
    /// A job id.
    pub id: String,
    /// A list of pickup tasks.
    pub pickups: Option<Vec<JobTask>>,
    /// A list of delivery tasks.
    pub deliveries: Option<Vec<JobTask>>,
    /// A list of replacement tasks.
    pub replacements: Option<Vec<JobTask>>,
    /// A list of service tasks.
    pub services: Option<Vec<JobTask>>,
    /// A job skills limitations for serving a job.
    pub skills: Option<JobSkills>,
    /// Job group: jobs of the same group are assigned to the same tour or unassigned.
    pub group: Option<String>,
    /// A compatibility group: jobs with different compatibility cannot be assigned to the same tour.
    pub compatibility: Option<String>,
}

/// Specifies cluster visiting policy.
#[derive(Clone, Copy, Debug, PartialEq, Eq, Structural)]
pub enum VicinityVisitPolicy {
    /// It is required to return to the first job's location (cluster center) before visiting a next job.
    Return,
    /// Clustered jobs are visited one by one from the cluster center finishing in the end at the
    /// first job's location.
    Continue,
}

/// Specifies filtering policy for vicinity clustering.
#[derive(Clone, Debug)]
pub struct VicinityFilteringPolicy {
    /// Ids of the jobs which cannot be used within clustering.
    pub exclude_job_ids: Vec<String>,
}

/// A plan specifies work which has to be done.
#[derive(Clone, Debug)]
pub struct Plan {
    /// List of jobs.
    pub jobs: Vec<Job>,
    /// List of relations between jobs and vehicles.
    pub relations: Option<Vec<Relation>>,
}

// endregion

// region Fleet

/// Specifies vehicle shift start.
#[derive(Clone, Debug)]
pub struct ShiftStart {
    /// Earliest possible departure date time in RFC3339 format.
    pub earliest: String,
    /// Latest possible departure date time in RFC3339 format.
    pub latest: Option<String>,
    /// Shift start location.
    pub location: Location,
}

/// Specifies vehicle shift end.
#[derive(Clone, Debug)]
pub struct ShiftEnd {
    /// Earliest possible arrival date time in RFC3339 format.
    pub earliest: Option<String>,
    /// Latest possible arrival date time in RFC3339 format.
    pub latest: String,
    /// Shift end location.
    pub location: Location,
}

/// A place where a vehicle is dispatched before its tour.
#[derive(Clone, Debug)]
pub struct VehicleDispatch {
    /// A dispatch location.
    pub location: Location,
}

/// Appointment bounds of a shift's jobs.
#[derive(Clone, Debug)]
pub struct ShiftJobTimes {
    /// The first job does not start before this date time, in RFC3339 format.
    pub earliest_first: Option<String>,
    /// The last job does not depart after this date time, in RFC3339 format.
    pub latest_last: Option<String>,
}

/// Specifies vehicle shift.
#[derive(Clone, Debug)]
pub struct VehicleShift {
    /// Vehicle shift start.
    pub start: ShiftStart,
    /// Vehicle shift end.
    pub end: Option<ShiftEnd>,
    /// Vehicle dispatch places.
    pub dispatch: Option<Vec<VehicleDispatch>>,
    /// Appointment bounds of the shift's jobs.
    pub job_times: Option<ShiftJobTimes>,
}

/// Vehicle break policy.
#[derive(Clone, Copy, Debug, PartialEq, Eq, Structural)]
pub enum VehicleOptionalBreakPolicy {
    /// Allows to skip break if actual tour schedule doesn't intersect with vehicle time window.
    SkipIfNoIntersection,
    /// Allows to skip break if vehicle arrives before break's time window end.
    SkipIfArrivalBeforeEnd,
}

/// Vehicle limits.
#[derive(Clone, Debug)]
pub struct VehicleLimits {
    /// Max amount job activities.
    pub tour_size: Option<usize>,
}

/// Specifies a vehicle profile.
#[derive(Clone, Debug)]
pub struct VehicleProfile {
    /// Routing matrix profile name.
    pub matrix: String,
}

/// Specifies a vehicle type.
#[derive(Clone, Debug)]
pub struct VehicleType {
    /// Vehicle type id.
    pub type_id: String,
    /// Concrete vehicle ids.
    pub vehicle_ids: Vec<String>,
    /// Vehicle profile.
    pub profile: VehicleProfile,
    /// Vehicle shifts.
    pub shifts: Vec<VehicleShift>,
    /// Vehicle capacity.
    pub capacity: Vec<i32>,
    /// Vehicle skills.
    pub skills: Option<Vec<String>>,
    /// Vehicle limits.
    pub limits: Option<VehicleLimits>,
}

/// Specifies routing matrix profile.
#[derive(Clone, Debug)]
pub struct MatrixProfile {
    /// Profile name.
    pub name: String,
}

/// Specifies vehicle resource type.
#[derive(Clone, Debug)]
pub enum VehicleResource {
    /// A shared reload resource.
    Reload {
        /// Resource id.
        id: String,
        /// A total resource capacity.
        capacity: Vec<i32>,
    },
}

/// Specifies fleet.
#[derive(Clone, Debug)]
pub struct Fleet {
    /// Vehicle types.
    pub vehicles: Vec<VehicleType>,
    /// Routing profiles.
    pub profiles: Vec<MatrixProfile>,
    /// Specifies vehicle resources.
    pub resources: Option<Vec<VehicleResource>>,
}

/// A VRP problem definition.
#[derive(Clone, Debug)]
pub struct Problem {
    /// Problem plan: customers to serve.
    pub plan: Plan,
    /// Problem resources: vehicles to be used, routing info.
    pub fleet: Fleet,
}

/// A routing matrix.
#[derive(Clone, Debug)]
pub struct Matrix {
    /// A name of profile.
    pub profile: Option<String>,
    /// A date in RFC3999 for which routing info is applicable.
    pub timestamp: Option<String>,
    /// Travel durations.
    pub travel_times: Vec<i64>,
    /// Travel distances.
    pub distances: Vec<i64>,
    /// Error codes to mark unreachable locations.
    pub error_codes: Option<Vec<i64>>,
}

// endregion

// region Solution

/// Timing statistic.
#[derive(Clone, Copy, Debug, PartialEq, Eq, Structural)]
pub struct Timing {
    /// Driving time.
    pub driving: i64,
    /// Serving time.
    pub serving: i64,
    /// Waiting time.
    pub waiting: i64,
    /// Break time.
    pub break_time: i64,
    /// Commuting time.
    pub commuting: i64,
    /// Parking time.
    pub parking: i64,
}

impl Default for Timing {
    fn default() -> (result: Self)
        ensures
            result == (Timing { driving: 0, serving: 0, waiting: 0, break_time: 0, commuting: 0, parking: 0 }),
    {
        Timing { driving: 0, serving: 0, waiting: 0, break_time: 0, commuting: 0, parking: 0 }
    }
}

/// Represents statistic: total distance, total duration and timings.
#[derive(Clone, Copy, Debug)]
pub struct Statistic {
    /// Total distance.
    pub distance: i64,
    /// Total duration.
    pub duration: i64,
    /// Timing statistic.
    pub times: Timing,
}

/// Represents a schedule.
#[derive(Clone, Debug)]
pub struct Schedule {
    /// Arrival time specified in RFC3339 format.
    pub arrival: String,
    /// Departure time specified in RFC3339 format.
    pub departure: String,
}

/// Represents time interval.
#[derive(Clone, Debug)]
pub struct Interval {
    /// Start time specified in RFC3339 format.
    pub start: String,
    /// End time specified in RFC3339 format.
    pub end: String,
}

/// An activity is unit of work performed at some place.
#[derive(Clone, Debug)]
pub struct Activity {
    /// Job id.
    pub job_id: String,
    /// Activity type.
    pub activity_type: String,
    /// Location.
    pub location: Option<Location>,
    /// Activity time.
    pub time: Option<Interval>,
    /// Job tag.
    pub job_tag: Option<String>,
}

/// A stop is a place where vehicle is supposed to be parked.
#[derive(Clone, Debug)]
pub struct Stop {
    /// Stop location.
    pub location: Location,
    /// Stop schedule.
    pub time: Schedule,
    /// Distance traveled since departure from start.
    pub distance: i64,
    /// Vehicle load after departure from this stop.
    pub load: Vec<i32>,
    /// Parking time.
    pub parking: Option<Interval>,
    /// Activities performed at the stop.
    pub activities: Vec<Activity>,
}

/// A tour is list of stops with their activities performed by specific vehicle.
#[derive(Clone, Debug)]
pub struct Tour {
    /// Vehicle id.
    pub vehicle_id: String,
    /// Vehicle type id.
    pub type_id: String,
    /// Shift index.
    pub shift_index: usize,
    /// List of stops.
    pub stops: Vec<Stop>,
    /// Tour statistic.
    pub statistic: Statistic,
}

/// Unassigned job reason.
#[derive(Clone, Debug)]
pub struct UnassignedJobReason {
    /// A reason code.
    pub code: String,
    /// Description.
    pub description: String,
}

/// Unassigned job.
#[derive(Clone, Debug)]
pub struct UnassignedJob {
    /// Job id.
    pub job_id: String,
    /// Possible reasons.
    pub reasons: Vec<UnassignedJobReason>,
}

/// Specifies a type of violation.
#[derive(Clone, Debug)]
pub enum Violation {
    /// A break assignment violation.
    Break {
        /// An id of a vehicle break belong to.
        vehicle_id: String,
        /// Index of the shift.
        shift_index: usize,
    },
}

/// A VRP solution.
#[derive(Clone, Debug)]
pub struct Solution {
    /// Total statistic.
    pub statistic: Statistic,
    /// List of tours.
    pub tours: Vec<Tour>,
    /// List of unassigned jobs.
    pub unassigned: Option<Vec<UnassignedJob>>,
    /// List of constraint violations.
    pub violations: Option<Vec<Violation>>,
}

// endregion

} // verus!
