//! The plain part of reading the fleet: the routing profiles numbered by first
//! appearance, and one planned vehicle per vehicle type, shift and vehicle id,
//! with the times of its shift as seconds since the Unix epoch.

use crate::collections::{index_map_entries, IndexMap};
use crate::datetime::{parse_time_seconds, rfc3339_seconds};
use crate::model::{Fleet, MatrixProfile, VehicleShift, VehicleType};
use vstd::prelude::*;

verus! {

/// Profile names numbered in order of first appearance, over the first `n` profiles.
pub open spec fn profile_numbering(profiles: Seq<MatrixProfile>, n: nat) -> Map<Seq<char>, usize>
    decreases n,
{
    if n == 0 {
        Map::empty()
    } else {
        let numbered = profile_numbering(profiles, (n - 1) as nat);
        let name = profiles[n - 1].name@;
        if numbered.contains_key(name) {
            numbered
        } else {
            numbered.insert(name, numbered.dom().len() as usize)
        }
    }
}

/// The numbering's names are finitely many, numbered `0` up to their count.
pub proof fn lemma_profile_numbering(profiles: Seq<MatrixProfile>, n: nat)
    ensures
        profile_numbering(profiles, n).dom().finite(),
        profile_numbering(profiles, n).dom().len() <= n,
        forall|name: Seq<char>| #[trigger] profile_numbering(profiles, n).contains_key(name) ==> profile_numbering(
            profiles,
            n,
        )[name] < profile_numbering(profiles, n).dom().len(),
    decreases n,
{
    if n > 0 {
        lemma_profile_numbering(profiles, (n - 1) as nat);
    }
}

/// Maps each profile name to its number in order of first appearance.
pub fn get_profile_index_map(fleet: &Fleet) -> (index: IndexMap)
    ensures
        index_map_entries(index) == profile_numbering(fleet.profiles@, fleet.profiles.len() as nat),
{
    let profiles = &fleet.profiles;
    let mut index = IndexMap::new();
    proof {
        assert(index_map_entries(index) =~= Map::empty());
    }
    let mut p: usize = 0;
    while p < profiles.len()
        invariant
            p <= profiles.len(),
            index_map_entries(index) == profile_numbering(profiles@, p as nat),
        decreases profiles.len() - p,
    {
        proof {
            lemma_profile_numbering(profiles@, p as nat);
        }
        if index.get(profiles[p].name.as_str()).is_none() {
            let count = index.len();
            index.insert(profiles[p].name.clone(), count);
        }
        p = p + 1;
    }
    index
}

/// A vehicle of the fleet as planned for routing: the index of its vehicle type,
/// of its id among the type's vehicle ids, and of its shift; its profile's
/// number; and its shift's earliest start, latest start and latest end, as
/// seconds since the Unix epoch.
#[derive(Clone, Copy, Debug, PartialEq, Eq, Structural)]
pub struct VehiclePlan {
    pub vehicle_type: usize,
    pub vehicle: usize,
    pub shift_index: usize,
    pub profile_index: usize,
    pub start_earliest: i64,
    pub start_latest: Option<i64>,
    pub end_latest: Option<i64>,
}

/// The times of a shift as seconds: earliest start, latest start and latest end;
/// `None` where one of them cannot be read.
pub open spec fn shift_seconds(shift: VehicleShift) -> Option<(int, Option<int>, Option<int>)> {
    match rfc3339_seconds(shift.start.earliest@) {
        None => None,
        Some(earliest) => {
            let latest = match shift.start.latest {
                None => Some(None),
                Some(t) => match rfc3339_seconds(t@) {
                    None => None,
                    Some(s) => Some(Some(s)),
                },
            };
            let end = match shift.end {
                None => Some(None),
                Some(e) => match rfc3339_seconds(e.latest@) {
                    None => None,
                    Some(s) => Some(Some(s)),
                },
            };
            match (latest, end) {
                (Some(l), Some(e)) => Some((earliest, l, e)),
                _ => None,
            }
        },
    }
}

/// An optional time as an optional `i64`.
pub open spec fn opt_i64(t: Option<int>) -> Option<i64> {
    match t {
        None => None,
        Some(s) => Some(s as i64),
    }
}

/// The planned vehicles of the first `m` shifts of vehicle type `v`, shift by
/// shift, each shift's vehicles in the order of their ids.
pub open spec fn shift_plans(vt: VehicleType, v: int, profile: usize, m: nat) -> Option<Seq<VehiclePlan>>
    decreases m,
{
    if m == 0 {
        Some(Seq::empty())
    } else {
        match shift_plans(vt, v, profile, (m - 1) as nat) {
            None => None,
            Some(before) => match shift_seconds(vt.shifts@[m - 1]) {
                None => None,
                Some(times) => Some(
                    before + Seq::new(
                        vt.vehicle_ids.len() as nat,
                        |k: int|
                            VehiclePlan {
                                vehicle_type: v as usize,
                                vehicle: k as usize,
                                shift_index: (m - 1) as usize,
                                profile_index: profile,
                                start_earliest: times.0 as i64,
                                start_latest: opt_i64(times.1),
                                end_latest: opt_i64(times.2),
                            },
                    ),
                ),
            },
        }
    }
}

/// The planned vehicles of the first `n` vehicle types, type by type; `None`
/// where a type's profile is not among the profiles or a shift time cannot be read.
pub open spec fn fleet_plans(types: Seq<VehicleType>, profiles: Map<Seq<char>, usize>, n: nat) -> Option<Seq<VehiclePlan>>
    decreases n,
{
    if n == 0 {
        Some(Seq::empty())
    } else {
        match fleet_plans(types, profiles, (n - 1) as nat) {
            None => None,
            Some(before) => {
                let vt = types[n - 1];
                if !profiles.contains_key(vt.profile.matrix@) {
                    None
                } else {
                    match shift_plans(vt, n - 1, profiles[vt.profile.matrix@], vt.shifts.len() as nat) {
                        None => None,
                        Some(plans) => Some(before + plans),
                    }
                }
            },
        }
    }
}

/// The planned vehicles of the fleet.
pub open spec fn vehicle_plan(fleet: Fleet) -> Option<Seq<VehiclePlan>> {
    fleet_plans(
        fleet.vehicles@,
        profile_numbering(fleet.profiles@, fleet.profiles.len() as nat),
        fleet.vehicles.len() as nat,
    )
}

/// Once a plan fails over a prefix, it fails over every longer one.
proof fn lemma_shift_plans_fail(vt: VehicleType, v: int, profile: usize, m: nat, k: nat)
    requires
        m <= k,
        shift_plans(vt, v, profile, m) is None,
    ensures
        shift_plans(vt, v, profile, k) is None,
    decreases k,
{
    if k > m {
        lemma_shift_plans_fail(vt, v, profile, m, (k - 1) as nat);
    }
}

/// Once a plan fails over a prefix of the types, it fails over every longer one.
proof fn lemma_fleet_plans_fail(types: Seq<VehicleType>, profiles: Map<Seq<char>, usize>, n: nat, k: nat)
    requires
        n <= k,
        fleet_plans(types, profiles, n) is None,
    ensures
        fleet_plans(types, profiles, k) is None,
    decreases k,
{
    if k > n {
        lemma_fleet_plans_fail(types, profiles, n, (k - 1) as nat);
    }
}

/// Reads a shift's times as seconds.
fn read_shift_seconds(shift: &VehicleShift) -> (times: Option<(i64, Option<i64>, Option<i64>)>)
    ensures
        match times {
            Some(t) => shift_seconds(*shift) == Some((t.0 as int, opt_int(t.1), opt_int(t.2))),
            None => shift_seconds(*shift) is None,
        },
{
    let earliest = parse_time_seconds(shift.start.earliest.as_str())?;
    let latest = match &shift.start.latest {
        None => None,
        Some(t) => Some(parse_time_seconds(t.as_str())?),
    };
    let end = match &shift.end {
        None => None,
        Some(e) => Some(parse_time_seconds(e.latest.as_str())?),
    };
    Some((earliest, latest, end))
}

/// An optional `i64` as an optional integer.
pub open spec fn opt_int(t: Option<i64>) -> Option<int> {
    match t {
        None => None,
        Some(s) => Some(s as int),
    }
}

/// Plans one vehicle per vehicle type, shift and vehicle id, in that order,
/// with its profile's number and its shift's times in seconds; `None` where a
/// vehicle type's profile is not among the fleet's profiles or a shift time
/// cannot be read.
pub fn plan_vehicles(fleet: &Fleet) -> (plan: Option<Vec<VehiclePlan>>)
    ensures
        match plan {
            Some(p) => vehicle_plan(*fleet) == Some(p@),
            None => vehicle_plan(*fleet) is None,
        },
{
    let profiles = get_profile_index_map(fleet);
    let ghost numbering = index_map_entries(profiles);
    let types = &fleet.vehicles;
    let mut plan: Vec<VehiclePlan> = Vec::new();
    let mut v: usize = 0;
    while v < types.len()
        invariant
            v <= types.len(),
            types == &fleet.vehicles,
            numbering == index_map_entries(profiles),
            numbering == profile_numbering(fleet.profiles@, fleet.profiles.len() as nat),
            fleet_plans(types@, numbering, v as nat) == Some(plan@),
        decreases types.len() - v,
    {
        let vt = &types[v];
        let profile = match profiles.get(vt.profile.matrix.as_str()) {
            Some(profile) => profile,
            None => {
                proof {
                    lemma_fleet_plans_fail(types@, numbering, (v + 1) as nat, types.len() as nat);
                }
                return None;
            },
        };
        let ghost before = plan@;
        let mut s: usize = 0;
        while s < vt.shifts.len()
            invariant
                v < types.len(),
                types == &fleet.vehicles,
                numbering == profile_numbering(fleet.profiles@, fleet.profiles.len() as nat),
                vt == &types@[v as int],
                s <= vt.shifts.len(),
                numbering.contains_key(vt.profile.matrix@) && numbering[vt.profile.matrix@] == profile,
                fleet_plans(types@, numbering, v as nat) == Some(before),
                shift_plans(*vt, v as int, profile, s as nat) matches Some(done) && plan@ == before + done,
            decreases vt.shifts.len() - s,
        {
            let times = match read_shift_seconds(&vt.shifts[s]) {
                Some(times) => times,
                None => {
                    proof {
                        lemma_shift_plans_fail(*vt, v as int, profile, (s + 1) as nat, vt.shifts.len() as nat);
                        assert(fleet_plans(types@, numbering, (v + 1) as nat) is None);
                        lemma_fleet_plans_fail(types@, numbering, (v + 1) as nat, types.len() as nat);
                    }
                    return None;
                },
            };
            let ghost done = shift_plans(*vt, v as int, profile, s as nat)->Some_0;
            let ghost shift_entries = Seq::new(
                vt.vehicle_ids.len() as nat,
                |k: int|
                    VehiclePlan {
                        vehicle_type: v,
                        vehicle: k as usize,
                        shift_index: s,
                        profile_index: profile,
                        start_earliest: times.0,
                        start_latest: times.1,
                        end_latest: times.2,
                    },
            );
            let mut k: usize = 0;
            while k < vt.vehicle_ids.len()
                invariant
                    k <= vt.vehicle_ids.len(),
                    plan@ == before + done + shift_entries.take(k as int),
                    shift_entries.len() == vt.vehicle_ids.len(),
                    forall|j: int| 0 <= j < shift_entries.len() ==> #[trigger] shift_entries[j] == (VehiclePlan {
                        vehicle_type: v,
                        vehicle: j as usize,
                        shift_index: s,
                        profile_index: profile,
                        start_earliest: times.0,
                        start_latest: times.1,
                        end_latest: times.2,
                    }),
                decreases vt.vehicle_ids.len() - k,
            {
                plan.push(
                    VehiclePlan {
                        vehicle_type: v,
                        vehicle: k,
                        shift_index: s,
                        profile_index: profile,
                        start_earliest: times.0,
                        start_latest: times.1,
                        end_latest: times.2,
                    },
                );
                proof {
                    assert(shift_entries.take(k + 1) =~= shift_entries.take(k as int).push(shift_entries[k as int]));
                }
                k = k + 1;
            }
            proof {
                assert(shift_entries.take(k as int) =~= shift_entries);
                let t = shift_seconds(vt.shifts@[s as int])->Some_0;
                assert(opt_i64(t.1) == times.1);
                assert(opt_i64(t.2) == times.2);
                assert(shift_entries =~= Seq::new(
                    vt.vehicle_ids.len() as nat,
                    |j: int|
                        VehiclePlan {
                            vehicle_type: v as usize,
                            vehicle: j as usize,
                            shift_index: s as usize,
                            profile_index: profile,
                            start_earliest: t.0 as i64,
                            start_latest: opt_i64(t.1),
                            end_latest: opt_i64(t.2),
                        },
                ));
                assert(plan@ =~= before + (done + shift_entries));
            }
            s = s + 1;
        }
        proof {
            assert(plan@ =~= before + shift_plans(*vt, v as int, profile, vt.shifts.len() as nat)->Some_0);
        }
        v = v + 1;
    }
    Some(plan)
}

} // verus!
