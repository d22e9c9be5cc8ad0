//! The pragmatic format's constraint codes and their reasons.

pub mod fleet;
pub mod geo;

use crate::text::str_equal;
use vstd::prelude::*;

verus! {

/// A constraint violation code.
#[derive(Clone, Copy, Debug, PartialEq, Eq, Structural)]
pub struct ViolationCode(pub i32);

impl ViolationCode {
    /// Returns an unknown violation code.
    pub fn unknown() -> (code: Self)
        ensures
            code.0 == -1,
    {
        ViolationCode(-1)
    }

    /// Checks whether violation code is unknown.
    pub fn is_unknown(&self) -> (unknown: bool)
        ensures
            unknown == (self.0 == -1),
    {
        self.0 == -1
    }
}

/// The numbers of the constraint codes.
///
/// A time window constraint code.
pub const TIME_CONSTRAINT_CODE: i32 = 1;
/// A distance limit constraint code.
pub const DISTANCE_LIMIT_CONSTRAINT_CODE: i32 = 2;
/// A duration limit constraint code.
pub const DURATION_LIMIT_CONSTRAINT_CODE: i32 = 3;
/// A capacity constraint code.
pub const CAPACITY_CONSTRAINT_CODE: i32 = 4;
/// A break constraint code.
pub const BREAK_CONSTRAINT_CODE: i32 = 5;
/// A skill constraint code.
pub const SKILL_CONSTRAINT_CODE: i32 = 6;
/// A locking constraint code.
pub const LOCKING_CONSTRAINT_CODE: i32 = 7;
/// A reachable constraint code.
pub const REACHABLE_CONSTRAINT_CODE: i32 = 8;
/// An area constraint code.
pub const AREA_CONSTRAINT_CODE: i32 = 9;
/// A tour size constraint code.
pub const TOUR_SIZE_CONSTRAINT_CODE: i32 = 10;
/// A tour order constraint code.
pub const TOUR_ORDER_CONSTRAINT_CODE: i32 = 11;
/// A group constraint code.
pub const GROUP_CONSTRAINT_CODE: i32 = 12;
/// A compatibility constraint code.
pub const COMPATIBILITY_CONSTRAINT_CODE: i32 = 13;
/// A reload resource constraint code.
pub const RELOAD_RESOURCE_CONSTRAINT_CODE: i32 = 14;
/// A recharge constraint code.
pub const RECHARGE_CONSTRAINT_CODE: i32 = 15;
/// A minimum vehicle shifts constraint code.
pub const MIN_VEHICLE_SHIFTS_CONSTRAINT_CODE: i32 = 16;

/// The reason name and description of a known code; the codes run from one to sixteen.
pub open spec fn code_reason(code: i32) -> (Seq<char>, Seq<char>) {
    if code == 6 {
        ("SKILL_CONSTRAINT"@, "cannot serve required skill"@)
    } else if code == 1 {
        ("TIME_WINDOW_CONSTRAINT"@, "cannot be visited within time window"@)
    } else if code == 4 {
        ("CAPACITY_CONSTRAINT"@, "does not fit into any vehicle due to capacity"@)
    } else if code == 8 {
        ("REACHABLE_CONSTRAINT"@, "location unreachable"@)
    } else if code == 2 {
        ("MAX_DISTANCE_CONSTRAINT"@, "cannot be assigned due to max distance constraint of vehicle"@)
    } else if code == 3 {
        ("MAX_DURATION_CONSTRAINT"@, "cannot be assigned due to max duration constraint of vehicle"@)
    } else if code == 5 {
        ("BREAK_CONSTRAINT"@, "break is not assignable"@)
    } else if code == 7 {
        ("LOCKING_CONSTRAINT"@, "cannot be served due to relation lock"@)
    } else if code == 9 {
        ("AREA_CONSTRAINT"@, "cannot be assigned due to area constraint"@)
    } else if code == 10 {
        ("TOUR_SIZE_CONSTRAINT"@, "cannot be assigned due to tour size constraint of vehicle"@)
    } else if code == 11 {
        ("TOUR_ORDER_CONSTRAINT"@, "cannot be assigned due to tour order constraint"@)
    } else if code == 12 {
        ("GROUP_CONSTRAINT"@, "cannot be assigned due to group constraint"@)
    } else if code == 13 {
        ("COMPATIBILITY_CONSTRAINT"@, "cannot be assigned due to compatibility constraint"@)
    } else if code == 14 {
        ("RELOAD_RESOURCE_CONSTRAINT"@, "cannot be assigned due to reload resource constraint"@)
    } else if code == 15 {
        ("RECHARGE_CONSTRAINT_CODE"@, "cannot be assigned due to recharge constraint"@)
    } else if code == 16 {
        ("MIN_SHIFT_CONSTRAINT"@, "cannot be assigned due to minimum shift requirement"@)
    } else {
        ("NO_REASON_FOUND"@, "unknown"@)
    }
}

/// Whether the code is one of the known constraint codes.
pub open spec fn is_known_code(code: i32) -> bool {
    1 <= code <= 16
}

/// The code of a reason name; `-1` for a name no code has.
pub open spec fn reason_code(reason: Seq<char>) -> i32 {
    if reason == "SKILL_CONSTRAINT"@ {
        6
    } else if reason == "TIME_WINDOW_CONSTRAINT"@ {
        1
    } else if reason == "CAPACITY_CONSTRAINT"@ {
        4
    } else if reason == "REACHABLE_CONSTRAINT"@ {
        8
    } else if reason == "MAX_DISTANCE_CONSTRAINT"@ {
        2
    } else if reason == "MAX_DURATION_CONSTRAINT"@ {
        3
    } else if reason == "BREAK_CONSTRAINT"@ {
        5
    } else if reason == "LOCKING_CONSTRAINT"@ {
        7
    } else if reason == "AREA_CONSTRAINT"@ {
        9
    } else if reason == "TOUR_SIZE_CONSTRAINT"@ {
        10
    } else if reason == "TOUR_ORDER_CONSTRAINT"@ {
        11
    } else if reason == "GROUP_CONSTRAINT"@ {
        12
    } else if reason == "COMPATIBILITY_CONSTRAINT"@ {
        13
    } else if reason == "RELOAD_RESOURCE_CONSTRAINT"@ {
        14
    } else if reason == "RECHARGE_CONSTRAINT_CODE"@ {
        15
    } else if reason == "MIN_SHIFT_CONSTRAINT"@ {
        16
    } else {
        -1i32
    }
}

/// Maps a violation code to its reason name and description.
pub fn map_code_reason(code: ViolationCode) -> (reason: (&'static str, &'static str))
    ensures
        reason.0@ == code_reason(code.0).0,
        reason.1@ == code_reason(code.0).1,
{
    let c = code.0;
    if c == SKILL_CONSTRAINT_CODE {
        ("SKILL_CONSTRAINT", "cannot serve required skill")
    } else if c == TIME_CONSTRAINT_CODE {
        ("TIME_WINDOW_CONSTRAINT", "cannot be visited within time window")
    } else if c == CAPACITY_CONSTRAINT_CODE {
        ("CAPACITY_CONSTRAINT", "does not fit into any vehicle due to capacity")
    } else if c == REACHABLE_CONSTRAINT_CODE {
        ("REACHABLE_CONSTRAINT", "location unreachable")
    } else if c == DISTANCE_LIMIT_CONSTRAINT_CODE {
        ("MAX_DISTANCE_CONSTRAINT", "cannot be assigned due to max distance constraint of vehicle")
    } else if c == DURATION_LIMIT_CONSTRAINT_CODE {
        ("MAX_DURATION_CONSTRAINT", "cannot be assigned due to max duration constraint of vehicle")
    } else if c == BREAK_CONSTRAINT_CODE {
        ("BREAK_CONSTRAINT", "break is not assignable")
    } else if c == LOCKING_CONSTRAINT_CODE {
        ("LOCKING_CONSTRAINT", "cannot be served due to relation lock")
    } else if c == AREA_CONSTRAINT_CODE {
        ("AREA_CONSTRAINT", "cannot be assigned due to area constraint")
    } else if c == TOUR_SIZE_CONSTRAINT_CODE {
        ("TOUR_SIZE_CONSTRAINT", "cannot be assigned due to tour size constraint of vehicle")
    } else if c == TOUR_ORDER_CONSTRAINT_CODE {
        ("TOUR_ORDER_CONSTRAINT", "cannot be assigned due to tour order constraint")
    } else if c == GROUP_CONSTRAINT_CODE {
        ("GROUP_CONSTRAINT", "cannot be assigned due to group constraint")
    } else if c == COMPATIBILITY_CONSTRAINT_CODE {
        ("COMPATIBILITY_CONSTRAINT", "cannot be assigned due to compatibility constraint")
    } else if c == RELOAD_RESOURCE_CONSTRAINT_CODE {
        ("RELOAD_RESOURCE_CONSTRAINT", "cannot be assigned due to reload resource constraint")
    } else if c == RECHARGE_CONSTRAINT_CODE {
        ("RECHARGE_CONSTRAINT_CODE", "cannot be assigned due to recharge constraint")
    } else if c == MIN_VEHICLE_SHIFTS_CONSTRAINT_CODE {
        ("MIN_SHIFT_CONSTRAINT", "cannot be assigned due to minimum shift requirement")
    } else {
        ("NO_REASON_FOUND", "unknown")
    }
}

/// Maps a reason name back to its violation code; unknown names give the unknown code.
pub fn map_reason_code(reason: &str) -> (code: ViolationCode)
    ensures
        code.0 == reason_code(reason@),
{
    if str_equal(reason, "SKILL_CONSTRAINT") {
        ViolationCode(SKILL_CONSTRAINT_CODE)
    } else if str_equal(reason, "TIME_WINDOW_CONSTRAINT") {
        ViolationCode(TIME_CONSTRAINT_CODE)
    } else if str_equal(reason, "CAPACITY_CONSTRAINT") {
        ViolationCode(CAPACITY_CONSTRAINT_CODE)
    } else if str_equal(reason, "REACHABLE_CONSTRAINT") {
        ViolationCode(REACHABLE_CONSTRAINT_CODE)
    } else if str_equal(reason, "MAX_DISTANCE_CONSTRAINT") {
        ViolationCode(DISTANCE_LIMIT_CONSTRAINT_CODE)
    } else if str_equal(reason, "MAX_DURATION_CONSTRAINT") {
        ViolationCode(DURATION_LIMIT_CONSTRAINT_CODE)
    } else if str_equal(reason, "BREAK_CONSTRAINT") {
        ViolationCode(BREAK_CONSTRAINT_CODE)
    } else if str_equal(reason, "LOCKING_CONSTRAINT") {
        ViolationCode(LOCKING_CONSTRAINT_CODE)
    } else if str_equal(reason, "AREA_CONSTRAINT") {
        ViolationCode(AREA_CONSTRAINT_CODE)
    } else if str_equal(reason, "TOUR_SIZE_CONSTRAINT") {
        ViolationCode(TOUR_SIZE_CONSTRAINT_CODE)
    } else if str_equal(reason, "TOUR_ORDER_CONSTRAINT") {
        ViolationCode(TOUR_ORDER_CONSTRAINT_CODE)
    } else if str_equal(reason, "GROUP_CONSTRAINT") {
        ViolationCode(GROUP_CONSTRAINT_CODE)
    } else if str_equal(reason, "COMPATIBILITY_CONSTRAINT") {
        ViolationCode(COMPATIBILITY_CONSTRAINT_CODE)
    } else if str_equal(reason, "RELOAD_RESOURCE_CONSTRAINT") {
        ViolationCode(RELOAD_RESOURCE_CONSTRAINT_CODE)
    } else if str_equal(reason, "RECHARGE_CONSTRAINT_CODE") {
        ViolationCode(RECHARGE_CONSTRAINT_CODE)
    } else if str_equal(reason, "MIN_SHIFT_CONSTRAINT") {
        ViolationCode(MIN_VEHICLE_SHIFTS_CONSTRAINT_CODE)
    } else {
        ViolationCode::unknown()
    }
}

/// The lengths and a few characters of the reason names, which tell them apart.
proof fn lemma_reason_names()
    ensures
        "SKILL_CONSTRAINT"@.len() == 16 && "SKILL_CONSTRAINT"@[0] == 'S' && "SKILL_CONSTRAINT"@[5] == '_',
        "TIME_WINDOW_CONSTRAINT"@.len() == 22 && "TIME_WINDOW_CONSTRAINT"@[0] == 'T' && "TIME_WINDOW_CONSTRAINT"@[5] == 'W',
        "CAPACITY_CONSTRAINT"@.len() == 19 && "CAPACITY_CONSTRAINT"@[0] == 'C' && "CAPACITY_CONSTRAINT"@[5] == 'I',
        "REACHABLE_CONSTRAINT"@.len() == 20 && "REACHABLE_CONSTRAINT"@[0] == 'R' && "REACHABLE_CONSTRAINT"@[5] == 'A',
        "MAX_DISTANCE_CONSTRAINT"@.len() == 23 && "MAX_DISTANCE_CONSTRAINT"@[0] == 'M' && "MAX_DISTANCE_CONSTRAINT"@[5] == 'I',
        "MAX_DURATION_CONSTRAINT"@.len() == 23 && "MAX_DURATION_CONSTRAINT"@[0] == 'M' && "MAX_DURATION_CONSTRAINT"@[5] == 'U',
        "BREAK_CONSTRAINT"@.len() == 16 && "BREAK_CONSTRAINT"@[0] == 'B' && "BREAK_CONSTRAINT"@[5] == '_',
        "LOCKING_CONSTRAINT"@.len() == 18 && "LOCKING_CONSTRAINT"@[0] == 'L' && "LOCKING_CONSTRAINT"@[5] == 'N',
        "AREA_CONSTRAINT"@.len() == 15 && "AREA_CONSTRAINT"@[0] == 'A' && "AREA_CONSTRAINT"@[5] == 'C',
        "TOUR_SIZE_CONSTRAINT"@.len() == 20 && "TOUR_SIZE_CONSTRAINT"@[0] == 'T' && "TOUR_SIZE_CONSTRAINT"@[5] == 'S',
        "TOUR_ORDER_CONSTRAINT"@.len() == 21 && "TOUR_ORDER_CONSTRAINT"@[0] == 'T' && "TOUR_ORDER_CONSTRAINT"@[5] == 'O',
        "GROUP_CONSTRAINT"@.len() == 16 && "GROUP_CONSTRAINT"@[0] == 'G' && "GROUP_CONSTRAINT"@[5] == '_',
        "COMPATIBILITY_CONSTRAINT"@.len() == 24 && "COMPATIBILITY_CONSTRAINT"@[0] == 'C' && "COMPATIBILITY_CONSTRAINT"@[5] == 'T',
        "RELOAD_RESOURCE_CONSTRAINT"@.len() == 26 && "RELOAD_RESOURCE_CONSTRAINT"@[0] == 'R' && "RELOAD_RESOURCE_CONSTRAINT"@[5] == 'D',
        "RECHARGE_CONSTRAINT_CODE"@.len() == 24 && "RECHARGE_CONSTRAINT_CODE"@[0] == 'R' && "RECHARGE_CONSTRAINT_CODE"@[5] == 'R',
        "MIN_SHIFT_CONSTRAINT"@.len() == 20 && "MIN_SHIFT_CONSTRAINT"@[0] == 'M' && "MIN_SHIFT_CONSTRAINT"@[5] == 'H',
        "NO_REASON_FOUND"@.len() == 15 && "NO_REASON_FOUND"@[0] == 'N' && "NO_REASON_FOUND"@[5] == 'A',
{
    reveal_strlit("SKILL_CONSTRAINT");
    reveal_strlit("TIME_WINDOW_CONSTRAINT");
    reveal_strlit("CAPACITY_CONSTRAINT");
    reveal_strlit("REACHABLE_CONSTRAINT");
    reveal_strlit("MAX_DISTANCE_CONSTRAINT");
    reveal_strlit("MAX_DURATION_CONSTRAINT");
    reveal_strlit("BREAK_CONSTRAINT");
    reveal_strlit("LOCKING_CONSTRAINT");
    reveal_strlit("AREA_CONSTRAINT");
    reveal_strlit("TOUR_SIZE_CONSTRAINT");
    reveal_strlit("TOUR_ORDER_CONSTRAINT");
    reveal_strlit("GROUP_CONSTRAINT");
    reveal_strlit("COMPATIBILITY_CONSTRAINT");
    reveal_strlit("RELOAD_RESOURCE_CONSTRAINT");
    reveal_strlit("RECHARGE_CONSTRAINT_CODE");
    reveal_strlit("MIN_SHIFT_CONSTRAINT");
    reveal_strlit("NO_REASON_FOUND");
}

/// Reading back the reason name of a code gives the code itself when it is
/// known, and the unknown code otherwise.
pub proof fn lemma_code_reason_round_trip(code: i32)
    ensures
        reason_code(code_reason(code).0) == (if is_known_code(code) {
            code
        } else {
            -1i32
        }),
{
    lemma_reason_names();
}

/// A reason name that some code has maps to that code, whose reason is the name again.
pub proof fn lemma_reason_code_round_trip(reason: Seq<char>)
    ensures
        is_known_code(reason_code(reason)) ==> code_reason(reason_code(reason)).0 == reason,
        !is_known_code(reason_code(reason)) ==> reason_code(reason) == -1,
{
    lemma_reason_names();
}

} // verus!
