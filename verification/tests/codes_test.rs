use vrp_pragmatic::format::{
    map_code_reason, map_reason_code, ViolationCode, BREAK_CONSTRAINT_CODE, CAPACITY_CONSTRAINT_CODE,
    MIN_VEHICLE_SHIFTS_CONSTRAINT_CODE, RECHARGE_CONSTRAINT_CODE, SKILL_CONSTRAINT_CODE, TIME_CONSTRAINT_CODE,
};

#[test]
fn maps_known_codes_to_reasons() {
    assert_eq!(map_code_reason(ViolationCode(SKILL_CONSTRAINT_CODE)), ("SKILL_CONSTRAINT", "cannot serve required skill"));
    assert_eq!(
        map_code_reason(ViolationCode(TIME_CONSTRAINT_CODE)),
        ("TIME_WINDOW_CONSTRAINT", "cannot be visited within time window")
    );
    assert_eq!(
        map_code_reason(ViolationCode(CAPACITY_CONSTRAINT_CODE)),
        ("CAPACITY_CONSTRAINT", "does not fit into any vehicle due to capacity")
    );
    assert_eq!(map_code_reason(ViolationCode(BREAK_CONSTRAINT_CODE)), ("BREAK_CONSTRAINT", "break is not assignable"));
    assert_eq!(
        map_code_reason(ViolationCode(RECHARGE_CONSTRAINT_CODE)),
        ("RECHARGE_CONSTRAINT_CODE", "cannot be assigned due to recharge constraint")
    );
}

#[test]
fn maps_unknown_code_to_no_reason() {
    assert_eq!(map_code_reason(ViolationCode(-1)), ("NO_REASON_FOUND", "unknown"));
    assert_eq!(map_code_reason(ViolationCode(1000)), ("NO_REASON_FOUND", "unknown"));
}

#[test]
fn reason_names_map_back_to_codes() {
    for code in 1..=MIN_VEHICLE_SHIFTS_CONSTRAINT_CODE {
        let (name, _) = map_code_reason(ViolationCode(code));
        assert_eq!(map_reason_code(name), ViolationCode(code));
    }
}

#[test]
fn unknown_reason_gives_unknown_code() {
    let code = map_reason_code("SOMETHING_ELSE");
    assert!(code.is_unknown());
    assert_eq!(code, ViolationCode::unknown());
    assert_eq!(map_reason_code("NO_REASON_FOUND"), ViolationCode(-1));
}
