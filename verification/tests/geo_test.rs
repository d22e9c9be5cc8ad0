use std::io::ErrorKind;
use vrp_pragmatic::format::geo::{get_color, get_color_inverse, get_color_list, get_more_colors, invalid_data, slice_to_map};

#[test]
fn color_lists_have_expected_colors() {
    let colors = get_color_list();
    assert_eq!(colors.len(), 15);
    assert_eq!(colors[0], "#e6194b");
    assert_eq!(colors[14], "#808080");
    let more = get_more_colors();
    assert_eq!(more.len(), 128);
    assert_eq!(more[0], "#000000");
    assert_eq!(more[127], "#012C58");
}

#[test]
fn colors_cycle_through_the_list() {
    assert_eq!(get_color(0), "#e6194b");
    assert_eq!(get_color(1), "#3cb44b");
    assert_eq!(get_color(15), "#e6194b");
    assert_eq!(get_color(16), get_color(1));
}

#[test]
fn inverse_colors_count_from_the_end() {
    assert_eq!(get_color_inverse(1), "#e6194b");
    assert_eq!(get_color_inverse(0), "#3cb44b");
    assert_eq!(get_color_inverse(2), "#808080");
    assert_eq!(get_color_inverse(15), "#3cb44b");
}

#[test]
fn pairs_become_map_entries_with_later_pairs_winning() {
    let map = slice_to_map(&[("marker-color", "#e6194b"), ("marker-size", "medium"), ("marker-size", "large")]);
    assert_eq!(map.len(), 2);
    assert_eq!(map.get("marker-color").map(String::as_str), Some("#e6194b"));
    assert_eq!(map.get("marker-size").map(String::as_str), Some("large"));
}

#[test]
fn invalid_data_error_has_kind_and_message() {
    let error = invalid_data("bad input");
    assert_eq!(error.kind(), ErrorKind::InvalidData);
    assert_eq!(error.to_string(), "bad input");
}
