//! Colors and properties of the geo json view of a solution.

use crate::collections::{string_map_entries, string_map_insert, string_map_new};
use std::collections::HashMap;
use vstd::prelude::*;

verus! {

/// `std::io::Error`, carried through as it is.
#[verifier::external_type_specification]
#[verifier::external_body]
pub struct ExIoError(std::io::Error);

/// The map of the given key and value pairs; a later pair wins over an earlier
/// one with the same key.
pub open spec fn pairs_map(pairs: Seq<(&str, &str)>) -> Map<Seq<char>, Seq<char>>
    decreases pairs.len(),
{
    if pairs.len() == 0 {
        Map::empty()
    } else {
        pairs_map(pairs.drop_last()).insert(pairs.last().0@, pairs.last().1@)
    }
}

/// Collects key and value pairs into a map.
pub fn slice_to_map(vec: &[(&str, &str)]) -> (map_of_pairs: HashMap<String, String>)
    ensures
        string_map_entries(map_of_pairs) == pairs_map(vec@),
{
    let mut result = string_map_new();
    let mut idx: usize = 0;
    proof {
        assert(string_map_entries(result) =~= pairs_map(vec@.take(0)));
    }
    while idx < vec.len()
        invariant
            idx <= vec.len(),
            string_map_entries(result) == pairs_map(vec@.take(idx as int)),
        decreases vec.len() - idx,
    {
        proof {
            assert(vec@.take(idx + 1).drop_last() =~= vec@.take(idx as int));
            assert(vec@.take(idx + 1).last() == vec@[idx as int]);
        }
        let (key, value) = vec[idx];
        string_map_insert(&mut result, String::from_str(key), String::from_str(value));
        idx = idx + 1;
    }
    proof {
        assert(vec@.take(idx as int) =~= vec@);
    }
    result
}

/// `std::io::Error::new` with `ErrorKind::InvalidData` and the message: an
/// error value that this crate only hands on, so nothing is stated of it.
#[verifier::external_body]
pub fn invalid_data(msg: &str) -> (error: std::io::Error) {
    std::io::Error::new(std::io::ErrorKind::InvalidData, msg)
}

/// The human distinguishable colors, in order.
pub open spec fn color_list() -> Seq<Seq<char>> {
    seq![
        "#e6194b"@, "#3cb44b"@, "#4363d8"@, "#f58231"@, "#911eb4"@, "#46f0f0"@, "#f032e6"@, "#bcf60c"@,
        "#008080"@, "#e6beff"@, "#9a6324"@, "#800000"@, "#808000"@, "#000075"@, "#808080"@,
    ]
}

/// The larger palette, in order.
pub open spec fn more_color_list() -> Seq<Seq<char>> {
    seq![
        "#000000"@, "#FFFF00"@, "#1CE6FF"@, "#FF34FF"@, "#FF4A46"@, "#008941"@, "#006FA6"@, "#A30059"@,
        "#FFDBE5"@, "#7A4900"@, "#0000A6"@, "#63FFAC"@, "#B79762"@, "#004D43"@, "#8FB0FF"@, "#997D87"@,
        "#5A0007"@, "#809693"@, "#FEFFE6"@, "#1B4400"@, "#4FC601"@, "#3B5DFF"@, "#4A3B53"@, "#FF2F80"@,
        "#61615A"@, "#BA0900"@, "#6B7900"@, "#00C2A0"@, "#FFAA92"@, "#FF90C9"@, "#B903AA"@, "#D16100"@,
        "#DDEFFF"@, "#000035"@, "#7B4F4B"@, "#A1C299"@, "#300018"@, "#0AA6D8"@, "#013349"@, "#00846F"@,
        "#372101"@, "#FFB500"@, "#C2FFED"@, "#A079BF"@, "#CC0744"@, "#C0B9B2"@, "#C2FF99"@, "#001E09"@,
        "#00489C"@, "#6F0062"@, "#0CBD66"@, "#EEC3FF"@, "#456D75"@, "#B77B68"@, "#7A87A1"@, "#788D66"@,
        "#885578"@, "#FAD09F"@, "#FF8A9A"@, "#D157A0"@, "#BEC459"@, "#456648"@, "#0086ED"@, "#886F4C"@,
        "#34362D"@, "#B4A8BD"@, "#00A6AA"@, "#452C2C"@, "#636375"@, "#A3C8C9"@, "#FF913F"@, "#938A81"@,
        "#575329"@, "#00FECF"@, "#B05B6F"@, "#8CD0FF"@, "#3B9700"@, "#04F757"@, "#C8A1A1"@, "#1E6E00"@,
        "#7900D7"@, "#A77500"@, "#6367A9"@, "#A05837"@, "#6B002C"@, "#772600"@, "#D790FF"@, "#9B9700"@,
        "#549E79"@, "#FFF69F"@, "#201625"@, "#72418F"@, "#BC23FF"@, "#99ADC0"@, "#3A2465"@, "#922329"@,
        "#5B4534"@, "#FDE8DC"@, "#404E55"@, "#0089A3"@, "#CB7E98"@, "#A4E804"@, "#324E72"@, "#6A3A4C"@,
        "#83AB58"@, "#001C1E"@, "#D1F7CE"@, "#004B28"@, "#C8D0F6"@, "#A3A489"@, "#806C66"@, "#222800"@,
        "#BF5650"@, "#E83000"@, "#66796D"@, "#DA007C"@, "#FF1A59"@, "#8ADBB4"@, "#1E0200"@, "#5B4E51"@,
        "#C895C5"@, "#320033"@, "#FF6832"@, "#66E1D3"@, "#CFCDAC"@, "#D0AC94"@, "#7ED379"@, "#012C58"@,
    ]
}

/// Returns list of human distinguishable colors.
pub fn get_color_list() -> (colors: [&'static str; 15])
    ensures
        forall|i: int| 0 <= i < 15 ==> (#[trigger] colors@[i])@ == color_list()[i],
{
    [
        "#e6194b", "#3cb44b", "#4363d8", "#f58231", "#911eb4", "#46f0f0", "#f032e6", "#bcf60c",
        "#008080", "#e6beff", "#9a6324", "#800000", "#808000", "#000075", "#808080",
    ]
}

/// Returns more colors.
pub fn get_more_colors() -> (colors: [&'static str; 128])
    ensures
        forall|i: int| 0 <= i < 128 ==> (#[trigger] colors@[i])@ == more_color_list()[i],
{
    [
        "#000000", "#FFFF00", "#1CE6FF", "#FF34FF", "#FF4A46", "#008941", "#006FA6", "#A30059",
        "#FFDBE5", "#7A4900", "#0000A6", "#63FFAC", "#B79762", "#004D43", "#8FB0FF", "#997D87",
        "#5A0007", "#809693", "#FEFFE6", "#1B4400", "#4FC601", "#3B5DFF", "#4A3B53", "#FF2F80",
        "#61615A", "#BA0900", "#6B7900", "#00C2A0", "#FFAA92", "#FF90C9", "#B903AA", "#D16100",
        "#DDEFFF", "#000035", "#7B4F4B", "#A1C299", "#300018", "#0AA6D8", "#013349", "#00846F",
        "#372101", "#FFB500", "#C2FFED", "#A079BF", "#CC0744", "#C0B9B2", "#C2FF99", "#001E09",
        "#00489C", "#6F0062", "#0CBD66", "#EEC3FF", "#456D75", "#B77B68", "#7A87A1", "#788D66",
        "#885578", "#FAD09F", "#FF8A9A", "#D157A0", "#BEC459", "#456648", "#0086ED", "#886F4C",
        "#34362D", "#B4A8BD", "#00A6AA", "#452C2C", "#636375", "#A3C8C9", "#FF913F", "#938A81",
        "#575329", "#00FECF", "#B05B6F", "#8CD0FF", "#3B9700", "#04F757", "#C8A1A1", "#1E6E00",
        "#7900D7", "#A77500", "#6367A9", "#A05837", "#6B002C", "#772600", "#D790FF", "#9B9700",
        "#549E79", "#FFF69F", "#201625", "#72418F", "#BC23FF", "#99ADC0", "#3A2465", "#922329",
        "#5B4534", "#FDE8DC", "#404E55", "#0089A3", "#CB7E98", "#A4E804", "#324E72", "#6A3A4C",
        "#83AB58", "#001C1E", "#D1F7CE", "#004B28", "#C8D0F6", "#A3A489", "#806C66", "#222800",
        "#BF5650", "#E83000", "#66796D", "#DA007C", "#FF1A59", "#8ADBB4", "#1E0200", "#5B4E51",
        "#C895C5", "#320033", "#FF6832", "#66E1D3", "#CFCDAC", "#D0AC94", "#7ED379", "#012C58",
    ]
}

/// The color for an index, cycling through the list.
pub fn get_color(idx: usize) -> (color: String)
    ensures
        color@ == color_list()[idx as int % 15],
{
    let colors = get_color_list();
    let idx = idx % colors.len();
    String::from_str(colors[idx])
}

/// The color for an index counted from the end of the list.
pub fn get_color_inverse(idx: usize) -> (color: String)
    requires
        idx <= 15,
    ensures
        color@ == color_list()[(16 - idx as int) % 15],
{
    let colors = get_color_list();
    let idx = (colors.len() - idx + 1) % colors.len();
    String::from_str(colors[idx])
}


/// Colors repeat every fifteen indices.
pub proof fn lemma_colors_cycle(idx: nat)
    ensures
        color_list()[((idx + 15) % 15) as int] == color_list()[idx as int % 15],
{
    assert((idx + 15) % 15 == idx % 15) by (nonlinear_arith);
}

} // verus!
