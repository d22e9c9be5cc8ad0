//! Text pieces used to build checker messages.

use vstd::prelude::*;

verus! {

/// The decimal digit character for `d` in `0..10`.
pub open spec fn digit_char(d: int) -> char {
    if d == 0 {
        '0'
    } else if d == 1 {
        '1'
    } else if d == 2 {
        '2'
    } else if d == 3 {
        '3'
    } else if d == 4 {
        '4'
    } else if d == 5 {
        '5'
    } else if d == 6 {
        '6'
    } else if d == 7 {
        '7'
    } else if d == 8 {
        '8'
    } else {
        '9'
    }
}

/// The decimal representation of a natural number, without leading zeros.
pub open spec fn decimal(n: nat) -> Seq<char>
    decreases n,
{
    if n < 10 {
        seq![digit_char(n as int)]
    } else {
        decimal(n / 10) + seq![digit_char((n % 10) as int)]
    }
}

/// The decimal representation of an integer, with a leading minus when negative.
pub open spec fn signed_decimal(n: int) -> Seq<char> {
    if n < 0 {
        seq!['-'] + decimal((-n) as nat)
    } else {
        decimal(n as nat)
    }
}

/// The views of a sequence of strings.
pub open spec fn views(items: Seq<String>) -> Seq<Seq<char>> {
    items.map_values(|item: String| item@)
}

/// The text `Debug` formatting gives for a list of strings.
pub uninterp spec fn debug_string_list(items: Seq<Seq<char>>) -> Seq<char>;

/// `usize::to_string`: the decimal representation of `n`.
#[verifier::external_body]
pub(crate) fn usize_to_string(n: usize) -> (text: String)
    ensures
        text@ == decimal(n as nat),
{
    n.to_string()
}

/// `i64::to_string`: the decimal representation of `n`, signed.
#[verifier::external_body]
pub(crate) fn i64_to_string(n: i64) -> (text: String)
    ensures
        text@ == signed_decimal(n as int),
{
    n.to_string()
}

/// `u128::to_string`: the decimal representation of `n`.
#[verifier::external_body]
pub(crate) fn u128_to_string(n: u128) -> (text: String)
    ensures
        text@ == decimal(n as nat),
{
    n.to_string()
}

/// Whether `suffix` is a suffix of `text`.
pub open spec fn ends_with(text: Seq<char>, suffix: Seq<char>) -> bool {
    suffix.len() <= text.len() && text.subrange(text.len() - suffix.len(), text.len() as int) == suffix
}

/// `str::ends_with`: whether `suffix` is a suffix of `text`.
#[verifier::external_body]
pub(crate) fn str_ends_with(text: &str, suffix: &str) -> (found: bool)
    ensures
        found == ends_with(text@, suffix@),
{
    text.ends_with(suffix)
}

/// `format!("{:?}", ..)` on a list of strings; the text is named, not spelled out.
#[verifier::external_body]
pub(crate) fn debug_strings(items: &Vec<String>) -> (text: String)
    ensures
        text@ == debug_string_list(views(items@)),
{
    format!("{:?}", items)
}

/// `str` equality: whether the two texts hold the same characters.
#[verifier::external_body]
pub(crate) fn str_equal(left: &str, right: &str) -> (equal: bool)
    ensures
        equal == (left@ == right@),
{
    left == right
}

/// Whether two lists of strings hold equal strings in the same order.
pub(crate) fn same_strings(left: &Vec<String>, right: &Vec<String>) -> (equal: bool)
    ensures
        equal == (views(left@) == views(right@)),
{
    if left.len() != right.len() {
        proof {
            assert(views(left@).len() != views(right@).len());
        }
        return false;
    }
    let mut idx: usize = 0;
    while idx < left.len()
        invariant
            left.len() == right.len(),
            idx <= left.len(),
            forall|i: int| 0 <= i < idx ==> left@[i]@ == right@[i]@,
        decreases left.len() - idx,
    {
        if !(left[idx] == right[idx]) {
            proof {
                assert(views(left@)[idx as int] != views(right@)[idx as int]);
            }
            return false;
        }
        idx = idx + 1;
    }
    proof {
        assert(views(left@) =~= views(right@));
    }
    true
}

/// Whether two optional strings are both absent or both present and equal.
pub(crate) fn same_optional_string(left: &Option<String>, right: &Option<String>) -> (equal: bool)
    ensures
        equal == (match (left, right) {
            (Some(l), Some(r)) => l@ == r@,
            (None, None) => true,
            _ => false,
        }),
{
    match (left, right) {
        (Some(l), Some(r)) => *l == *r,
        (None, None) => true,
        _ => false,
    }
}

} // verus!
