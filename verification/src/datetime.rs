//! RFC3339 date times as seconds since the Unix epoch.

use vstd::prelude::*;

verus! {

/// The seconds since the Unix epoch of an RFC3339 date time, `None` for a text
/// that is not one.
pub uninterp spec fn rfc3339_seconds(text: Seq<char>) -> Option<int>;

/// `time::OffsetDateTime::parse` with the RFC3339 format, then its
/// `unix_timestamp`: the seconds since the Unix epoch of the date time written
/// in `text`, `None` where `text` is not an RFC3339 date time. The result is
/// named, not spelled out.
#[verifier::external_body]
pub(crate) fn parse_time_seconds(text: &str) -> (seconds: Option<i64>)
    ensures
        match seconds {
            Some(s) => rfc3339_seconds(text@) == Some(s as int),
            None => rfc3339_seconds(text@) is None,
        },
{
    time::OffsetDateTime::parse(text, &time::format_description::well_known::Rfc3339).ok().map(|t| t.unix_timestamp())
}

/// The RFC3339 text of the date time `seconds` after the Unix epoch, `None` for
/// a time that has no such text.
pub uninterp spec fn rfc3339_text(seconds: int) -> Option<Seq<char>>;

/// `time::OffsetDateTime::from_unix_timestamp`, then `format` with the RFC3339
/// format: the text of the date time `seconds` after the Unix epoch, `None` where
/// either call fails. The result is named, not spelled out.
#[verifier::external_body]
pub(crate) fn format_time_seconds(seconds: i64) -> (text: Option<String>)
    ensures
        match text {
            Some(t) => rfc3339_text(seconds as int) == Some(t@),
            None => rfc3339_text(seconds as int) is None,
        },
{
    time::OffsetDateTime::from_unix_timestamp(seconds)
        .ok()
        .and_then(|t| t.format(&time::format_description::well_known::Rfc3339).ok())
}

} // verus!
