//! Calendar dates, by way of the `chrono` crate.

use std::fmt::Write;
use vstd::prelude::*;
use crate::charset::string_or_none;

verus! {

/// The moment that lies `secs` seconds after the start of 1970, in
/// universal time, written in the format `format` as
/// `chrono::DateTime::format` understands it. There is none where the moment
/// is out of the range of `chrono`'s calendar, and none where the format is
/// not one that `chrono` can write.
pub uninterp spec fn timestamp_text(secs: int, format: Seq<char>) -> Option<Seq<char>>;

/// Calls `chrono::DateTime::from_timestamp` and writes the moment with
/// `chrono::DateTime::format`. The contract claims only that the result is a
/// function of the seconds and the format, named [`timestamp_text`]; a moment
/// out of range and a format that cannot be written both give `None`.
#[verifier::external_body]
pub(crate) fn format_timestamp(secs: i64, format: &str) -> (r: Option<String>)
    ensures
        string_or_none(r) == timestamp_text(secs as int, format@),
{
    let moment = chrono::DateTime::from_timestamp(secs, 0)?;
    let mut out = String::new();
    match write!(out, "{}", moment.format(format)) {
        Ok(()) => Some(out),
        Err(_) => None,
    }
}

} // verus!
