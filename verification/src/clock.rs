//! Times as the database writes them.

use crate::text;
use crate::types;
use vstd::prelude::*;

verus! {

/// Seconds from the start of 1970 to the end of the year 9999.
pub const FOUR_DIGIT_YEARS: i64 = 253_402_300_800;

/// How the database writes a time: `2024-05-06 07:08:09`, in UTC.
pub open spec fn sqlite_format() -> Seq<char> {
    "%Y-%m-%d %H:%M:%S"@
}

fn sqlite() -> (r: &'static str)
    ensures
        r@ == sqlite_format(),
{
    "%Y-%m-%d %H:%M:%S"
}

/// What `chrono` reads from a time that is written in a format: seconds since 1970.
pub uninterp spec fn parsed_time(s: Seq<char>, format: Seq<char>) -> Option<i64>;

/// What `chrono` writes for a number of seconds since 1970, in UTC.
pub uninterp spec fn written_time(secs: i64, format: Seq<char>) -> Option<Seq<char>>;

/// `chrono::NaiveDateTime::parse_from_str`, then the seconds since 1970 of that time in
/// UTC. Which texts it takes, and what they mean, is left to `chrono`.
#[verifier::external_body]
pub(crate) fn parse_time(s: &str, format: &str) -> (r: Option<i64>)
    ensures
        r == parsed_time(s@, format@),
{
    chrono::NaiveDateTime::parse_from_str(s, format).ok().map(|t| t.and_utc().timestamp())
}

/// `chrono::DateTime::from_timestamp`, and its `format`. Claims that a time from 1970 to
/// 9999 is written, and is read back as the same number of seconds.
#[verifier::external_body]
fn write_time(secs: i64, format: &str) -> (r: Option<String>)
    requires
        format@ == sqlite_format(),
    ensures
        types::opt_text(r) == written_time(secs, format@),
        0 <= secs < FOUR_DIGIT_YEARS ==> r is Some,
        0 <= secs < FOUR_DIGIT_YEARS ==> parsed_time((r->0)@, format@) == Some(secs),
{
    chrono::DateTime::from_timestamp(secs, 0).map(|t| t.format(format).to_string())
}

/// The seconds since 1970 of a time in the database.
pub fn sqlite_ts_to_secs(s: &str) -> (r: Option<i64>)
    ensures
        r == parsed_time(s@, sqlite_format()),
{
    parse_time(s, sqlite())
}

/// A number of seconds since 1970, as the database writes it.
pub fn sqlite_ts(secs: i64) -> (r: Option<String>)
    ensures
        types::opt_text(r) == written_time(secs, sqlite_format()),
        0 <= secs < FOUR_DIGIT_YEARS ==> r is Some && parsed_time((r->0)@, sqlite_format()) == Some(
            secs,
        ),
{
    write_time(secs, sqlite())
}

/// When a file was added: when it last changed, or `now` where that is unknown. Empty for
/// a time that has no date.
pub fn file_added_at(mtime: Option<i64>, now: i64) -> (r: String)
    ensures
        r@ == match written_time(
            match mtime {
                Some(t) => t,
                None => now,
            },
            sqlite_format(),
        ) {
            Some(t) => t,
            None => ""@,
        },
{
    let secs: i64 = match mtime {
        Some(t) => t,
        None => now,
    };
    match sqlite_ts(secs) {
        Some(t) => t,
        None => text::own(""),
    }
}

/// When something was added that the database has no time for: when it last changed, or
/// when it was scanned where that is unknown.
pub fn backfilled_added_at(mtime: Option<i64>, scanned_at: &str) -> (r: String)
    ensures
        r@ == match mtime {
            Some(t) => match written_time(t, sqlite_format()) {
                Some(s) => s,
                None => scanned_at@,
            },
            None => scanned_at@,
        },
{
    match mtime {
        Some(t) => match sqlite_ts(t) {
            Some(s) => s,
            None => text::own(scanned_at),
        },
        None => text::own(scanned_at),
    }
}

/// Some of the times is after `last`; where that is unknown, all are.
pub open spec fn some_newer(mtimes: Seq<i64>, last: Option<i64>) -> bool {
    match last {
        Some(t) => exists|i: int| 0 <= i < mtimes.len() && #[trigger] mtimes[i] > t,
        None => true,
    }
}

/// Whether some of the times is after `last`.
pub fn newer_than(mtimes: &Vec<i64>, last: Option<i64>) -> (r: bool)
    ensures
        r == some_newer(mtimes@, last),
{
    let t: i64 = match last {
        Some(t) => t,
        None => {
            return true;
        },
    };
    let mut i: usize = 0;
    while i < mtimes.len()
        invariant
            i <= mtimes@.len(),
            last == Some(t),
            forall|j: int| 0 <= j < i ==> mtimes@[j] <= t,
        decreases mtimes@.len() - i,
    {
        if mtimes[i] > t {
            assert(mtimes@[i as int] > t);
            return true;
        }
        i += 1;
    }
    false
}

/// Whether some of the files changed after the last scan: when they did, and when that
/// was, as the database writes it. A time that cannot be read counts as long ago.
pub fn any_newer_than(mtimes: &Vec<i64>, last_scan: &str) -> (r: bool)
    ensures
        r == some_newer(mtimes@, parsed_time(last_scan@, sqlite_format())),
{
    newer_than(mtimes, sqlite_ts_to_secs(last_scan))
}

} // verus!
