//! Modification times and their display.

use vstd::prelude::*;
use crate::text::push_char;

verus! {

/// A point in time after the Unix epoch: whole seconds and the nanoseconds
/// past them.
#[derive(Clone, Copy, Debug, PartialEq, Eq, Structural)]
pub struct Timestamp {
    pub secs: u64,
    pub nanos: u32,
}

/// The calendar text "Mon DD HH:MM" (UTC) of a count of seconds since the epoch.
pub uninterp spec fn utc_clock_of(secs: int) -> Seq<char>;

/// Relies on chrono's `DateTime::from_timestamp` and its `%b %d %H:%M`
/// format: a three-letter month, then day, hour and minute as two zero-padded
/// digits each, in UTC. The count is taken as `i64` (a count above
/// `i64::MAX` wraps to a negative one, before 1970), and a count out of
/// chrono's range renders as the epoch.
#[verifier::external_body]
fn utc_clock(secs: u64) -> (r: String)
    ensures
        r@ == utc_clock_of(secs as int),
        r@.len() == 12,
        r@[3] == ' ',
        r@[6] == ' ',
        r@[9] == ':',
{
    chrono::DateTime::from_timestamp(secs as i64, 0)
        .unwrap_or_default()
        .format("%b %d %H:%M")
        .to_string()
}

/// The display text of an optional modification time.
pub open spec fn time_text(time: Option<Timestamp>) -> Seq<char> {
    match time {
        None => seq!['?', '?', '?'],
        Some(t) => utc_clock_of(t.secs as int),
    }
}

/// Formats a modification time as "Mon DD HH:MM" in UTC, or "???" when
/// there is none.
pub fn format_time(time: Option<Timestamp>) -> (r: String)
    ensures
        r@ == time_text(time),
        time is Some ==> r@.len() == 12 && r@[3] == ' ' && r@[6] == ' ' && r@[9] == ':',
        time is Some ==> r@.contains(':') && r@.len() > 5,
{
    match time {
        Some(t) => {
            let r = utc_clock(t.secs);
            assert(r@[9] == ':');
            r
        },
        None => {
            let mut r = String::new();
            push_char(&mut r, '?');
            push_char(&mut r, '?');
            push_char(&mut r, '?');
            assert(r@ =~= time_text(time));
            r
        },
    }
}

} // verus!
