//! The wall clock, read at minute granularity: everything else in the
//! library takes the current minute of the day as a plain argument.

use vstd::prelude::*;
use chrono::Timelike;

verus! {

use crate::MINUTES_PER_DAY;

/// Relies on chrono::Local::now and chrono::Timelike: the local time of
/// day, of which only the documented ranges of `hour` (below 24) and
/// `minute` (below 60) are assumed.
#[verifier::external_body]
fn now_hour_minute() -> (hm: (u8, u8))
    ensures
        hm.0 < 24,
        hm.1 < 60,
{
    let t = chrono::Local::now().time();
    (t.hour() as u8, t.minute() as u8)
}

/// The current local time as a minute of the day.
pub fn now_minute_of_day() -> (m: u16)
    ensures
        m < MINUTES_PER_DAY,
{
    let (h, mi) = now_hour_minute();
    (h as u16) * 60 + (mi as u16)
}

} // verus!
