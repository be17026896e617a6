//! Reading the current time for the item records: a caller-supplied
//! timestamp is used as is; only when none is given is the system clock
//! consulted.

use std::time::{SystemTime, UNIX_EPOCH};
use vstd::prelude::*;

verus! {

/// Relies on std's `SystemTime::now` and `duration_since(UNIX_EPOCH)`:
/// the milliseconds since the Unix epoch, or none when the system clock
/// reads before the epoch. Nothing is promised of the value.
#[verifier::external_body]
fn system_millis() -> (r: Option<u128>) {
    match SystemTime::now().duration_since(UNIX_EPOCH) {
        Ok(now) => Some(now.as_millis()),
        Err(_) => None,
    }
}

/// The given time, or the system clock: a supplied timestamp is returned
/// unchanged; without one the clock decides, and only a clock before the
/// epoch fails.
pub fn get_now(time: Option<u128>) -> (r: Result<u128, String>)
    ensures
        time matches Some(t) ==> r == Ok::<u128, String>(t),
        time is None ==> (r matches Err(e) ==> e@ == "Failed to get current time"@),
{
    match time {
        Some(now) => Ok(now),
        None => match system_millis() {
            Some(now) => Ok(now),
            None => Err("Failed to get current time".to_owned()),
        },
    }
}

} // verus!
