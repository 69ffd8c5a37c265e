//! The wall clock.

use std::time::{SystemTime, UNIX_EPOCH};
use vstd::prelude::*;

verus! {

/// Current Unix time in seconds, read with `SystemTime::now` of std; 0 where
/// the clock stands before the epoch. Nothing is claimed of the value: it
/// changes from call to call.
#[verifier::external_body]
pub(crate) fn now_unix_secs() -> i64 {
    SystemTime::now().duration_since(UNIX_EPOCH).map(|d| d.as_secs() as i64).unwrap_or(0)
}

} // verus!
