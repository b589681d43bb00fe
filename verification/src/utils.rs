//! Cook times.

use rand::Rng;
use vstd::prelude::*;

verus! {

/// Shortest cook time, in minutes.
pub const MIN_COOK_TIME: i32 = 5;

/// Longest cook time, in minutes.
pub const MAX_COOK_TIME: i32 = 15;

/// A cook time that the kitchen accepts.
pub open spec fn valid_cook_time(minutes: i32) -> bool {
    MIN_COOK_TIME <= minutes <= MAX_COOK_TIME
}

/// Exec form of [`valid_cook_time`].
pub fn is_valid_cook_time(minutes: i32) -> (ok: bool)
    ensures
        ok == valid_cook_time(minutes),
{
    MIN_COOK_TIME <= minutes && minutes <= MAX_COOK_TIME
}

/// Calls `rand::thread_rng().gen_range(low..=high)`.
///
/// Trusted: the draw lies between the two bounds, both included. `gen_range`
/// panics on an empty range, which the precondition excludes. Nothing is
/// claimed about which value comes out.
#[verifier::external_body]
fn random_between(low: i32, high: i32) -> (drawn: i32)
    requires
        low <= high,
    ensures
        low <= drawn <= high,
{
    rand::thread_rng().gen_range(low..=high)
}

/// Draws a cook time from the thread's random generator. Each call is
/// independent of every other and of any order.
pub fn generate_random_cook_time() -> (minutes: i32)
    ensures
        valid_cook_time(minutes),
{
    random_between(MIN_COOK_TIME, MAX_COOK_TIME)
}

} // verus!
