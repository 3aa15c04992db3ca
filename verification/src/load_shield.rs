//! The rules of the load shield that guards a group of endpoints: how its
//! two limits are named in the environment, and what becomes of a request
//! that finds the shield full.

use vstd::prelude::*;
use vstd::string::StringExecFns;

verus! {

/// How long a request that is shed waits before it is rejected, in
/// milliseconds. The wait lowers the load that aggressive clients cause.
pub const SHEDDING_DELAY_MILLIS: u64 = 100;

/// The upper-case form of an ASCII letter, and any other character as it is.
pub open spec fn ascii_upper(c: char) -> char {
    if 'a' <= c && c <= 'z' {
        ((c as u32) - 32) as char
    } else {
        c
    }
}

/// `str::to_ascii_uppercase`: a copy of the text in which the ASCII letters
/// `a` to `z` are `A` to `Z` and every other character is unchanged.
#[verifier::external_body]
pub(crate) fn to_ascii_uppercase(text: &str) -> (upper: String)
    ensures
        upper@ == text@.map_values(|c: char| ascii_upper(c)),
{
    text.to_ascii_uppercase()
}

/// The name of the variable that bounds the requests in flight for a group.
pub open spec fn max_in_flight_key(endpoint_group: Seq<char>) -> Seq<char> {
    "QW_"@ + endpoint_group.map_values(|c: char| ascii_upper(c)) + "_MAX_IN_FLIGHT"@
}

/// The name of the variable that bounds the requests served at once for a group.
pub open spec fn max_concurrency_key(endpoint_group: Seq<char>) -> Seq<char> {
    "QW_"@ + endpoint_group.map_values(|c: char| ascii_upper(c)) + "_MAX_CONCURRENCY"@
}

/// The name of the environment variable that bounds the requests in flight
/// for the endpoint group.
pub fn max_in_flight_env_key(endpoint_group: &str) -> (key: String)
    ensures
        key@ == max_in_flight_key(endpoint_group@),
{
    let upper = to_ascii_uppercase(endpoint_group);
    let mut key = String::from_str("QW_");
    key.append(upper.as_str());
    key.append("_MAX_IN_FLIGHT");
    key
}

/// The name of the environment variable that bounds the requests served at
/// once for the endpoint group.
pub fn max_concurrency_env_key(endpoint_group: &str) -> (key: String)
    ensures
        key@ == max_concurrency_key(endpoint_group@),
{
    let upper = to_ascii_uppercase(endpoint_group);
    let mut key = String::from_str("QW_");
    key.append(upper.as_str());
    key.append("_MAX_CONCURRENCY");
    key
}

/// What becomes of a request at the in-flight limit.
#[derive(Clone, Copy, Debug, PartialEq, Eq, Structural)]
pub enum InFlightOutcome {
    /// No limit is configured: the request goes on without a permit.
    Unlimited,
    /// The request holds a permit and goes on.
    Admitted,
    /// The limit is reached: the request waits `delay_millis` and is rejected.
    Shed { delay_millis: u64 },
}

/// Decides what becomes of a request at the in-flight limit: `limited` says
/// whether a limit is configured, and `acquired` whether a permit was free.
pub fn in_flight_outcome(limited: bool, acquired: bool) -> (outcome: InFlightOutcome)
    ensures
        outcome == if !limited {
            InFlightOutcome::Unlimited
        } else if acquired {
            InFlightOutcome::Admitted
        } else {
            InFlightOutcome::Shed { delay_millis: SHEDDING_DELAY_MILLIS }
        },
{
    if !limited {
        InFlightOutcome::Unlimited
    } else if acquired {
        InFlightOutcome::Admitted
    } else {
        InFlightOutcome::Shed { delay_millis: SHEDDING_DELAY_MILLIS }
    }
}

} // verus!
