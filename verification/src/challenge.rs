//! Challenge expiry.

use std::time::SystemTime;

use vstd::prelude::*;

use crate::credential::{age_between, older_than, read_from_clock, Challenge};

verus! {

/// How long a challenge stays valid: five minutes.
pub const CHALLENGE_MAX_AGE_SECS: u64 = 300;

/// Whether a challenge is older than the default window, by the system clock.
pub fn is_expired(challenge: &Challenge) -> (expired: bool)
    ensures
        exists|now: SystemTime|
            #[trigger] read_from_clock(now) && expired == older_than(
                age_between(challenge.created_at, now),
                CHALLENGE_MAX_AGE_SECS,
            ),
{
    challenge.is_expired(CHALLENGE_MAX_AGE_SECS)
}

/// Whether a challenge is older than `max_age_secs` seconds, by the system clock.
pub fn is_expired_with_max_age(challenge: &Challenge, max_age_secs: u64) -> (expired: bool)
    ensures
        exists|now: SystemTime|
            #[trigger] read_from_clock(now) && expired == older_than(
                age_between(challenge.created_at, now),
                max_age_secs,
            ),
{
    challenge.is_expired(max_age_secs)
}

/// A challenge is in its window exactly if it is not older than five minutes.
pub proof fn law_challenge_window(age: Option<(u64, u32)>)
    ensures
        older_than(age, CHALLENGE_MAX_AGE_SECS) <==> !(age matches Some((seconds, nanos)) && (seconds
            < 5 * 60 || (seconds == 5 * 60 && nanos == 0))),
{
}

} // verus!
