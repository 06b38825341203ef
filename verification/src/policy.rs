//! The grant policy: the single cooldown rule deciding whether a candidate
//! event may grant a point of experience. Live events and the
//! reconciliation scan both go through this one function.
use vstd::prelude::*;

verus! {

/// Seconds that must pass after a grant before the next one.
pub const XP_COOLDOWN_SECONDS: i64 = 60;

/// A candidate at time `candidate` clears the cooldown that started at
/// time `last_grant`.
pub open spec fn cooldown_elapsed(last_grant: int, candidate: int, cooldown: int) -> bool {
    candidate - last_grant > cooldown
}

/// Whether an experience point may be granted: always on a user's first
/// event, otherwise only once the cooldown has elapsed. Comparison is on
/// event time, never on arrival time.
pub fn may_grant(last_grant: Option<i64>, candidate: i64, cooldown_seconds: i64) -> (granted:
    bool)
    ensures
        granted == match last_grant {
            Option::None => true,
            Option::Some(l) => cooldown_elapsed(l as int, candidate as int,
            cooldown_seconds as int),
        },
{
    match last_grant {
        Option::None => true,
        Option::Some(l) => (candidate as i128) - (l as i128) > (cooldown_seconds as i128),
    }
}

/// Seconds left on the cooldown that started at `last_grant`, seen from
/// `candidate`: zero once the cooldown has run out, and clipped to what
/// the machine can count.
pub fn cooldown_remaining(last_grant: i64, candidate: i64, cooldown_seconds: i64) -> (remaining:
    i64)
    requires
        cooldown_seconds >= 0,
    ensures
        cooldown_elapsed(last_grant as int, candidate as int, cooldown_seconds as int)
            ==> remaining == 0,
        remaining as int == {
            let left = cooldown_seconds - (candidate - last_grant);
            if left < 0 {
                0int
            } else if left > i64::MAX {
                i64::MAX as int
            } else {
                left
            }
        },
{
    let left: i128 = (cooldown_seconds as i128) - ((candidate as i128) - (last_grant as i128));
    if left < 0 {
        0
    } else if left > i64::MAX as i128 {
        i64::MAX
    } else {
        left as i64
    }
}

/// The cooldown law: with a last grant at `t`, candidates through `t +
/// cooldown` are refused and candidates from `t + cooldown + 1` on are
/// granted; a user with no prior grant is always granted.
pub proof fn lemma_cooldown(t: int, candidate: int, cooldown: int)
    ensures
        t < candidate <= t + cooldown ==> !cooldown_elapsed(t, candidate, cooldown),
        candidate >= t + cooldown + 1 ==> cooldown_elapsed(t, candidate, cooldown),
{
}

} // verus!
