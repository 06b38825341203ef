//! The level-transition handler: turns a level change (and what the
//! directory reports about the user) into intents — remove the old rank
//! role, add the new one on a promotion, announce it, and repair a
//! missing role. Dispatching the intents is the embedder's job.
use vstd::prelude::*;
use crate::level::MAX_LEVEL;
use crate::level::rank;
use crate::level::rank_title_of;

verus! {

/// Levels beyond the title table share the table's last position.
pub open spec fn clamp_level(level: int) -> int {
    if level > MAX_LEVEL as int {
        MAX_LEVEL as int
    } else {
        level
    }
}

/// A removal intent is emitted when the level moved and the previous
/// level had a title.
pub open spec fn emits_removal(previous: int, current: int) -> bool {
    previous != current && clamp_level(previous) >= 1
}

/// An addition intent is emitted only on a promotion: the level moved
/// and the new title sits strictly higher in the table.
pub open spec fn emits_addition(previous: int, current: int) -> bool {
    previous != current && clamp_level(current) > clamp_level(previous)
}

/// An announcement goes out exactly when a role is added and the user
/// is not an automated account.
pub open spec fn emits_announcement(previous: int, current: int, is_bot: bool) -> bool {
    emits_addition(previous, current) && !is_bot
}

/// A repair intent is emitted, level change or not, when the user does
/// not currently hold the role of their level's title.
pub open spec fn emits_reconciliation(current: int, holds_current_role: bool) -> bool {
    !holds_current_role && clamp_level(current) >= 1
}

/// Desired external effects after an event; each may fail downstream
/// without touching the store.
pub struct TransitionIntents {
    pub remove_role: Option<String>,
    pub add_role: Option<String>,
    pub announce: bool,
    pub reconcile_role: Option<String>,
}

/// Computes the intents for a user whose stored level went from
/// `previous_level` to `current_level`, given what the directory
/// reports: whether the account is automated and whether it currently
/// holds the role of its level's title.
pub fn transition_intents(
    previous_level: u64,
    current_level: u64,
    is_bot: bool,
    holds_current_role: bool,
) -> (intents: TransitionIntents)
    ensures
        (match intents.remove_role {
            Option::Some(title) => emits_removal(previous_level as int, current_level as int)
                && title@ == rank_title_of(previous_level as int),
            Option::None => !emits_removal(previous_level as int, current_level as int),
        }),
        (match intents.add_role {
            Option::Some(title) => emits_addition(previous_level as int, current_level as int)
                && title@ == rank_title_of(current_level as int),
            Option::None => !emits_addition(previous_level as int, current_level as int),
        }),
        intents.announce == emits_announcement(
            previous_level as int,
            current_level as int,
            is_bot,
        ),
        (match intents.reconcile_role {
            Option::Some(title) => emits_reconciliation(current_level as int, holds_current_role)
                && title@ == rank_title_of(current_level as int),
            Option::None => !emits_reconciliation(current_level as int, holds_current_role),
        }),
{
    let changed = previous_level != current_level;
    let previous_pos = if previous_level > MAX_LEVEL {
        MAX_LEVEL
    } else {
        previous_level
    };
    let current_pos = if current_level > MAX_LEVEL {
        MAX_LEVEL
    } else {
        current_level
    };
    let remove_role = if changed && previous_pos >= 1 {
        Option::Some(rank(previous_level))
    } else {
        Option::None
    };
    let promoted = changed && current_pos > previous_pos;
    let add_role = if promoted {
        Option::Some(rank(current_level))
    } else {
        Option::None
    };
    let announce = promoted && !is_bot;
    let reconcile_role = if !holds_current_role && current_pos >= 1 {
        Option::Some(rank(current_level))
    } else {
        Option::None
    };
    TransitionIntents { remove_role, add_role, announce, reconcile_role }
}

} // verus!
