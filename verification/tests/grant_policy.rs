use levelbot::policy::{cooldown_remaining, may_grant, XP_COOLDOWN_SECONDS};

#[test]
fn first_event_always_grants() {
    assert!(may_grant(None, 0, XP_COOLDOWN_SECONDS));
    assert!(may_grant(None, i64::MIN, XP_COOLDOWN_SECONDS));
    assert!(may_grant(None, i64::MAX, XP_COOLDOWN_SECONDS));
}

#[test]
fn cooldown_window_is_refused() {
    let t: i64 = 1000;
    assert!(!may_grant(Some(t), t + 1, XP_COOLDOWN_SECONDS));
    assert!(!may_grant(Some(t), t + 30, XP_COOLDOWN_SECONDS));
    assert!(!may_grant(Some(t), t + 60, XP_COOLDOWN_SECONDS));
}

#[test]
fn cooldown_expiry_grants() {
    let t: i64 = 1000;
    assert!(may_grant(Some(t), t + 61, XP_COOLDOWN_SECONDS));
    assert!(may_grant(Some(t), t + 1000, XP_COOLDOWN_SECONDS));
}

#[test]
fn out_of_order_candidate_is_refused() {
    let t: i64 = 1000;
    assert!(!may_grant(Some(t), t, XP_COOLDOWN_SECONDS));
    assert!(!may_grant(Some(t), t - 500, XP_COOLDOWN_SECONDS));
}

#[test]
fn extreme_timestamps_do_not_wrap() {
    assert!(may_grant(Some(i64::MIN), i64::MAX, XP_COOLDOWN_SECONDS));
    assert!(!may_grant(Some(i64::MAX), i64::MIN, XP_COOLDOWN_SECONDS));
}

#[test]
fn remaining_seconds_count_down() {
    assert_eq!(cooldown_remaining(1000, 1000, 60), 60);
    assert_eq!(cooldown_remaining(1000, 1030, 60), 30);
    assert_eq!(cooldown_remaining(1000, 1060, 60), 0);
    assert_eq!(cooldown_remaining(1000, 1061, 60), 0);
    assert_eq!(cooldown_remaining(1000, 99999, 60), 0);
}
