use levelbot::transition::transition_intents;

#[test]
fn first_promotion_adds_without_removal() {
    let intents = transition_intents(0, 1, false, false);
    assert_eq!(intents.remove_role, None);
    assert_eq!(intents.add_role, Some("Beginner - Rank I".to_string()));
    assert!(intents.announce);
    assert_eq!(intents.reconcile_role, Some("Beginner - Rank I".to_string()));
}

#[test]
fn promotion_replaces_previous_role() {
    let intents = transition_intents(1, 2, false, false);
    assert_eq!(intents.remove_role, Some("Beginner - Rank I".to_string()));
    assert_eq!(intents.add_role, Some("Novice - Rank II".to_string()));
    assert!(intents.announce);
}

#[test]
fn bots_are_never_announced() {
    let intents = transition_intents(1, 2, true, false);
    assert_eq!(intents.add_role, Some("Novice - Rank II".to_string()));
    assert!(!intents.announce);
}

#[test]
fn no_change_emits_only_repair() {
    let intents = transition_intents(3, 3, false, false);
    assert_eq!(intents.remove_role, None);
    assert_eq!(intents.add_role, None);
    assert!(!intents.announce);
    assert_eq!(intents.reconcile_role, Some("Expert - Rank III".to_string()));
}

#[test]
fn holding_the_right_role_needs_no_repair() {
    let intents = transition_intents(3, 3, false, true);
    assert_eq!(intents.reconcile_role, None);
}

#[test]
fn level_zero_has_no_role_to_repair() {
    let intents = transition_intents(0, 0, false, false);
    assert_eq!(intents.remove_role, None);
    assert_eq!(intents.add_role, None);
    assert!(!intents.announce);
    assert_eq!(intents.reconcile_role, None);
}

#[test]
fn lower_level_never_adds_a_role() {
    let intents = transition_intents(2, 1, false, true);
    assert_eq!(intents.remove_role, Some("Novice - Rank II".to_string()));
    assert_eq!(intents.add_role, None);
    assert!(!intents.announce);
}

#[test]
fn levels_past_the_table_share_a_position() {
    let intents = transition_intents(21, 25, false, true);
    assert_eq!(intents.remove_role, Some("Eternal - Rank XXI".to_string()));
    assert_eq!(intents.add_role, None);
    assert!(!intents.announce);
}
