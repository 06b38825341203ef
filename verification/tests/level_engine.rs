use levelbot::level::{level, level_ansi_color, rank, xp_until_next_level};

#[test]
fn level_at_zero_is_zero() {
    assert_eq!(level(0), 0);
}

#[test]
fn level_threshold_boundaries() {
    assert_eq!(level(9), 0);
    assert_eq!(level(10), 1);
    assert_eq!(level(49), 1);
    assert_eq!(level(50), 2);
    assert_eq!(level(199), 2);
    assert_eq!(level(200), 3);
    assert_eq!(level(129999), 20);
    assert_eq!(level(130000), 21);
    assert_eq!(level(u64::MAX), 21);
}

#[test]
fn level_is_monotonic_over_samples() {
    let samples: Vec<u64> = vec![
        0, 1, 9, 10, 11, 49, 50, 199, 200, 500, 999, 1000, 3250, 5000, 7000, 10000, 13500, 17500,
        22000, 27500, 35000, 45000, 57500, 70000, 85000, 105000, 129999, 130000, 500000,
        u64::MAX,
    ];
    let mut previous: u64 = 0;
    for xp in samples {
        let l = level(xp);
        assert!(l >= previous);
        previous = l;
    }
}

#[test]
fn rank_titles_by_level() {
    assert_eq!(rank(0), "");
    assert_eq!(rank(1), "Beginner - Rank I");
    assert_eq!(rank(2), "Novice - Rank II");
    assert_eq!(rank(8), "Lord - Rank VIII");
    assert_eq!(rank(20), "Overflowing - Rank XX");
    assert_eq!(rank(21), "Eternal - Rank XXI");
    assert_eq!(rank(22), "Eternal - Rank XXI");
    assert_eq!(rank(u64::MAX), "Eternal - Rank XXI");
}

#[test]
fn color_tags_by_level() {
    assert_eq!(level_ansi_color(0), "30");
    assert_eq!(level_ansi_color(1), "37");
    assert_eq!(level_ansi_color(20), "46;31");
    assert_eq!(level_ansi_color(21), "47;33");
    assert_eq!(level_ansi_color(99), "30");
}

#[test]
fn xp_gap_to_next_level() {
    assert_eq!(xp_until_next_level(0), 10);
    assert_eq!(xp_until_next_level(9), 1);
    assert_eq!(xp_until_next_level(10), 40);
    assert_eq!(xp_until_next_level(129999), 1);
    assert_eq!(xp_until_next_level(130000), 0);
    assert_eq!(xp_until_next_level(u64::MAX), 0);
}
