//! The level engine: the only place where experience thresholds, rank
//! titles and display colors are defined. Every other component derives
//! levels and titles by calling in here.
use vstd::prelude::*;

verus! {

/// Number of experience thresholds; levels range over `0 ..= MAX_LEVEL`.
pub const MAX_LEVEL: u64 = 21;

/// The strictly increasing experience thresholds. Reaching threshold `i`
/// (counting from 0) puts a user at level `i + 1`.
pub open spec fn level_thresholds() -> Seq<u64> {
    seq![
        10u64, 50, 200, 500, 1000, 2000, 3250, 5000, 7000, 10000, 13500, 17500, 22000, 27500,
        35000, 45000, 57500, 70000, 85000, 105000, 130000,
    ]
}

/// How many of the first `n` thresholds `xp` has reached.
pub open spec fn levels_reached(xp: int, n: int) -> int
    decreases n,
{
    if n <= 0 {
        0
    } else {
        levels_reached(xp, n - 1) + if xp >= level_thresholds()[n - 1] {
            1int
        } else {
            0int
        }
    }
}

/// The level earned by `xp` experience: the count of thresholds reached.
pub open spec fn level_of(xp: int) -> int {
    levels_reached(xp, level_thresholds().len() as int)
}

/// `levels_reached` counts at most one per threshold.
pub proof fn lemma_levels_reached_bounds(xp: int, n: int)
    requires
        n >= 0,
    ensures
        0 <= levels_reached(xp, n) <= n,
    decreases n,
{
    if n > 0 {
        lemma_levels_reached_bounds(xp, n - 1);
    }
}

/// Levels stay within `0 ..= MAX_LEVEL`.
pub proof fn lemma_level_of_bounds(xp: int)
    ensures
        0 <= level_of(xp) <= MAX_LEVEL,
{
    lemma_levels_reached_bounds(xp, level_thresholds().len() as int);
}

proof fn lemma_levels_reached_monotonic(xp1: int, xp2: int, n: int)
    requires
        xp1 <= xp2,
    ensures
        levels_reached(xp1, n) <= levels_reached(xp2, n),
    decreases n,
{
    if n > 0 {
        lemma_levels_reached_monotonic(xp1, xp2, n - 1);
    }
}

/// More experience never means a lower level.
pub proof fn lemma_level_of_monotonic(xp1: int, xp2: int)
    requires
        xp1 <= xp2,
    ensures
        level_of(xp1) <= level_of(xp2),
{
    lemma_levels_reached_monotonic(xp1, xp2, level_thresholds().len() as int);
}

proof fn lemma_levels_reached_zero(n: int)
    requires
        0 <= n <= level_thresholds().len(),
    ensures
        levels_reached(0, n) == 0,
    decreases n,
{
    if n > 0 {
        lemma_levels_reached_zero(n - 1);
        assert(level_thresholds()[n - 1] > 0);
    }
}

/// No experience means level 0.
pub proof fn lemma_level_of_zero()
    ensures
        level_of(0) == 0,
{
    lemma_levels_reached_zero(level_thresholds().len() as int);
}

/// The threshold table, one entry at a time, for executable callers.
fn threshold_at(i: usize) -> (t: u64)
    requires
        i < level_thresholds().len(),
    ensures
        t == level_thresholds()[i as int],
{
    match i {
        0 => 10,
        1 => 50,
        2 => 200,
        3 => 500,
        4 => 1000,
        5 => 2000,
        6 => 3250,
        7 => 5000,
        8 => 7000,
        9 => 10000,
        10 => 13500,
        11 => 17500,
        12 => 22000,
        13 => 27500,
        14 => 35000,
        15 => 45000,
        16 => 57500,
        17 => 70000,
        18 => 85000,
        19 => 105000,
        _ => 130000,
    }
}

/// Gets a level from an amount of xp.
pub fn level(xp: u64) -> (l: u64)
    ensures
        l == level_of(xp as int),
        l <= MAX_LEVEL,
{
    let mut l: u64 = 0;
    let mut i: usize = 0;
    while i < 21
        invariant
            i <= 21,
            l == levels_reached(xp as int, i as int),
            l <= i,
        decreases 21 - i,
    {
        if xp >= threshold_at(i) {
            l = l + 1;
        }
        i = i + 1;
    }
    l
}

/// The display title for a level; level 0 has no title, and levels past
/// the end of the table keep the highest title.
pub open spec fn rank_title_of(level: int) -> Seq<char> {
    if level <= 0 {
        ""@
    } else if level == 1 {
        "Beginner - Rank I"@
    } else if level == 2 {
        "Novice - Rank II"@
    } else if level == 3 {
        "Expert - Rank III"@
    } else if level == 4 {
        "Master - Rank IV"@
    } else if level == 5 {
        "Sage - Rank V"@
    } else if level == 6 {
        "Legend - Rank VI"@
    } else if level == 7 {
        "Myth - Rank VII"@
    } else if level == 8 {
        "Lord - Rank VIII"@
    } else if level == 9 {
        "Wizard - Rank IX"@
    } else if level == 10 {
        "Ghost - Rank X"@
    } else if level == 11 {
        "Demon - Rank XI"@
    } else if level == 12 {
        "No Life - Rank XII"@
    } else if level == 13 {
        "Grinder - Rank XIII"@
    } else if level == 14 {
        "Farmer - Rank XIV"@
    } else if level == 15 {
        "Destroyer - Rank XV"@
    } else if level == 16 {
        "Obliterator - Rank XVI"@
    } else if level == 17 {
        "Millionaire - Rank XVII"@
    } else if level == 18 {
        "Billionaire - Rank XVIII"@
    } else if level == 19 {
        "Ascendant - Rank XIX"@
    } else if level == 20 {
        "Overflowing - Rank XX"@
    } else {
        "Eternal - Rank XXI"@
    }
}

/// Gets a rank's name from a level.
pub fn rank(level: u64) -> (title: String)
    ensures
        title@ == rank_title_of(level as int),
{
    let t: &str = if level == 0 {
        ""
    } else if level == 1 {
        "Beginner - Rank I"
    } else if level == 2 {
        "Novice - Rank II"
    } else if level == 3 {
        "Expert - Rank III"
    } else if level == 4 {
        "Master - Rank IV"
    } else if level == 5 {
        "Sage - Rank V"
    } else if level == 6 {
        "Legend - Rank VI"
    } else if level == 7 {
        "Myth - Rank VII"
    } else if level == 8 {
        "Lord - Rank VIII"
    } else if level == 9 {
        "Wizard - Rank IX"
    } else if level == 10 {
        "Ghost - Rank X"
    } else if level == 11 {
        "Demon - Rank XI"
    } else if level == 12 {
        "No Life - Rank XII"
    } else if level == 13 {
        "Grinder - Rank XIII"
    } else if level == 14 {
        "Farmer - Rank XIV"
    } else if level == 15 {
        "Destroyer - Rank XV"
    } else if level == 16 {
        "Obliterator - Rank XVI"
    } else if level == 17 {
        "Millionaire - Rank XVII"
    } else if level == 18 {
        "Billionaire - Rank XVIII"
    } else if level == 19 {
        "Ascendant - Rank XIX"
    } else if level == 20 {
        "Overflowing - Rank XX"
    } else {
        "Eternal - Rank XXI"
    };
    t.to_owned()
}

/// The ANSI color code used when a level is rendered; levels without an
/// entry of their own use the default code.
pub open spec fn color_tag_of(level: int) -> Seq<char> {
    if level == 1 {
        "37"@
    } else if level == 2 {
        "32"@
    } else if level == 3 {
        "36"@
    } else if level == 4 {
        "33"@
    } else if level == 5 {
        "33"@
    } else if level == 6 {
        "31"@
    } else if level == 7 {
        "32"@
    } else if level == 8 {
        "34"@
    } else if level == 9 {
        "35"@
    } else if level == 10 {
        "30"@
    } else if level == 11 {
        "31"@
    } else if level == 12 {
        "36"@
    } else if level == 13 {
        "35"@
    } else if level == 14 {
        "35"@
    } else if level == 15 {
        "32"@
    } else if level == 16 {
        "35"@
    } else if level == 17 {
        "30"@
    } else if level == 18 {
        "34"@
    } else if level == 19 {
        "30"@
    } else if level == 20 {
        "46;31"@
    } else if level == 21 {
        "47;33"@
    } else {
        "30"@
    }
}

/// The ANSI color code for a level's display.
pub fn level_ansi_color(level: u64) -> (tag: String)
    ensures
        tag@ == color_tag_of(level as int),
{
    let t: &str = match level {
        1 => "37",
        2 => "32",
        3 => "36",
        4 => "33",
        5 => "33",
        6 => "31",
        7 => "32",
        8 => "34",
        9 => "35",
        10 => "30",
        11 => "31",
        12 => "36",
        13 => "35",
        14 => "35",
        15 => "32",
        16 => "35",
        17 => "30",
        18 => "34",
        19 => "30",
        20 => "46;31",
        21 => "47;33",
        _ => "30",
    };
    t.to_owned()
}

/// Experience still missing until the next threshold above `xp`;
/// 0 once the last threshold is reached.
pub open spec fn xp_to_next_spec(xp: int) -> int {
    if level_of(xp) >= level_thresholds().len() {
        0
    } else {
        level_thresholds()[level_of(xp)] - xp
    }
}

/// How much experience separates `xp` from the next level.
pub fn xp_until_next_level(xp: u64) -> (gap: u64)
    ensures
        gap == xp_to_next_spec(xp as int),
{
    let l = level(xp);
    if l >= 21 {
        0
    } else {
        let t = threshold_at(l as usize);
        assert(xp < t) by {
            lemma_level_below_next_threshold(xp as int);
        }
        t - xp
    }
}

/// Adjacent thresholds grow strictly.
proof fn lemma_thresholds_adjacent()
    ensures
        forall|k: int|
            0 <= k < level_thresholds().len() - 1 ==> #[trigger] level_thresholds()[k]
                < level_thresholds()[k + 1],
{
}

/// Thresholds are sorted: a later threshold is never smaller.
proof fn lemma_thresholds_sorted(i: int, j: int)
    requires
        0 <= i <= j < level_thresholds().len(),
    ensures
        level_thresholds()[i] <= level_thresholds()[j],
    decreases j - i,
{
    if i < j {
        lemma_thresholds_sorted(i, j - 1);
        lemma_thresholds_adjacent();
    }
}

/// `xp` has not reached the threshold indexed by its own level.
proof fn lemma_level_below_next_threshold(xp: int)
    requires
        level_of(xp) < level_thresholds().len(),
    ensures
        xp < level_thresholds()[level_of(xp)],
{
    lemma_levels_reached_next(xp, level_thresholds().len() as int);
}

proof fn lemma_levels_reached_next(xp: int, n: int)
    requires
        0 <= n <= level_thresholds().len(),
        levels_reached(xp, n) < n,
    ensures
        xp < level_thresholds()[levels_reached(xp, n)],
    decreases n,
{
    lemma_levels_reached_bounds(xp, n);
    let c1 = levels_reached(xp, n - 1);
    lemma_levels_reached_bounds(xp, n - 1);
    if xp >= level_thresholds()[n - 1] {
        if c1 < n - 1 {
            lemma_levels_reached_next(xp, n - 1);
            lemma_thresholds_sorted(c1, n - 1);
        }
    } else {
        if c1 < n - 1 {
            lemma_levels_reached_next(xp, n - 1);
        }
    }
}

} // verus!
