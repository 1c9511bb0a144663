use vstd::prelude::*;

verus! {

/// Points for one run of adjacent cleared rows of length `n`.
pub open spec fn reward(n: int) -> int {
    if n <= 1 {
        100
    } else if n == 2 {
        250
    } else if n == 3 {
        500
    } else {
        1000
    }
}

/// The level reached with `score` points.
pub open spec fn level_of(score: int) -> int {
    score / 1000
}

/// Sum of the rewards of the runs `s`.
pub open spec fn total_reward(s: Seq<int>) -> int
    decreases s.len(),
{
    if s.len() == 0 {
        0
    } else {
        total_reward(s.drop_last()) + reward(s.last())
    }
}

/// `score` plus `gain`, held at the largest `u64`.
pub open spec fn capped_sum(score: int, gain: int) -> int {
    if score + gain > u64::MAX {
        u64::MAX as int
    } else {
        score + gain
    }
}

/// Points for a run of `streak` adjacent cleared rows: 100, 250, 500, and
/// 1000 for four rows or more.
pub fn clear_reward(streak: usize) -> (r: u32)
    ensures
        r == reward(streak as int),
{
    if streak <= 1 {
        100
    } else if streak == 2 {
        250
    } else if streak == 3 {
        500
    } else {
        1000
    }
}

/// The level reached with `score` points: one level per thousand.
pub fn level_from_score(score: u64) -> (r: u64)
    ensures
        r == level_of(score as int),
{
    score / 1000
}

/// Adds the rewards of every run in `streaks` to `score`; the sum is held
/// at the largest `u64`.
pub fn add_rewards(score: u64, streaks: &Vec<usize>) -> (r: u64)
    ensures
        r == capped_sum(score as int, total_reward(streaks@.map_values(|x: usize| x as int))),
{
    let ghost s = streaks@.map_values(|x: usize| x as int);
    let mut acc: u64 = score;
    let mut i: usize = 0;
    while i < streaks.len()
        invariant
            i <= streaks@.len(),
            s == streaks@.map_values(|x: usize| x as int),
            acc == capped_sum(score as int, total_reward(s.subrange(0, i as int))),
            total_reward(s.subrange(0, i as int)) >= 0,
        decreases streaks@.len() - i,
    {
        let p = clear_reward(streaks[i]);
        proof {
            assert(s.subrange(0, i + 1).drop_last() =~= s.subrange(0, i as int));
        }
        acc = acc.saturating_add(p as u64);
        i += 1;
    }
    proof {
        assert(s.subrange(0, streaks@.len() as int) =~= s);
    }
    acc
}

} // verus!
