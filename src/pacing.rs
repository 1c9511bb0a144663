use vstd::prelude::*;

verus! {

pub open spec fn pow(b: int, e: nat) -> int
    decreases e,
{
    if e == 0 {
        1
    } else {
        b * pow(b, (e - 1) as nat)
    }
}

/// `d` reaches the drop of the curve at `level`:
/// `d >= 450 * (level / 10)^0.7`, with both sides raised to the 10th power.
pub open spec fn reaches(level: int, d: int) -> bool {
    pow(d, 10) * pow(10, 7) >= pow(450, 10) * pow(level, 7)
}

/// The first `d'` from `d` on, and at most 450, that reaches the drop at `level`.
pub open spec fn first_reaching(level: int, d: int) -> int
    decreases 450 - d,
{
    if d >= 450 || reaches(level, d) {
        d
    } else {
        first_reaching(level, d + 1)
    }
}

/// The fall interval in milliseconds at `level`: the curve
/// `a * level^0.7 + c` through 600 at level 0 and 150 at level 10, rounded
/// down, that is `600 - ceil(450 * (level / 10)^0.7)`; 600 below level 0 and
/// 150 above level 10.
pub open spec fn fall_interval(level: int) -> int {
    if level >= 10 {
        150
    } else if level <= 0 {
        600
    } else {
        600 - first_reaching(level, 0)
    }
}

proof fn lemma_pow_mono(b: int, c: int, e: nat)
    requires
        0 <= b <= c,
    ensures
        0 <= pow(b, e) <= pow(c, e),
    decreases e,
{
    if e > 0 {
        lemma_pow_mono(b, c, (e - 1) as nat);
        let x = pow(b, (e - 1) as nat);
        let y = pow(c, (e - 1) as nat);
        assert(b * x <= c * y) by (nonlinear_arith)
            requires
                0 <= b <= c,
                0 <= x <= y,
        ;
        assert(0 <= b * x) by (nonlinear_arith)
            requires
                0 <= b,
                0 <= x,
        ;
    }
}

proof fn lemma_first_reaching_range(level: int, d: int)
    requires
        0 <= d <= 450,
    ensures
        d <= first_reaching(level, d) <= 450,
    decreases 450 - d,
{
    if d < 450 && !reaches(level, d) {
        lemma_first_reaching_range(level, d + 1);
    }
}

proof fn lemma_first_reaching_mono(l1: int, l2: int, d: int)
    requires
        0 <= l1 <= l2,
        0 <= d <= 450,
    ensures
        first_reaching(l1, d) <= first_reaching(l2, d),
    decreases 450 - d,
{
    if d < 450 {
        lemma_pow_mono(l1, l2, 7);
        let k = pow(450, 10);
        lemma_pow_mono(0, 450, 10);
        let pow_lo = pow(l1, 7);
        let pow_hi = pow(l2, 7);
        assert(k * pow_lo <= k * pow_hi) by (nonlinear_arith)
            requires
                0 <= k,
                pow_lo <= pow_hi,
        ;
        if reaches(l2, d) {
            assert(reaches(l1, d));
        } else {
            lemma_first_reaching_mono(l1, l2, d + 1);
            if reaches(l1, d) {
                lemma_first_reaching_range(l2, d + 1);
            }
        }
    }
}

/// The fall interval never grows as the level rises, stays at 600 up to
/// level 0 and at 150 from level 10 on.
pub proof fn lemma_fall_interval_monotone(l1: int, l2: int)
    requires
        l1 <= l2,
    ensures
        fall_interval(l2) <= fall_interval(l1),
        l2 <= 0 ==> fall_interval(l2) == 600,
        l1 >= 10 ==> fall_interval(l1) == 150,
        150 <= fall_interval(l2) <= 600,
{
    if 0 < l1 && l2 < 10 {
        lemma_first_reaching_mono(l1, l2, 0);
    }
    if 0 < l1 && l1 < 10 {
        lemma_first_reaching_range(l1, 0);
    }
    if 0 < l2 && l2 < 10 {
        lemma_first_reaching_range(l2, 0);
    }
}

fn pow_u128(b: u128, e: u32) -> (r: u128)
    requires
        b <= 450,
        e <= 10,
    ensures
        r == pow(b as int, e as nat),
{
    let mut acc: u128 = 1;
    let mut i: u32 = 0;
    proof {
        reveal_with_fuel(pow, 11);
        assert(pow(450, 10) == 340506289160156250000000000);
    }
    while i < e
        invariant
            i <= e <= 10,
            b <= 450,
            acc == pow(b as int, i as nat),
            pow(450, 10) == 340506289160156250000000000,
        decreases e - i,
    {
        proof {
            lemma_pow_mono(b as int, 450, (i + 1) as nat);
            lemma_pow_mono(450, 450, (i + 1) as nat);
            lemma_pow_step(450, (i + 1) as nat, 10);
            assert(pow(b as int, (i + 1) as nat) == b * pow(b as int, i as nat));
        }
        acc = acc * b;
        i += 1;
    }
    acc
}

proof fn lemma_pow_step(b: int, e: nat, f: nat)
    requires
        1 <= b,
        e <= f,
    ensures
        pow(b, e) <= pow(b, f),
        pow(b, e) >= 1,
    decreases f,
{
    if f > e {
        lemma_pow_step(b, e, (f - 1) as nat);
        let x = pow(b, (f - 1) as nat);
        assert(x <= b * x) by (nonlinear_arith)
            requires
                1 <= b,
                1 <= x,
        ;
    } else if e > 0 {
        lemma_pow_step(b, (e - 1) as nat, (e - 1) as nat);
        let x = pow(b, (e - 1) as nat);
        assert(b * x >= 1) by (nonlinear_arith)
            requires
                1 <= b,
                1 <= x,
        ;
    }
}

/// The fall interval in milliseconds at `level`.
pub fn duration_from_level(level: u32) -> (r: u64)
    ensures
        r == fall_interval(level as int),
{
    if level >= 10 {
        return 150;
    }
    if level == 0 {
        return 600;
    }
    let level_pow = pow_u128(level as u128, 7);
    proof {
        reveal_with_fuel(pow, 11);
        assert(pow(10, 7) == 10000000);
        assert(pow(450, 10) == 340506289160156250000000000);
        lemma_pow_mono(level as int, 9, 7);
        assert(pow(9, 7) == 4782969);
    }
    let target: u128 = 340506289160156250000000000u128 * level_pow;
    let mut d: u128 = 0;
    while d < 450
        invariant
            d <= 450,
            1 <= level < 10,
            target == pow(450, 10) * pow(level as int, 7),
            pow(10, 7) == 10000000,
            pow(450, 10) == 340506289160156250000000000,
            first_reaching(level as int, 0) == first_reaching(level as int, d as int),
        decreases 450 - d,
    {
        let d_pow = pow_u128(d, 10);
        proof {
            lemma_pow_mono(d as int, 450, 10);
        }
        if d_pow * 10000000 >= target {
            return (600 - d) as u64;
        }
        d += 1;
    }
    150
}

/// A deadline: `duration` milliseconds from `start`.
pub struct Timeout {
    pub start: u64,
    pub duration: u64,
}

impl Timeout {
    /// Milliseconds gone since the start at time `now`; none before it.
    pub open spec fn elapsed(self, now: int) -> int {
        if now >= self.start {
            now - self.start
        } else {
            0
        }
    }

    /// A deadline `duration` milliseconds after `now`.
    pub fn new(duration: u64, now: u64) -> (r: Timeout)
        ensures
            r.start == now,
            r.duration == duration,
    {
        Timeout { start: now, duration }
    }

    /// Milliseconds left at time `now`, zero once the deadline has passed.
    pub fn remaining(&self, now: u64) -> (r: u64)
        ensures
            r == if self.elapsed(now as int) > self.duration {
                0
            } else {
                self.duration - self.elapsed(now as int)
            },
    {
        if self.expired(now) {
            0
        } else {
            let e: u64 = if now >= self.start {
                now - self.start
            } else {
                0
            };
            self.duration - e
        }
    }

    /// Tells whether more than the duration has gone by at time `now`.
    pub fn expired(&self, now: u64) -> (r: bool)
        ensures
            r == (self.elapsed(now as int) > self.duration),
    {
        let e: u64 = if now >= self.start {
            now - self.start
        } else {
            0
        };
        e > self.duration
    }
}

} // verus!
