//! How long to wait before a failed watch is tried again.

use vstd::prelude::*;

verus! {

/// The wait after the first failure, in milliseconds.
pub const INITIAL_DELAY_MS: u64 = 1000;

/// The longest wait, in milliseconds.
pub const MAX_DELAY_MS: u64 = 30000;

/// The share of a wait, in percent, by which jitter may shorten or lengthen
/// it.
pub const JITTER_PERCENT: u64 = 20;

/// Two to the power of `n`.
pub open spec fn pow2(n: nat) -> nat
    decreases n,
{
    if n == 0 {
        1
    } else {
        2 * pow2((n - 1) as nat)
    }
}

/// The wait after `failures` failures in a row, the first of which counts as
/// none: it starts at `INITIAL_DELAY_MS`, doubles with every further failure,
/// and stops growing at `MAX_DELAY_MS`.
pub open spec fn delay_after(failures: nat) -> int {
    if INITIAL_DELAY_MS * pow2(failures) < MAX_DELAY_MS {
        INITIAL_DELAY_MS * pow2(failures)
    } else {
        MAX_DELAY_MS as int
    }
}

/// A wait with jitter: `roll` picks, evenly from 0 to 255, a place between
/// `JITTER_PERCENT` percent less and `JITTER_PERCENT` percent more.
pub open spec fn jittered(delay_ms: int, roll: u8) -> int {
    (delay_ms * (100 - JITTER_PERCENT) + delay_ms * 2 * JITTER_PERCENT * roll / 255) / 100
}

/// Powers of two grow.
pub proof fn lemma_pow2_grows(a: nat, b: nat)
    requires
        a <= b,
    ensures
        1 <= pow2(a) <= pow2(b),
    decreases b,
{
    if b > a {
        lemma_pow2_grows(a, (b - 1) as nat);
    } else if a > 0 {
        lemma_pow2_grows((a - 1) as nat, (a - 1) as nat);
    }
}

/// The wait never shrinks as failures add up, and stays between the initial
/// and the longest wait.
pub proof fn lemma_delay_grows(a: nat, b: nat)
    requires
        a <= b,
    ensures
        INITIAL_DELAY_MS <= delay_after(a) <= delay_after(b) <= MAX_DELAY_MS,
{
    lemma_pow2_grows(a, b);
    lemma_pow2_grows(0, a);
    assert(INITIAL_DELAY_MS * pow2(a) <= INITIAL_DELAY_MS * pow2(b)) by (nonlinear_arith)
        requires
            pow2(a) <= pow2(b),
    ;
    assert(INITIAL_DELAY_MS <= INITIAL_DELAY_MS * pow2(a)) by (nonlinear_arith)
        requires
            1 <= pow2(a),
    ;
}

/// Jitter keeps a wait within a fifth of itself.
pub proof fn lemma_jitter_bounds(delay_ms: int, roll: u8)
    requires
        0 <= delay_ms,
    ensures
        delay_ms * 80 / 100 <= jittered(delay_ms, roll) <= delay_ms * 120 / 100,
{
    let product = delay_ms * 2 * JITTER_PERCENT * roll;
    let spread = product / 255;
    assert(0 <= product <= delay_ms * 40 * 255) by (nonlinear_arith)
        requires
            product == delay_ms * 2 * 20 * roll,
            0 <= delay_ms,
            0 <= roll <= 255,
    ;
    assert(0 <= spread <= delay_ms * 40) by {
        assert((delay_ms * 40 * 255) / 255 == delay_ms * 40) by (nonlinear_arith);
        vstd::arithmetic::div_mod::lemma_div_is_ordered(product, delay_ms * 40 * 255, 255);
        vstd::arithmetic::div_mod::lemma_div_pos_is_pos(product, 255);
    }
    assert(delay_ms * (100 - JITTER_PERCENT) == delay_ms * 80);
    vstd::arithmetic::div_mod::lemma_div_is_ordered(delay_ms * 80, delay_ms * 80 + spread, 100);
    vstd::arithmetic::div_mod::lemma_div_is_ordered(delay_ms * 80 + spread, delay_ms * 120, 100);
}

/// The wait before the next attempt of a watch that failed `failures` times
/// in a row before.
pub fn delay_ms(failures: u32) -> (r: u64)
    ensures
        r == delay_after(failures as nat),
        INITIAL_DELAY_MS <= r <= MAX_DELAY_MS,
{
    let mut delay: u64 = INITIAL_DELAY_MS;
    let mut i: u32 = 0;
    while i < failures && delay < MAX_DELAY_MS
        invariant
            i <= failures,
            delay == INITIAL_DELAY_MS * pow2(i as nat),
            delay < 2 * MAX_DELAY_MS,
        decreases failures - i,
    {
        delay = delay * 2;
        i = i + 1;
    }
    proof {
        lemma_pow2_grows(i as nat, failures as nat);
        lemma_pow2_grows(0, i as nat);
        assert(INITIAL_DELAY_MS * pow2(i as nat) <= INITIAL_DELAY_MS * pow2(failures as nat))
            by (nonlinear_arith)
            requires
                pow2(i as nat) <= pow2(failures as nat),
        ;
        assert(INITIAL_DELAY_MS <= INITIAL_DELAY_MS * pow2(i as nat)) by (nonlinear_arith)
            requires
                1 <= pow2(i as nat),
        ;
    }
    if delay < MAX_DELAY_MS {
        delay
    } else {
        MAX_DELAY_MS
    }
}

/// A wait with jitter; `roll` is a number drawn by the caller.
fn with_jitter(delay_ms: u64, roll: u8) -> (r: u64)
    requires
        delay_ms <= MAX_DELAY_MS,
    ensures
        r == jittered(delay_ms as int, roll),
        delay_ms * 80 / 100 <= r <= delay_ms * 120 / 100,
{
    proof {
        lemma_jitter_bounds(delay_ms as int, roll);
        assert(delay_ms * 2 * JITTER_PERCENT * roll <= 30000 * 40 * 255) by (nonlinear_arith)
            requires
                delay_ms <= 30000,
                roll <= 255,
                JITTER_PERCENT == 20,
        ;
    }
    (delay_ms * (100 - JITTER_PERCENT) + delay_ms * 2 * JITTER_PERCENT * (roll as u64) / 255) / 100
}

/// The wait, with jitter, before the next attempt of a watch that failed
/// `failures` times in a row before.
pub fn next_delay_ms(failures: u32, roll: u8) -> (r: u64)
    ensures
        r == jittered(delay_after(failures as nat), roll),
        INITIAL_DELAY_MS * 80 / 100 <= r <= MAX_DELAY_MS * 120 / 100,
{
    let base = delay_ms(failures);
    with_jitter(base, roll)
}

/// What to do after a failure of a watch.
#[derive(Clone, Copy, Debug, PartialEq, Eq, Structural)]
pub struct RetryStep {
    /// How long to wait before the watch is tried again, in milliseconds.
    pub delay_ms: u64,
    /// Whether the failure gets a diagnostic: the first of a run of failures
    /// does, the ones after it do not.
    pub report: bool,
}

/// How a watch is tried again: it counts the failures in a row.
#[derive(Debug)]
pub struct WatchRetry {
    failures: u32,
}

impl WatchRetry {
    /// The failures in a row so far, as far as they are counted.
    pub closed spec fn failures(&self) -> u32 {
        self.failures
    }

    /// One failure more; the count stops at its greatest value.
    pub open spec fn one_more(failures: u32) -> u32 {
        if failures < u32::MAX {
            (failures + 1) as u32
        } else {
            failures
        }
    }

    /// A watch that has not failed.
    pub fn new() -> (r: WatchRetry)
        ensures
            r.failures() == 0,
    {
        WatchRetry { failures: 0 }
    }

    /// Takes note that the watch delivered an event: the run of failures, if
    /// there was one, is over.
    pub fn on_event(&mut self)
        ensures
            final(self).failures() == 0,
    {
        self.failures = 0;
    }

    /// Takes note of a failure and says what to do; `roll` is a number drawn by
    /// the caller, to spread the waits. The wait grows with the failures in
    /// a row, and only the first failure of a run is reported.
    pub fn on_failure(&mut self, roll: u8) -> (r: RetryStep)
        ensures
            r.delay_ms == jittered(delay_after(old(self).failures() as nat), roll),
            r.report == (old(self).failures() == 0),
            final(self).failures() == Self::one_more(old(self).failures()),
    {
        let step = RetryStep {
            delay_ms: next_delay_ms(self.failures, roll),
            report: self.failures == 0,
        };
        if self.failures < u32::MAX {
            self.failures = self.failures + 1;
        }
        step
    }
}

} // verus!
