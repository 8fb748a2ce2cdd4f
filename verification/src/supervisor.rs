//! whisper-server supervision policy: how long to wait before each restart after the
//! child dies — exponential backoff with a cap.

use vstd::prelude::*;
use crate::time::Duration;

verus! {

/// Whether to give up retrying an unreachable whisper-server: the retry window has
/// passed since the first attempt, or the daemon is shutting down.
pub fn give_up_retrying(since_first_attempt: Duration, retry_window: Duration, shutting_down: bool) -> (b: bool)
    ensures
        b == (since_first_attempt@ >= retry_window@ || shutting_down),
{
    retry_window.at_most(&since_first_attempt) || shutting_down
}

/// Exponential restart backoff, capped at `max`.
#[derive(Debug, Clone, Copy, PartialEq, Eq, Structural)]
pub struct Backoff {
    base: Duration,
    max: Duration,
}

/// `2^k`.
pub open spec fn pow2(k: nat) -> nat
    decreases k,
{
    if k == 0 {
        1
    } else {
        2 * pow2((k - 1) as nat)
    }
}

/// The doubling factor after `failures` consecutive failures: `2^(failures-1)`, or
/// `u64::MAX` once that no longer fits.
pub open spec fn backoff_factor(failures: nat) -> nat {
    if failures - 1 < 64 {
        pow2((failures - 1) as nat)
    } else {
        u64::MAX as nat
    }
}

/// The delay, in nanoseconds, after `failures` consecutive failures: zero for none,
/// else `base` (in whole milliseconds, saturating) times the doubling factor,
/// saturating, capped at `max`.
pub open spec fn backoff_delay(base: nat, max: nat, failures: nat) -> nat {
    if failures == 0 {
        0
    } else {
        let base_ms = if base / 1_000_000 <= u64::MAX { base / 1_000_000 } else { u64::MAX as nat };
        let prod = base_ms * backoff_factor(failures);
        let ms = if prod <= u64::MAX { prod } else { u64::MAX as nat };
        let d = ms * 1_000_000;
        if d <= max { d } else { max }
    }
}

proof fn lemma_pow2_bound(k: nat)
    requires
        k < 64,
    ensures
        pow2(k) <= 0x8000_0000_0000_0000,
        pow2(k) >= 1,
{
    lemma_pow2_monotone(k, 63);
    lemma_pow2_monotone(0, k);
    reveal_with_fuel(pow2, 64);
}

proof fn lemma_pow2_monotone(a: nat, b: nat)
    requires
        a <= b,
    ensures
        pow2(a) <= pow2(b),
    decreases b,
{
    if a < b {
        lemma_pow2_monotone(a, (b - 1) as nat);
    }
}

proof fn lemma_pow2_62()
    ensures
        pow2(62) == 0x4000_0000_0000_0000,
{
    reveal_with_fuel(pow2, 63);
}

impl Backoff {
    /// A backoff starting at `base` and capped at `max`.
    pub fn new(base: Duration, max: Duration) -> (b: Backoff)
        ensures
            b.base() == base,
            b.max() == max,
    {
        Backoff { base, max }
    }

    /// The first-failure delay.
    pub closed spec fn base(self) -> Duration {
        self.base
    }

    /// The cap.
    pub closed spec fn max(self) -> Duration {
        self.max
    }

    /// Delay before the next restart given the number of consecutive failures so far
    /// (0 → no delay; 1 → `base`; 2 → `2*base`; … capped at `max`).
    pub fn delay(&self, consecutive_failures: u32) -> (d: Duration)
        ensures
            d@ == backoff_delay(self.base()@, self.max()@, consecutive_failures as nat),
    {
        if consecutive_failures == 0 {
            return Duration::zero();
        }
        let shift = consecutive_failures - 1;
        let factor: u64 = if shift < 64 {
            let mut f: u64 = 1;
            let mut k: u32 = 0;
            while k < shift
                invariant
                    k <= shift < 64,
                    f == pow2(k as nat),
                decreases shift - k,
            {
                proof {
                    lemma_pow2_monotone(k as nat, 62);
                    lemma_pow2_62();
                }
                f = f * 2;
                k += 1;
            }
            f
        } else {
            u64::MAX
        };
        let ms = self.base.as_millis();
        let base_ms: u64 = if ms <= u64::MAX as u128 { ms as u64 } else { u64::MAX };
        let prod: u64 = match base_ms.checked_mul(factor) {
            Some(v) => v,
            None => u64::MAX,
        };
        Duration::from_millis(prod).min(self.max)
    }
}

/// The backoff never exceeds its cap.
pub proof fn lemma_backoff_capped(base: nat, max: nat, failures: nat)
    ensures
        backoff_delay(base, max, failures) <= max,
{
}

/// One more consecutive failure never shortens the backoff.
pub proof fn lemma_backoff_monotone(base: nat, max: nat, failures: nat)
    ensures
        backoff_delay(base, max, failures) <= backoff_delay(base, max, failures + 1),
{
    if failures > 0 {
        let f1 = backoff_factor(failures);
        let f2 = backoff_factor(failures + 1);
        assert(f1 <= f2) by {
            if failures < 64 {
                lemma_pow2_monotone((failures - 1) as nat, failures);
                if failures == 64 {
                }
            } else if failures == 64 {
                lemma_pow2_bound(63);
            }
        }
        let base_ms = if base / 1_000_000 <= u64::MAX {
            base / 1_000_000
        } else {
            u64::MAX as nat
        };
        assert(base_ms * f1 <= base_ms * f2) by (nonlinear_arith)
            requires
                f1 <= f2,
        ;
    }
}

} // verus!
