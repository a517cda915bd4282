//! The retry policy: how long to wait before a failed device is tried again,
//! and after how many failures it is given up as degraded.

use vstd::prelude::*;

verus! {

/// How failures are retried.
#[derive(Debug, Clone, Copy, PartialEq, Eq, Structural)]
pub struct RetryPolicy {
    /// The delay after the first failure, in milliseconds.
    pub base_delay_ms: u64,
    /// The longest delay, in milliseconds.
    pub max_delay_ms: u64,
    /// The number of consecutive failures from which a device counts as
    /// degraded and is no longer retried by itself.
    pub max_failures: u32,
}

/// The retry policy of a manager that was given none: delays from 100 ms up
/// to 30 s, and five consecutive failures before a device counts as degraded.
pub open spec fn default_policy() -> RetryPolicy {
    RetryPolicy { base_delay_ms: 100, max_delay_ms: 30_000, max_failures: 5 }
}

/// Two to the power of `n`.
pub open spec fn pow2(n: nat) -> nat
    decreases n,
{
    if n == 0 {
        1
    } else {
        2 * pow2((n - 1) as nat)
    }
}

/// The delay before the retry that follows the `failures`-th consecutive
/// failure: the base delay, doubled with each further failure, and never
/// more than the longest delay.
pub open spec fn backoff_delay(policy: RetryPolicy, failures: nat) -> nat {
    if failures == 0 {
        0
    } else if policy.base_delay_ms * pow2((failures - 1) as nat) <= policy.max_delay_ms {
        (policy.base_delay_ms * pow2((failures - 1) as nat)) as nat
    } else {
        policy.max_delay_ms as nat
    }
}

/// Powers of two are positive and grow.
pub proof fn lemma_pow2_grows(a: nat, b: nat)
    requires
        a <= b,
    ensures
        1 <= pow2(a) <= pow2(b),
    decreases b,
{
    if b == 0 {
    } else if a == b {
        lemma_pow2_grows((a - 1) as nat, (b - 1) as nat);
    } else {
        lemma_pow2_grows(a, (b - 1) as nat);
    }
}

/// The delay never exceeds the longest delay and never shrinks as failures
/// accumulate.
pub proof fn lemma_backoff_bounded_and_monotone(policy: RetryPolicy, a: nat, b: nat)
    requires
        a <= b,
    ensures
        backoff_delay(policy, a) <= backoff_delay(policy, b) <= policy.max_delay_ms,
{
    if a > 0 {
        lemma_pow2_grows((a - 1) as nat, (b - 1) as nat);
        assert(policy.base_delay_ms * pow2((a - 1) as nat) <= policy.base_delay_ms * pow2(
            (b - 1) as nat,
        )) by (nonlinear_arith)
            requires
                pow2((a - 1) as nat) <= pow2((b - 1) as nat),
        ;
    }
}

impl RetryPolicy {
    /// Computes the delay before the retry that follows the `failures`-th
    /// consecutive failure.
    pub fn delay_after(&self, failures: u32) -> (delay: u64)
        ensures
            delay == backoff_delay(*self, failures as nat),
    {
        if failures == 0 {
            return 0;
        }
        if self.base_delay_ms > self.max_delay_ms {
            assert(self.base_delay_ms * pow2((failures - 1) as nat) >= self.base_delay_ms) by {
                lemma_pow2_grows(0, (failures - 1) as nat);
                assert(self.base_delay_ms * pow2((failures - 1) as nat) >= self.base_delay_ms * 1)
                    by (nonlinear_arith)
                    requires
                        pow2((failures - 1) as nat) >= 1,
                ;
            }
            return self.max_delay_ms;
        }
        if self.base_delay_ms == 0 {
            assert(self.base_delay_ms * pow2((failures - 1) as nat) == 0) by (nonlinear_arith)
                requires
                    self.base_delay_ms == 0,
            ;
            return 0;
        }
        let mut delay: u64 = self.base_delay_ms;
        let mut k: u32 = 1;
        let mut capped: bool = false;
        while k < failures && !capped
            invariant
                1 <= k <= failures,
                0 < self.base_delay_ms <= self.max_delay_ms,
                !capped ==> delay == self.base_delay_ms * pow2((k - 1) as nat) && delay
                    <= self.max_delay_ms,
                capped ==> delay == self.max_delay_ms && self.base_delay_ms * pow2((k - 1) as nat)
                    > self.max_delay_ms,
            decreases failures - k, if capped { 0int } else { 1int },
        {
            assert(self.base_delay_ms * pow2(k as nat) == 2 * (self.base_delay_ms * pow2(
                (k - 1) as nat,
            ))) by (nonlinear_arith)
                requires
                    pow2(k as nat) == 2 * pow2((k - 1) as nat),
            ;
            if delay > self.max_delay_ms / 2 {
                delay = self.max_delay_ms;
                capped = true;
            } else {
                delay = delay * 2;
            }
            k += 1;
        }
        proof {
            if capped {
                lemma_pow2_grows((k - 1) as nat, (failures - 1) as nat);
                assert(self.base_delay_ms * pow2((k - 1) as nat) <= self.base_delay_ms * pow2(
                    (failures - 1) as nat,
                )) by (nonlinear_arith)
                    requires
                        pow2((k - 1) as nat) <= pow2((failures - 1) as nat),
                ;
            }
        }
        delay
    }
}

} // verus!
