use vstd::prelude::*;

verus! {

/// How often to try an operation, and how long to wait before the first retry.
#[derive(Debug, Clone, Copy)]
pub struct RetryConfig {
    max_retries: u32,
    initial_delay_ms: u64,
}

/// What to do after a failed attempt.
#[derive(Debug, Clone, Copy, PartialEq, Eq)]
pub enum RetryStep {
    /// Wait this many milliseconds, then try again.
    Wait(u64),
    /// Give up and return the last error.
    GiveUp,
}

/// 2 to the power `k`.
pub open spec fn pow2(k: nat) -> nat
    decreases k,
{
    if k == 0 {
        1
    } else {
        2 * pow2((k - 1) as nat)
    }
}

/// The wait before retry number `k`: `initial * 2^k` milliseconds, capped at
/// the largest `u64`.
pub open spec fn backoff(initial: nat, k: nat) -> nat {
    if initial * pow2(k) <= u64::MAX {
        initial * pow2(k)
    } else {
        u64::MAX as nat
    }
}

/// The waits before retries 1 to `k`, added up.
pub open spec fn total_backoff(initial: nat, k: nat) -> nat
    decreases k,
{
    if k == 0 {
        0
    } else {
        total_backoff(initial, (k - 1) as nat) + backoff(initial, k)
    }
}

impl RetryConfig {
    pub closed spec fn max_retries_spec(&self) -> nat {
        self.max_retries as nat
    }

    pub closed spec fn initial_delay_spec(&self) -> nat {
        self.initial_delay_ms as nat
    }

    /// What follows failed attempt number `attempts`.
    pub open spec fn step_after(&self, attempts: nat) -> RetryStep {
        if attempts < self.max_retries_spec() {
            RetryStep::Wait(backoff(self.initial_delay_spec(), attempts) as u64)
        } else {
            RetryStep::GiveUp
        }
    }

    /// Up to `max_retries` attempts (at least one), the first retry after
    /// `initial_delay_ms` doubled.
    pub fn new(max_retries: u32, initial_delay_ms: u64) -> (r: Self)
        requires
            max_retries > 0,
        ensures
            r.max_retries_spec() == max_retries,
            r.initial_delay_spec() == initial_delay_ms,
    {
        RetryConfig { max_retries, initial_delay_ms }
    }

    pub fn max_retries(&self) -> (r: u32)
        ensures
            r == self.max_retries_spec(),
    {
        self.max_retries
    }

    pub fn initial_delay_ms(&self) -> (r: u64)
        ensures
            r == self.initial_delay_spec(),
    {
        self.initial_delay_ms
    }

    /// After failed attempt number `attempts` (counting from 1): wait
    /// `initial_delay * 2^attempts` and try again while attempts remain,
    /// else give up.
    pub fn after_failure(&self, attempts: u32) -> (r: RetryStep)
        ensures
            r == self.step_after(attempts as nat),
    {
        if attempts >= self.max_retries {
            return RetryStep::GiveUp;
        }
        let mut delay: u64 = self.initial_delay_ms;
        let mut k: u32 = 0;
        proof {
            assert(pow2(0) == 1);
            assert(self.initial_delay_ms as nat * 1 == self.initial_delay_ms as nat);
        }
        while k < attempts
            invariant
                k <= attempts,
                delay == backoff(self.initial_delay_ms as nat, k as nat),
            decreases attempts - k,
        {
            proof {
                lemma_backoff_step(self.initial_delay_ms as nat, k as nat);
            }
            delay = if delay > u64::MAX / 2 { u64::MAX } else { delay * 2 };
            k = k + 1;
        }
        RetryStep::Wait(delay)
    }
}

impl Default for RetryConfig {
    /// Three attempts, the first retry after two seconds.
    fn default() -> (r: Self)
        ensures
            r.max_retries_spec() == 3,
            r.initial_delay_spec() == 1000,
    {
        RetryConfig { max_retries: 3, initial_delay_ms: 1000 }
    }
}

proof fn lemma_pow2_positive(k: nat)
    ensures
        pow2(k) >= 1,
    decreases k,
{
    if k > 0 {
        lemma_pow2_positive((k - 1) as nat);
    }
}

proof fn lemma_backoff_step(d: nat, k: nat)
    ensures
        backoff(d, k + 1) == if backoff(d, k) > u64::MAX / 2 {
            u64::MAX as nat
        } else {
            backoff(d, k) * 2
        },
{
    assert(pow2(k + 1) == 2 * pow2(k));
    assert(d * pow2(k + 1) == 2 * (d * pow2(k))) by (nonlinear_arith)
        requires pow2(k + 1) == 2 * pow2(k);
}

/// An operation that always fails is tried exactly `max_retries` times:
/// every earlier failure leads to a wait, and failure number `max_retries`
/// to giving up.
pub proof fn lemma_attempts_bounded(c: RetryConfig, attempts: nat)
    requires
        attempts >= 1,
    ensures
        attempts < c.max_retries_spec() ==> c.step_after(attempts) is Wait,
        attempts == c.max_retries_spec() ==> c.step_after(attempts) is GiveUp,
{
}

/// An operation that fails `k` times and then succeeds succeeds under a
/// configuration of `k + 1` attempts, after waits that add up to
/// `initial * (2^1 + ... + 2^k)` where that fits in a `u64`.
pub proof fn lemma_success_after_failures(c: RetryConfig, k: nat, j: nat)
    requires
        c.max_retries_spec() == k + 1,
        1 <= j <= k,
        c.initial_delay_spec() * pow2(k) <= u64::MAX,
    ensures
        c.step_after(j) == RetryStep::Wait((c.initial_delay_spec() * pow2(j)) as u64),
        total_backoff(c.initial_delay_spec(), k) == c.initial_delay_spec() * (pow2(k + 1) - 2),
{
    lemma_pow2_monotone(j, k);
    let d = c.initial_delay_spec();
    assert(d * pow2(j) <= d * pow2(k)) by (nonlinear_arith)
        requires pow2(j) <= pow2(k);
    lemma_total_backoff(d, k);
}

proof fn lemma_pow2_monotone(a: nat, b: nat)
    requires
        a <= b,
    ensures
        pow2(a) <= pow2(b),
    decreases b - a,
{
    if a < b {
        lemma_pow2_monotone(a, (b - 1) as nat);
        lemma_pow2_positive((b - 1) as nat);
    }
}

proof fn lemma_total_backoff(d: nat, k: nat)
    requires
        d * pow2(k) <= u64::MAX,
    ensures
        total_backoff(d, k) == d * (pow2(k + 1) - 2),
    decreases k,
{
    lemma_pow2_positive(k);
    assert(pow2(0) == 1);
    assert(pow2(1) == 2 * pow2(0));
    if k > 0 {
        let k1 = (k - 1) as nat;
        lemma_pow2_monotone(k1, k);
        assert(d * pow2(k1) <= d * pow2(k)) by (nonlinear_arith)
            requires pow2(k1) <= pow2(k);
        lemma_total_backoff(d, k1);
        assert(pow2(k + 1) == 2 * pow2(k));
        assert(d * (pow2(k1 + 1) - 2) + d * pow2(k) == d * (pow2(k + 1) - 2)) by (nonlinear_arith)
            requires pow2(k + 1) == 2 * pow2(k), k1 + 1 == k, pow2(k) >= 1;
        assert(backoff(d, k) == d * pow2(k));
        assert(total_backoff(d, k) == total_backoff(d, k1) + backoff(d, k));
    } else {
        assert(total_backoff(d, 0) == 0);
        assert(d * (pow2(1) - 2) == 0) by (nonlinear_arith)
            requires pow2(1) == 2;
    }
}

} // verus!
