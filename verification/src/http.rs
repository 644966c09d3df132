//! Retrying of requests: which outcomes are worth another attempt, how many
//! attempts there are, and how long to wait between them.
use vstd::arithmetic::power2::{lemma_pow2_strictly_increases, lemma_pow2_unfold, pow2};
use vstd::prelude::*;

verus! {

/// Which statuses are retried.
#[derive(Clone, Copy, PartialEq, Eq, Structural, Debug)]
pub enum Retryable {
    /// Rate limits and the common transient server statuses.
    Standard,
    /// Any server error.
    ServerErrors,
}

/// How a family of requests is retried.
#[derive(Clone, Copy, PartialEq, Eq, Structural, Debug)]
pub struct RetryPolicy {
    pub max_retries: usize,
    pub base_delay_ms: u64,
    pub retryable: Retryable,
}

/// The standard retryable statuses.
pub open spec fn standard_status(status: u16) -> bool {
    status == 429 || status == 500 || status == 502 || status == 503 || status == 529
}

/// The retryable statuses of hosted APIs: rate limiting and the transient
/// server statuses, "overloaded" among them.
pub fn is_retryable_standard(status: u16) -> (r: bool)
    ensures
        r == standard_status(status),
{
    status == 429 || status == 500 || status == 502 || status == 503 || status == 529
}

/// Any 5xx status.
pub fn is_server_error(status: u16) -> (r: bool)
    ensures
        r == (500 <= status <= 599),
{
    500 <= status && status <= 599
}

/// The wait before attempt `attempt + 1`: the base delay doubled `attempt`
/// times.
pub open spec fn delay_of(policy: RetryPolicy, attempt: int) -> int {
    policy.base_delay_ms * pow2(attempt as nat)
}

/// What an attempt came to.
#[derive(Clone, Copy, PartialEq, Eq, Structural, Debug)]
pub enum Attempt {
    /// A response of this status.
    Status(u16),
    /// No response.
    NoResponse,
}

/// What follows an attempt.
#[derive(Clone, Copy, PartialEq, Eq, Structural, Debug)]
pub enum RetryStep {
    /// Wait this long and try again.
    Retry { delay_ms: u64 },
    /// Hand the response over, whatever its status.
    Return,
    /// Give up.
    Fail,
}

impl RetryPolicy {
    /// Whether a status is retried.
    pub open spec fn retries_spec(self, status: u16) -> bool {
        match self.retryable {
            Retryable::Standard => standard_status(status),
            Retryable::ServerErrors => 500 <= status <= 599,
        }
    }

    /// Retries on rate limits and the common transient server statuses.
    pub fn standard(max_retries: usize, base_delay_ms: u64) -> (r: RetryPolicy)
        ensures
            r == (RetryPolicy { max_retries, base_delay_ms, retryable: Retryable::Standard }),
    {
        RetryPolicy { max_retries, base_delay_ms, retryable: Retryable::Standard }
    }

    /// Retries on any 5xx status; client errors are final.
    pub fn server_errors(max_retries: usize, base_delay_ms: u64) -> (r: RetryPolicy)
        ensures
            r == (RetryPolicy { max_retries, base_delay_ms, retryable: Retryable::ServerErrors }),
    {
        RetryPolicy { max_retries, base_delay_ms, retryable: Retryable::ServerErrors }
    }

    /// Whether a status is retried.
    pub fn retries(&self, status: u16) -> (r: bool)
        ensures
            r == self.retries_spec(status),
    {
        match self.retryable {
            Retryable::Standard => is_retryable_standard(status),
            Retryable::ServerErrors => is_server_error(status),
        }
    }
}

/// Exponential backoff in milliseconds.
pub fn backoff(policy: &RetryPolicy, attempt: usize) -> (r: u64)
    requires
        attempt < 64,
        delay_of(*policy, attempt as int) <= u64::MAX,
    ensures
        r == delay_of(*policy, attempt as int),
{
    let mut d: u64 = policy.base_delay_ms;
    let mut i: usize = 0;
    proof {
        vstd::arithmetic::power2::lemma2_to64();
        assert(policy.base_delay_ms * pow2(0) == policy.base_delay_ms) by (nonlinear_arith)
            requires
                pow2(0) == 1,
        ;
    }
    while i < attempt
        invariant
            i <= attempt,
            d == delay_of(*policy, i as int),
            delay_of(*policy, attempt as int) <= u64::MAX,
        decreases attempt - i,
    {
        proof {
            lemma_pow2_unfold((i + 1) as nat);
            let b = policy.base_delay_ms as int;
            let p = pow2(i as nat) as int;
            let q = pow2((i + 1) as nat) as int;
            assert(b * q == 2 * (b * p)) by (nonlinear_arith)
                requires
                    q == 2 * p,
            ;
            lemma_delay_grows(*policy, i + 1, attempt as int);
        }
        d = d * 2;
        i += 1;
    }
    d
}

proof fn lemma_delay_grows(policy: RetryPolicy, a: int, b: int)
    requires
        0 <= a <= b,
    ensures
        delay_of(policy, a) <= delay_of(policy, b),
{
    if a < b {
        lemma_pow2_strictly_increases(a as nat, b as nat);
    }
    let base = policy.base_delay_ms as int;
    let p = pow2(a as nat) as int;
    let q = pow2(b as nat) as int;
    assert(base * p <= base * q) by (nonlinear_arith)
        requires
            0 <= base,
            p <= q,
    ;
}

/// What follows the attempt number `attempt`, counted from zero: another one
/// while there are retries left and the outcome is worth it, else the response,
/// else the failure.
pub open spec fn step_after(policy: RetryPolicy, attempt: int, outcome: Attempt) -> RetryStep {
    let left = attempt < policy.max_retries;
    let delay_ms = delay_of(policy, attempt) as u64;
    match outcome {
        Attempt::Status(status) => if left && policy.retries_spec(status) {
            RetryStep::Retry { delay_ms }
        } else {
            RetryStep::Return
        },
        Attempt::NoResponse => if left {
            RetryStep::Retry { delay_ms }
        } else {
            RetryStep::Fail
        },
    }
}

/// Decides what follows an attempt. Where that is a wait, a `u64` of milliseconds
/// must hold it.
pub fn next_step(policy: &RetryPolicy, attempt: usize, outcome: Attempt) -> (r: RetryStep)
    requires
        step_after(*policy, attempt as int, outcome) is Retry ==> attempt < 64 && delay_of(
            *policy,
            attempt as int,
        ) <= u64::MAX,
    ensures
        r == step_after(*policy, attempt as int, outcome),
{
    if attempt < policy.max_retries {
        let again = match outcome {
            Attempt::Status(status) => policy.retries(status),
            Attempt::NoResponse => true,
        };
        if again {
            return RetryStep::Retry { delay_ms: backoff(policy, attempt) };
        }
    }
    match outcome {
        Attempt::Status(_) => RetryStep::Return,
        Attempt::NoResponse => RetryStep::Fail,
    }
}

/// The error of a request that got no response at its last attempt.
pub fn failure_message(label: &str) -> (r: String)
    ensures
        r@ == label@ + " request failed"@,
{
    let mut r = label.to_string();
    r.append(" request failed");
    r
}

/// There are never more than `max_retries` retries, and a response with a
/// status that is not retried is handed over at once.
pub proof fn law_retries_are_bounded(policy: RetryPolicy, attempt: int, status: u16)
    requires
        0 <= attempt,
    ensures
        attempt >= policy.max_retries ==> step_after(policy, attempt, Attempt::Status(status))
            == RetryStep::Return && step_after(policy, attempt, Attempt::NoResponse)
            == RetryStep::Fail,
        !policy.retries_spec(status) ==> step_after(policy, attempt, Attempt::Status(status))
            == RetryStep::Return,
{
}

/// Each wait is twice the one before it.
pub proof fn law_waits_double(policy: RetryPolicy, attempt: int)
    requires
        0 <= attempt,
    ensures
        delay_of(policy, attempt + 1) == 2 * delay_of(policy, attempt),
        delay_of(policy, 0) == policy.base_delay_ms,
{
    vstd::arithmetic::power2::lemma2_to64();
    lemma_pow2_unfold((attempt + 1) as nat);
    let b = policy.base_delay_ms as int;
    let p = pow2(attempt as nat) as int;
    let q = pow2((attempt + 1) as nat) as int;
    assert(b * q == 2 * (b * p)) by (nonlinear_arith)
        requires
            q == 2 * p,
    ;
    assert(b * 1 == b);
}

/// While retries are left, no response is retried always, and a response exactly if
/// its status is one that passes: too many requests or a failure of the server, of
/// which the standard policy takes only those that are known to pass. The wait is
/// that of the attempt.
pub proof fn law_passing_failures_are_retried(policy: RetryPolicy, attempt: int, status: u16)
    requires
        0 <= attempt < policy.max_retries,
    ensures
        step_after(policy, attempt, Attempt::NoResponse) is Retry,
        step_after(policy, attempt, Attempt::Status(status)) is Retry ==> status == 429 || 500
            <= status <= 599,
        policy.retryable == Retryable::ServerErrors ==> (step_after(
            policy,
            attempt,
            Attempt::Status(status),
        ) is Retry <==> 500 <= status <= 599),
        policy.retryable == Retryable::Standard && (status == 429 || status == 500 || status == 502
            || status == 503 || status == 529) ==> step_after(
            policy,
            attempt,
            Attempt::Status(status),
        ) is Retry,
        step_after(policy, attempt, Attempt::NoResponse) matches RetryStep::Retry { delay_ms } ==> (
        delay_of(policy, attempt) <= u64::MAX ==> delay_ms == delay_of(policy, attempt)),
        step_after(policy, attempt, Attempt::Status(status)) matches RetryStep::Retry { delay_ms }
            ==> (delay_of(policy, attempt) <= u64::MAX ==> delay_ms == delay_of(policy, attempt)),
{
    assert(delay_of(policy, attempt) >= 0) by (nonlinear_arith)
        requires
            delay_of(policy, attempt) == policy.base_delay_ms * pow2(attempt as nat),
    ;
}

} // verus!
