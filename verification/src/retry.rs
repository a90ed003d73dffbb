//! The retry policy for requests to the index service.
//!
//! A transient failure is answered by another attempt after a wait that
//! grows exponentially up to a ceiling, until the allowed number of retries
//! is used up. Any other failure ends the request at once.

use vstd::prelude::*;

verus! {

/// Exponential backoff: how often a request is retried, and how long the
/// wait between attempts is.
#[derive(Clone, Copy, Debug, PartialEq, Eq, Structural)]
pub struct RetryPolicy {
    pub max_n_retries: u32,
    pub min_retry_interval_secs: u64,
    pub max_retry_interval_secs: u64,
    pub backoff_exponent: u32,
}

/// How one attempt ended.
#[derive(Clone, Copy, Debug, PartialEq, Eq, Structural)]
pub enum AttemptOutcome {
    /// A response arrived.
    Success,
    /// A timeout, a server fault or a lost connection.
    Transient,
    /// A failure that another attempt would not mend.
    Fatal,
}

/// What follows an attempt.
#[derive(Clone, Copy, Debug, PartialEq, Eq, Structural)]
pub enum RetryAction {
    /// Hand the response to the caller.
    Deliver,
    /// Wait, then try again.
    Retry { wait_secs: u64 },
    /// Report a transport error; no further attempt is made.
    Fail,
}

/// `base` to the power of `n`.
pub open spec fn power(base: nat, n: nat) -> nat
    decreases n,
{
    if n == 0 {
        1
    } else {
        base * power(base, (n - 1) as nat)
    }
}

/// The smaller of two numbers.
pub open spec fn smaller(a: nat, b: nat) -> nat {
    if a < b {
        a
    } else {
        b
    }
}

proof fn lemma_wait_step(lo: nat, hi: nat, e: nat, k: nat)
    ensures
        smaller(hi, lo * power(e, k + 1)) == smaller(hi, smaller(hi, lo * power(e, k)) * e),
{
    let grown = lo * power(e, k);
    assert(power(e, k + 1) == e * power(e, k));
    assert(lo * (e * power(e, k)) == grown * e) by (nonlinear_arith)
        requires
            grown == lo * power(e, k),
    ;
    if grown >= hi {
        if e >= 1 {
            assert(grown * e >= hi && hi * e >= hi) by (nonlinear_arith)
                requires
                    grown >= hi,
                    e >= 1,
            ;
        } else {
            assert(grown * e == 0 && hi * e == 0) by (nonlinear_arith)
                requires
                    e == 0,
            ;
        }
    }
}

impl RetryPolicy {
    /// The wait before the retry that follows `n_past_retries` retries:
    /// the shortest interval times the exponent to that power, but no more
    /// than the longest interval.
    pub open spec fn wait(&self, n_past_retries: nat) -> nat {
        smaller(
            self.max_retry_interval_secs as nat,
            self.min_retry_interval_secs as nat * power(
                self.backoff_exponent as nat,
                n_past_retries,
            ),
        )
    }

    /// What the policy answers to an attempt that ended with `outcome`
    /// after `n_past_retries` retries.
    pub open spec fn action(&self, n_past_retries: nat, outcome: AttemptOutcome) -> RetryAction {
        match outcome {
            AttemptOutcome::Success => RetryAction::Deliver,
            AttemptOutcome::Fatal => RetryAction::Fail,
            AttemptOutcome::Transient => if n_past_retries < self.max_n_retries {
                RetryAction::Retry { wait_secs: self.wait(n_past_retries) as u64 }
            } else {
                RetryAction::Fail
            },
        }
    }

    /// The policy of the export: up to 25 retries, with waits that double
    /// from one second up to fifteen.
    pub fn standard() -> (r: RetryPolicy)
        ensures
            r == (RetryPolicy {
                max_n_retries: 25,
                min_retry_interval_secs: 1,
                max_retry_interval_secs: 15,
                backoff_exponent: 2,
            }),
    {
        RetryPolicy {
            max_n_retries: 25,
            min_retry_interval_secs: 1,
            max_retry_interval_secs: 15,
            backoff_exponent: 2,
        }
    }

    /// Computes the wait before the next retry, in seconds.
    pub fn wait_secs(&self, n_past_retries: u32) -> (r: u64)
        ensures
            r == self.wait(n_past_retries as nat),
            r <= self.max_retry_interval_secs,
    {
        let hi = self.max_retry_interval_secs;
        let mut w: u64 = if self.min_retry_interval_secs < hi {
            self.min_retry_interval_secs
        } else {
            hi
        };
        let mut k: u32 = 0;
        assert(power(self.backoff_exponent as nat, 0) == 1);
        while k < n_past_retries
            invariant
                k <= n_past_retries,
                hi == self.max_retry_interval_secs,
                w == self.wait(k as nat),
                w <= hi,
            decreases n_past_retries - k,
        {
            proof {
                lemma_wait_step(
                    self.min_retry_interval_secs as nat,
                    hi as nat,
                    self.backoff_exponent as nat,
                    k as nat,
                );
                assert((w as nat) * (self.backoff_exponent as nat) <= 0xffff_ffff_ffff_ffff
                    * 0xffff_ffff) by (nonlinear_arith)
                    requires
                        w <= 0xffff_ffff_ffff_ffff,
                        self.backoff_exponent <= 0xffff_ffff,
                ;
            }
            let grown: u128 = (w as u128) * (self.backoff_exponent as u128);
            w = if grown < (hi as u128) {
                grown as u64
            } else {
                hi
            };
            k += 1;
        }
        w
    }

    /// Decides what follows an attempt. A retry is granted only to a
    /// transient failure, and only while fewer than `max_n_retries`
    /// retries have been made: a request is attempted at most
    /// `max_n_retries + 1` times.
    pub fn decide(&self, n_past_retries: u32, outcome: AttemptOutcome) -> (r: RetryAction)
        ensures
            r == self.action(n_past_retries as nat, outcome),
            r is Retry ==> n_past_retries < self.max_n_retries,
    {
        match outcome {
            AttemptOutcome::Success => RetryAction::Deliver,
            AttemptOutcome::Fatal => RetryAction::Fail,
            AttemptOutcome::Transient => {
                if n_past_retries < self.max_n_retries {
                    RetryAction::Retry { wait_secs: self.wait_secs(n_past_retries) }
                } else {
                    RetryAction::Fail
                }
            },
        }
    }
}

} // verus!
