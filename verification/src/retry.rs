//! The retry policy: which failures are worth another attempt, how long to wait before it,
//! and when to give up.

use crate::decimal::{decimal, u64_to_decimal, usize_to_decimal};
use vstd::prelude::*;

verus! {

/// The kinds of I/O failure that the policy tells apart.
#[derive(Clone, Copy, Debug, PartialEq, Eq, Structural)]
pub enum IoFailure {
    TimedOut,
    ConnectionReset,
    ConnectionAborted,
    BrokenPipe,
    UnexpectedEof,
    WouldBlock,
    Interrupted,
    Other,
}

/// One link of an error's causal chain, reduced to what the policy reads.
#[derive(Clone, Copy, Debug, PartialEq, Eq, Structural)]
pub enum Cause {
    /// A failure of the HTTP stack: whether it was a timeout, a failure to connect or a
    /// failure while reading the body, and the response status if the failure carries one.
    Http { timeout: bool, connect: bool, body: bool, status: Option<u16> },
    /// An I/O failure.
    Io(IoFailure),
    /// Anything else.
    Other,
}

/// Whether a response status asks for another attempt: any `5xx`, `408` and `429`.
pub open spec fn status_is_transient(status: u16) -> bool {
    500 <= status <= 599 || status == 408 || status == 429
}

/// Whether an I/O failure is transient.
pub open spec fn io_is_transient(kind: IoFailure) -> bool {
    !(kind is Other)
}

/// What one cause settles: `Some(true)` for a transient failure, `Some(false)` for a terminal
/// one, `None` where the cause says nothing and the next one is asked.
pub open spec fn verdict(cause: Cause) -> Option<bool> {
    match cause {
        Cause::Http { timeout, connect, body, status } => {
            if timeout || connect || body {
                Some(true)
            } else {
                match status {
                    Some(code) => Some(status_is_transient(code)),
                    None => None,
                }
            }
        },
        Cause::Io(kind) => if io_is_transient(kind) {
            Some(true)
        } else {
            None
        },
        Cause::Other => None,
    }
}

/// Whether a failure with this causal chain, outermost cause first, is worth another attempt:
/// the first cause that settles the matter does; a chain in which none does is terminal.
pub open spec fn chain_is_retryable(chain: Seq<Cause>) -> bool
    decreases chain.len(),
{
    if chain.len() == 0 {
        false
    } else {
        match verdict(chain[0]) {
            Some(answer) => answer,
            None => chain_is_retryable(chain.drop_first()),
        }
    }
}

/// Whether a response status asks for another attempt.
pub fn is_transient_status(status: u16) -> (transient: bool)
    ensures
        transient == status_is_transient(status),
{
    (500 <= status && status <= 599) || status == 408 || status == 429
}

/// What one cause settles, if anything.
pub fn cause_verdict(cause: &Cause) -> (answer: Option<bool>)
    ensures
        answer == verdict(*cause),
{
    match cause {
        Cause::Http { timeout, connect, body, status } => {
            if *timeout || *connect || *body {
                Some(true)
            } else {
                match status {
                    Some(code) => Some(is_transient_status(*code)),
                    None => None,
                }
            }
        },
        Cause::Io(kind) => match kind {
            IoFailure::Other => None,
            _ => Some(true),
        },
        Cause::Other => None,
    }
}

/// Whether a failure with this causal chain, outermost cause first, is worth another attempt.
pub fn is_retryable_error(chain: &Vec<Cause>) -> (retryable: bool)
    ensures
        retryable == chain_is_retryable(chain@),
{
    let mut i: usize = 0;
    assert(chain@.skip(0) =~= chain@);
    while i < chain.len()
        invariant
            i <= chain@.len(),
            chain_is_retryable(chain@) == chain_is_retryable(chain@.skip(i as int)),
        decreases chain@.len() - i,
    {
        assert(chain@.skip(i as int).drop_first() =~= chain@.skip(i as int + 1));
        match cause_verdict(&chain[i]) {
            Some(answer) => {
                return answer;
            },
            None => {},
        }
        i += 1;
    }
    false
}

/// Seconds to wait after failed attempt number `attempt`, counted from one:
/// `2^(attempt - 1)`, at most eight.
pub open spec fn backoff_secs(attempt: int) -> int {
    if attempt <= 1 {
        1
    } else if attempt == 2 {
        2
    } else if attempt == 3 {
        4
    } else {
        8
    }
}

/// Seconds to wait after failed attempt number `attempt`.
pub fn retry_delay(attempt: usize) -> (seconds: u64)
    ensures
        seconds == backoff_secs(attempt as int),
{
    if attempt <= 1 {
        1
    } else if attempt == 2 {
        2
    } else if attempt == 3 {
        4
    } else {
        8
    }
}

/// How many attempts a cap of `max_attempts` allows: at least one.
pub open spec fn allowed_attempts(max_attempts: int) -> int {
    if max_attempts < 1 {
        1
    } else {
        max_attempts
    }
}

/// How many attempts a cap of `max_attempts` allows.
pub fn effective_attempts(max_attempts: usize) -> (attempts: usize)
    ensures
        attempts == allowed_attempts(max_attempts as int),
{
    if max_attempts < 1 {
        1
    } else {
        max_attempts
    }
}

/// What to do after a failed attempt.
#[derive(Clone, Copy, Debug, PartialEq, Eq, Structural)]
pub enum RetryDecision {
    /// Hand the failure to the caller.
    GiveUp,
    /// Wait `seconds`, then make attempt number `next_attempt`.
    RetryAfter { seconds: u64, next_attempt: usize },
}

/// The decision after attempt number `attempt` of at most `max_attempts` has failed:
/// another attempt only if the failure is transient and attempts are left.
pub open spec fn decision(attempt: int, max_attempts: int, retryable: bool) -> RetryDecision {
    if retryable && 1 <= attempt < allowed_attempts(max_attempts) {
        RetryDecision::RetryAfter {
            seconds: backoff_secs(attempt) as u64,
            next_attempt: (attempt + 1) as usize,
        }
    } else {
        RetryDecision::GiveUp
    }
}

/// Decides what follows the failure of attempt number `attempt`, counted from one.
pub fn after_failure(attempt: usize, max_attempts: usize, retryable: bool) -> (step: RetryDecision)
    ensures
        step == decision(attempt as int, max_attempts as int, retryable),
{
    let attempts = effective_attempts(max_attempts);
    if retryable && 1 <= attempt && attempt < attempts {
        RetryDecision::RetryAfter { seconds: retry_delay(attempt), next_attempt: attempt + 1 }
    } else {
        RetryDecision::GiveUp
    }
}

/// The line that announces a retry:
/// `<operation> failed (attempt <k>/<n>): <error>. Retrying in <s>s...`.
pub open spec fn retry_notice(
    operation: Seq<char>,
    attempt: nat,
    attempts: nat,
    error: Seq<char>,
    seconds: nat,
) -> Seq<char> {
    operation + " failed (attempt "@ + decimal(attempt) + "/"@ + decimal(attempts) + "): "@ + error
        + ". Retrying in "@ + decimal(seconds) + "s..."@
}

/// The line that announces a retry.
pub fn retry_message(
    operation: &str,
    attempt: usize,
    attempts: usize,
    error: &str,
    seconds: u64,
) -> (line: String)
    ensures
        line@ == retry_notice(operation@, attempt as nat, attempts as nat, error@, seconds as nat),
{
    let mut line = String::from_str(operation);
    line.append(" failed (attempt ");
    line.append(usize_to_decimal(attempt).as_str());
    line.append("/");
    line.append(usize_to_decimal(attempts).as_str());
    line.append("): ");
    line.append(error);
    line.append(". Retrying in ");
    line.append(u64_to_decimal(seconds).as_str());
    line.append("s...");
    line
}

/// Seconds slept in all if every one of the attempts that a cap allows fails with a
/// transient failure.
pub open spec fn total_backoff(attempts: int) -> int
    decreases attempts,
{
    if attempts <= 1 {
        0
    } else {
        total_backoff(attempts - 1) + backoff_secs(attempts - 1)
    }
}

/// Seconds slept in all if every attempt fails with a transient failure, saturating.
pub fn total_retry_sleep_seconds(max_attempts: usize) -> (seconds: u64)
    ensures
        seconds == if total_backoff(max_attempts as int) > u64::MAX {
            u64::MAX as int
        } else {
            total_backoff(max_attempts as int)
        },
{
    let mut sum: u64 = 0;
    let mut attempt: usize = 1;
    while attempt < max_attempts
        invariant
            1 <= attempt,
            attempt <= max_attempts || (max_attempts == 0 && attempt == 1),
            0 <= total_backoff(attempt as int),
            sum == if total_backoff(attempt as int) > u64::MAX {
                u64::MAX as int
            } else {
                total_backoff(attempt as int)
            },
        decreases max_attempts - attempt,
    {
        sum = sum.saturating_add(retry_delay(attempt));
        attempt += 1;
    }
    assert(total_backoff(0) == 0 && total_backoff(1) == 0);
    sum
}

/// How one invocation of the operation ends.
#[derive(Clone, Copy, Debug, PartialEq, Eq, Structural)]
pub enum Outcome {
    Success,
    Failure { retryable: bool },
}

/// What a run of the policy does, step by step.
#[derive(Clone, Copy, Debug, PartialEq, Eq, Structural)]
pub enum Action {
    /// Invoke the operation.
    Invoke,
    /// Sleep for this many seconds.
    Sleep(u64),
}

/// The actions of a run that is about to make attempt number `attempt`, where `outcomes`
/// tells how each attempt ends: invoke; after a failure follow [`decision`].
pub open spec fn run_from(
    max_attempts: int,
    outcomes: spec_fn(int) -> Outcome,
    attempt: int,
) -> Seq<Action>
    decreases allowed_attempts(max_attempts) - attempt,
{
    match outcomes(attempt) {
        Outcome::Success => seq![Action::Invoke],
        Outcome::Failure { retryable } => match decision(attempt, max_attempts, retryable) {
            RetryDecision::GiveUp => seq![Action::Invoke],
            RetryDecision::RetryAfter { seconds, next_attempt } => seq![
                Action::Invoke,
                Action::Sleep(seconds),
            ] + run_from(max_attempts, outcomes, attempt + 1),
        },
    }
}

/// The actions of a whole run.
pub open spec fn run(max_attempts: int, outcomes: spec_fn(int) -> Outcome) -> Seq<Action> {
    run_from(max_attempts, outcomes, 1)
}

/// How many times `actions` invokes the operation.
pub open spec fn invocations(actions: Seq<Action>) -> nat
    decreases actions.len(),
{
    if actions.len() == 0 {
        0
    } else {
        invocations(actions.drop_last()) + if actions.last() is Invoke {
            1nat
        } else {
            0nat
        }
    }
}

proof fn lemma_invocations_alternating(actions: Seq<Action>, calls: int)
    requires
        calls >= 1,
        actions.len() == 2 * calls - 1,
        forall|i: int| 0 <= i < actions.len() ==> ((#[trigger] actions[i]) is Invoke <==> i % 2 == 0),
    ensures
        invocations(actions) == calls,
    decreases calls,
{
    if calls == 1 {
        assert(actions.drop_last().len() == 0);
        assert(invocations(actions.drop_last()) == 0);
        assert(actions.last() == actions[0]);
    } else {
        let shorter = actions.drop_last().drop_last();
        assert forall|i: int| 0 <= i < shorter.len() implies ((#[trigger] shorter[i]) is Invoke
            <==> i % 2 == 0) by {
            assert(shorter[i] == actions[i]);
        }
        lemma_invocations_alternating(shorter, calls - 1);
        assert(actions.drop_last().last() == actions[actions.len() - 2]);
        assert(actions.last() == actions[actions.len() - 1]);
        assert((actions.len() - 2) % 2 == 1 && (actions.len() - 1) % 2 == 0);
        assert(invocations(actions.drop_last()) == invocations(shorter));
        assert(invocations(actions) == invocations(actions.drop_last()) + 1);
    }
}

proof fn lemma_run_from(max_attempts: int, outcomes: spec_fn(int) -> Outcome, attempt: int)
    requires
        1 <= attempt <= allowed_attempts(max_attempts),
    ensures
        ({
            let actions = run_from(max_attempts, outcomes, attempt);
            let calls = (actions.len() + 1) / 2;
            &&& actions.len() % 2 == 1
            &&& 1 <= calls <= allowed_attempts(max_attempts) - attempt + 1
            &&& forall|i: int|
                0 <= i < actions.len() ==> (#[trigger] actions[i]) == if i % 2 == 0 {
                    Action::Invoke
                } else {
                    Action::Sleep(backoff_secs(attempt + i / 2) as u64)
                }
        }),
    decreases allowed_attempts(max_attempts) - attempt,
{
    let actions = run_from(max_attempts, outcomes, attempt);
    match outcomes(attempt) {
        Outcome::Success => {},
        Outcome::Failure { retryable } => match decision(attempt, max_attempts, retryable) {
            RetryDecision::GiveUp => {},
            RetryDecision::RetryAfter { seconds, next_attempt } => {
                lemma_run_from(max_attempts, outcomes, attempt + 1);
                let rest = run_from(max_attempts, outcomes, attempt + 1);
                let head = seq![Action::Invoke, Action::Sleep(seconds)];
                assert(actions == head + rest);
                assert forall|i: int| 0 <= i < actions.len() implies (#[trigger] actions[i])
                    == if i % 2 == 0 {
                    Action::Invoke
                } else {
                    Action::Sleep(backoff_secs(attempt + i / 2) as u64)
                } by {
                    if i >= 2 {
                        assert(actions[i] == rest[i - 2]);
                        assert((i - 2) % 2 == i % 2);
                        assert((i - 2) / 2 == i / 2 - 1);
                    } else {
                        assert(actions[i] == head[i]);
                    }
                }
            },
        },
    }
}

/// However the attempts end, a run invokes the operation at least once and at most
/// `max(1, max_attempts)` times; it sleeps only between two invocations, so never after the
/// last attempt; and the sleep after attempt `k` lasts `backoff_secs(k)` seconds.
pub proof fn lemma_retry_bounded(max_attempts: int, outcomes: spec_fn(int) -> Outcome)
    ensures
        1 <= invocations(run(max_attempts, outcomes)) <= allowed_attempts(max_attempts),
        run(max_attempts, outcomes).len() == 2 * invocations(run(max_attempts, outcomes)) - 1,
        run(max_attempts, outcomes).last() is Invoke,
        forall|i: int|
            0 <= i < run(max_attempts, outcomes).len() ==> (#[trigger] run(
                max_attempts,
                outcomes,
            )[i]) == if i % 2 == 0 {
                Action::Invoke
            } else {
                Action::Sleep(backoff_secs(1 + i / 2) as u64)
            },
{
    lemma_run_from(max_attempts, outcomes, 1);
    let actions = run(max_attempts, outcomes);
    let calls = (actions.len() + 1) / 2;
    lemma_invocations_alternating(actions, calls as int);
}

} // verus!
