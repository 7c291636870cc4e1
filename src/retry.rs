//! Bounded retrying for reads that wait on eventually-consistent state.
//!
//! The waiter decides; the caller runs the condition and sleeps between
//! attempts for the interval the waiter hands back.
use vstd::prelude::*;

verus! {

/// The waiter gave up: every attempt failed, and this is the last failure.
pub struct TimeoutError<E> {
    pub attempts: u32,
    pub last_error: E,
}

/// What the caller does after reporting one attempt.
pub enum RetryStep<T, E> {
    /// The condition held: stop with this value.
    Ready(T),
    /// The condition failed: pause for this many milliseconds and try again.
    RetryAfter(u64),
    /// The last allowed attempt failed.
    TimedOut(TimeoutError<E>),
}

/// Counts the attempts of one wait.
pub struct RetryWaiter {
    pub max_attempts: u32,
    pub interval_millis: u64,
    pub attempts: u32,
    pub finished: bool,
}

impl RetryWaiter {
    pub open spec fn wf(self) -> bool {
        &&& self.max_attempts >= 1
        &&& self.attempts <= self.max_attempts
        &&& !self.finished ==> self.attempts < self.max_attempts
    }

    /// The waiter after one more attempt, which succeeded or not.
    pub open spec fn after(self, succeeded: bool) -> RetryWaiter {
        RetryWaiter {
            attempts: (self.attempts + 1) as u32,
            finished: succeeded || self.attempts + 1 == self.max_attempts,
            ..self
        }
    }

    /// The step decided for one more attempt with this outcome.
    pub open spec fn step<T, E>(self, outcome: Result<T, E>) -> RetryStep<T, E> {
        match outcome {
            Ok(t) => RetryStep::Ready(t),
            Err(e) => if self.attempts + 1 == self.max_attempts {
                RetryStep::TimedOut(TimeoutError { attempts: self.max_attempts, last_error: e })
            } else {
                RetryStep::RetryAfter(self.interval_millis)
            },
        }
    }

    /// Feeds successive outcomes to the waiter until it finishes: how many
    /// were consumed, and the step on which it finished.
    pub open spec fn drive<T, E>(self, outcomes: Seq<Result<T, E>>) -> (nat, Option<RetryStep<T, E>>)
        decreases outcomes.len(),
    {
        if outcomes.len() == 0 || self.finished {
            (0, None)
        } else {
            let next = self.after(outcomes[0] is Ok);
            if next.finished {
                (1, Some(self.step(outcomes[0])))
            } else {
                let rest = next.drive(outcomes.skip(1));
                (rest.0 + 1, rest.1)
            }
        }
    }

    /// A waiter that allows `max_attempts` attempts, pausing `interval_millis`
    /// between two of them.
    pub fn new(max_attempts: u32, interval_millis: u64) -> (w: RetryWaiter)
        requires
            max_attempts >= 1,
        ensures
            w.wf(),
            w.max_attempts == max_attempts,
            w.interval_millis == interval_millis,
            w.attempts == 0,
            !w.finished,
    {
        RetryWaiter { max_attempts, interval_millis, attempts: 0, finished: false }
    }

    pub fn is_finished(&self) -> (r: bool)
        ensures
            r == self.finished,
    {
        self.finished
    }

    /// Reports the outcome of one attempt of the condition.
    pub fn record<T, E>(&mut self, outcome: Result<T, E>) -> (r: RetryStep<T, E>)
        requires
            old(self).wf(),
            !old(self).finished,
        ensures
            final(self).wf(),
            *final(self) == old(self).after(outcome is Ok),
            r == old(self).step(outcome),
    {
        self.attempts = self.attempts + 1;
        match outcome {
            Ok(t) => {
                self.finished = true;
                RetryStep::Ready(t)
            },
            Err(e) => {
                if self.attempts == self.max_attempts {
                    self.finished = true;
                    RetryStep::TimedOut(TimeoutError { attempts: self.max_attempts, last_error: e })
                } else {
                    RetryStep::RetryAfter(self.interval_millis)
                }
            },
        }
    }
}

/// When every attempt fails, a wait makes exactly `max_attempts` attempts and
/// times out carrying the last failure; when the `k`-th attempt is the first to
/// succeed, with `k <= max_attempts`, it makes exactly `k` attempts and returns
/// that success.
pub proof fn lemma_retry_bounds<T, E>(max_attempts: u32, interval_millis: u64, outcomes: Seq<Result<T, E>>, k: nat)
    requires
        max_attempts >= 1,
    ensures
        ({
            let w = RetryWaiter { max_attempts, interval_millis, attempts: 0, finished: false };
            &&& (outcomes.len() >= max_attempts && forall|i: int| 0 <= i < max_attempts ==> outcomes[i] is Err)
                ==> w.drive(outcomes) == (max_attempts as nat, Some(RetryStep::<T, E>::TimedOut(TimeoutError {
                    attempts: max_attempts,
                    last_error: outcomes[max_attempts - 1]->Err_0,
                })))
            &&& (1 <= k <= max_attempts && k <= outcomes.len() && outcomes[k - 1] is Ok
                && forall|i: int| 0 <= i < k - 1 ==> outcomes[i] is Err)
                ==> w.drive(outcomes) == (k, Some(RetryStep::<T, E>::Ready(outcomes[k - 1]->Ok_0)))
        }),
{
    let w = RetryWaiter { max_attempts, interval_millis, attempts: 0, finished: false };
    if outcomes.len() >= max_attempts && forall|i: int| 0 <= i < max_attempts ==> outcomes[i] is Err {
        lemma_drive_failures(w, outcomes);
    }
    if 1 <= k <= max_attempts && k <= outcomes.len() && outcomes[k - 1] is Ok && forall|i: int|
        0 <= i < k - 1 ==> outcomes[i] is Err {
        lemma_drive_success(w, outcomes, k);
    }
}

proof fn lemma_drive_failures<T, E>(w: RetryWaiter, outcomes: Seq<Result<T, E>>)
    requires
        w.wf(),
        !w.finished,
        outcomes.len() >= w.max_attempts - w.attempts,
        forall|i: int| 0 <= i < w.max_attempts - w.attempts ==> outcomes[i] is Err,
    ensures
        w.drive(outcomes) == ((w.max_attempts - w.attempts) as nat, Some(RetryStep::<T, E>::TimedOut(TimeoutError {
            attempts: w.max_attempts,
            last_error: outcomes[w.max_attempts - w.attempts - 1]->Err_0,
        }))),
    decreases outcomes.len(),
{
    let next = w.after(false);
    assert(outcomes[0] is Err);
    if !next.finished {
        let rest = outcomes.skip(1);
        assert forall|i: int| 0 <= i < next.max_attempts - next.attempts implies rest[i] is Err by {
            assert(rest[i] == outcomes[i + 1]);
        }
        lemma_drive_failures(next, rest);
        assert(rest[next.max_attempts - next.attempts - 1] == outcomes[w.max_attempts - w.attempts - 1]);
    }
}

proof fn lemma_drive_success<T, E>(w: RetryWaiter, outcomes: Seq<Result<T, E>>, k: nat)
    requires
        w.wf(),
        !w.finished,
        1 <= k <= w.max_attempts - w.attempts,
        k <= outcomes.len(),
        outcomes[k - 1] is Ok,
        forall|i: int| 0 <= i < k - 1 ==> outcomes[i] is Err,
    ensures
        w.drive(outcomes) == (k, Some(RetryStep::<T, E>::Ready(outcomes[k - 1]->Ok_0))),
    decreases k,
{
    if k > 1 {
        let next = w.after(false);
        assert(outcomes[0] is Err);
        let rest = outcomes.skip(1);
        assert forall|i: int| 0 <= i < k - 2 implies rest[i] is Err by {
            assert(rest[i] == outcomes[i + 1]);
        }
        assert(rest[k - 2] == outcomes[k - 1]);
        lemma_drive_success(next, rest, (k - 1) as nat);
    }
}

} // verus!
