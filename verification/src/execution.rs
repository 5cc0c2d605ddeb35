//! How a running task ends.

use vstd::prelude::*;

use crate::error::PoolError;
use crate::notifier;
use crate::notifier::TaskCompletionStatus;

verus! {

/// What a look at the future of a running task found.
#[derive(Debug)]
pub enum FuturePoll<R> {
    /// The future is not done, or was not looked at.
    Pending,
    /// The future returned a value.
    Returned(R),
    /// The future panicked.
    Panicked,
}

/// The outcome of a task, once there is one. A cancellation comes before
/// whatever the future did.
pub open spec fn outcome_of<R>(cancelled: bool, polled: FuturePoll<R>) -> Option<
    Result<R, PoolError>,
> {
    if cancelled {
        Some(Err(PoolError::TaskCancelled))
    } else {
        match polled {
            FuturePoll::Pending => None,
            FuturePoll::Returned(value) => Some(Ok(value)),
            FuturePoll::Panicked => Some(Err(PoolError::TaskPanicked)),
        }
    }
}

/// Decides the outcome of a running task: `cancelled` tells whether its
/// cancellation was requested, `polled` what its future did.
pub fn execution_outcome<R>(cancelled: bool, polled: FuturePoll<R>) -> (outcome: Option<
    Result<R, PoolError>,
>)
    ensures
        outcome == outcome_of(cancelled, polled),
{
    if cancelled {
        return Some(Err(PoolError::TaskCancelled));
    }
    match polled {
        FuturePoll::Pending => None,
        FuturePoll::Returned(value) => Some(Ok(value)),
        FuturePoll::Panicked => Some(Err(PoolError::TaskPanicked)),
    }
}

/// A cancelled task is reported as cancelled, whatever its future did; a value
/// that arrives without a cancellation is the result; a panic is reported as
/// one; and only a task whose future is pending has no outcome yet.
pub proof fn law_outcome_tells_how_the_task_ended<R>(cancelled: bool, polled: FuturePoll<R>)
    ensures
        cancelled ==> outcome_of(cancelled, polled) == Some(
            Err::<R, PoolError>(PoolError::TaskCancelled),
        ),
        outcome_of(cancelled, polled) is None <==> !cancelled && polled is Pending,
        outcome_of(cancelled, polled) matches Some(outcome) ==> {
            &&& outcome matches Ok(value) ==> !cancelled && polled == FuturePoll::Returned(value)
            &&& notifier::status_of(outcome) == (if cancelled {
                TaskCompletionStatus::Cancelled
            } else if polled is Panicked {
                TaskCompletionStatus::Panicked
            } else {
                TaskCompletionStatus::Success
            })
        },
{
}

/// What a task of a pool that looks at the cancellation first does next, once it
/// was woken.
#[derive(Debug)]
pub enum StrictStep<R> {
    /// Poll the future.
    Poll,
    /// Sleep until woken.
    Sleep,
    /// The task has this outcome.
    Finish(Result<R, PoolError>),
}

/// The next step of a task that found its cancellation requested or not, and
/// polled its future or did not yet.
pub open spec fn strict_step_of<R>(cancelled: bool, polled: Option<FuturePoll<R>>) -> StrictStep<R> {
    if cancelled {
        StrictStep::Finish(Err(PoolError::TaskCancelled))
    } else {
        match polled {
            None => StrictStep::Poll,
            Some(FuturePoll::Pending) => StrictStep::Sleep,
            Some(FuturePoll::Returned(value)) => StrictStep::Finish(Ok(value)),
            Some(FuturePoll::Panicked) => StrictStep::Finish(Err(PoolError::TaskPanicked)),
        }
    }
}

/// Decides the next step of a task that looks at its cancellation first: a
/// cancelled task is over, and its future is not polled any more.
pub fn strict_step<R>(cancelled: bool, polled: Option<FuturePoll<R>>) -> (step: StrictStep<R>)
    ensures
        step == strict_step_of(cancelled, polled),
        cancelled ==> step == StrictStep::Finish(Err::<R, PoolError>(PoolError::TaskCancelled)),
{
    let looked = match polled {
        None => {
            if !cancelled {
                return StrictStep::Poll;
            }
            FuturePoll::Pending
        },
        Some(polled) => polled,
    };
    match execution_outcome(cancelled, looked) {
        Some(outcome) => StrictStep::Finish(outcome),
        None => StrictStep::Sleep,
    }
}

/// What a task of a pool that polls the future first does next, once it was
/// woken.
#[derive(Debug)]
pub enum RelaxedStep<R> {
    /// Poll the future.
    Poll,
    /// Look whether the cancellation was requested; the future did this.
    Look(FuturePoll<R>),
    /// Sleep until woken.
    Sleep,
    /// The task has this outcome.
    Finish(Result<R, PoolError>),
}

/// The next step of a task that polled its future or did not yet, and then looked
/// at its cancellation or did not yet.
pub open spec fn relaxed_step_of<R>(
    polled: Option<FuturePoll<R>>,
    cancelled: Option<bool>,
) -> RelaxedStep<R> {
    match (polled, cancelled) {
        (None, _) => RelaxedStep::Poll,
        (Some(polled), None) => RelaxedStep::Look(polled),
        (Some(polled), Some(cancelled)) => match outcome_of(cancelled, polled) {
            Some(outcome) => RelaxedStep::Finish(outcome),
            None => RelaxedStep::Sleep,
        },
    }
}

/// Decides the next step of a task that polls its future first and looks at its
/// cancellation afterwards. The cancellation still comes before what the future
/// did.
pub fn relaxed_step<R>(polled: Option<FuturePoll<R>>, cancelled: Option<bool>) -> (step: RelaxedStep<
    R,
>)
    ensures
        step == relaxed_step_of(polled, cancelled),
{
    match (polled, cancelled) {
        (None, _) => RelaxedStep::Poll,
        (Some(polled), None) => RelaxedStep::Look(polled),
        (Some(polled), Some(cancelled)) => match execution_outcome(cancelled, polled) {
            Some(outcome) => RelaxedStep::Finish(outcome),
            None => RelaxedStep::Sleep,
        },
    }
}

/// What a task finds when it is woken, each time it looks.
pub struct Wake<R> {
    /// The cancellation was requested.
    pub cancelled: bool,
    /// What a poll of the future gives.
    pub ready: FuturePoll<R>,
}

/// How far a task has come.
pub struct Course<R> {
    /// How the task ended, once it has.
    pub outcome: Option<Result<R, PoolError>>,
    /// How often the future was polled.
    pub polls: nat,
}

/// The course of a task that looks at its cancellation first, after `wakes`.
pub open spec fn strict_course<R>(wakes: Seq<Wake<R>>) -> Course<R>
    decreases wakes.len(),
{
    if wakes.len() == 0 {
        Course { outcome: None, polls: 0 }
    } else {
        let before = strict_course(wakes.drop_last());
        let wake = wakes.last();
        if before.outcome is Some {
            before
        } else {
            match strict_step_of(wake.cancelled, None::<FuturePoll<R>>) {
                StrictStep::Poll => Course {
                    outcome: match strict_step_of(wake.cancelled, Some(wake.ready)) {
                        StrictStep::Finish(outcome) => Some(outcome),
                        _ => None,
                    },
                    polls: before.polls + 1,
                },
                StrictStep::Finish(outcome) => Course {
                    outcome: Some(outcome),
                    polls: before.polls,
                },
                StrictStep::Sleep => before,
            }
        }
    }
}

/// A task that looks at its cancellation first ends at the first wake-up at which
/// the cancellation is seen or the future is done. If the cancellation is seen
/// there, the outcome is `TaskCancelled` and the future is not polled, even if it
/// is ready; else the outcome is what the future did.
pub proof fn law_cancelled_future_is_not_polled<R>(wakes: Seq<Wake<R>>, n: int)
    requires
        0 <= n < wakes.len(),
        forall|k: int|
            0 <= k < n ==> !(#[trigger] wakes[k]).cancelled && wakes[k].ready is Pending,
        wakes[n].cancelled || !(wakes[n].ready is Pending),
    ensures
        strict_course(wakes).outcome == outcome_of(wakes[n].cancelled, wakes[n].ready),
        strict_course(wakes).outcome is Some,
        strict_course(wakes).polls == (if wakes[n].cancelled {
            n
        } else {
            n + 1
        }),
    decreases wakes.len(),
{
    let head = wakes.drop_last();
    if n < head.len() {
        law_cancelled_future_is_not_polled(head, n);
    } else {
        lemma_course_pending(head);
    }
}

/// The course of a task that polls its future first, after `wakes`.
pub open spec fn relaxed_course<R>(wakes: Seq<Wake<R>>) -> Course<R>
    decreases wakes.len(),
{
    if wakes.len() == 0 {
        Course { outcome: None, polls: 0 }
    } else {
        let before = relaxed_course(wakes.drop_last());
        let wake = wakes.last();
        if before.outcome is Some {
            before
        } else {
            Course {
                outcome: match relaxed_step_of(Some(wake.ready), Some(wake.cancelled)) {
                    RelaxedStep::Finish(outcome) => Some(outcome),
                    _ => None,
                },
                polls: before.polls + 1,
            }
        }
    }
}

/// A task that polls its future first ends at the first wake-up at which the
/// cancellation is seen or the future is done. If the cancellation is seen there,
/// the outcome is `TaskCancelled`; else the outcome is what the future did. The
/// future is polled at that wake-up in either case.
pub proof fn law_relaxed_course_ends_with_the_first_reason<R>(wakes: Seq<Wake<R>>, n: int)
    requires
        0 <= n < wakes.len(),
        forall|k: int|
            0 <= k < n ==> !(#[trigger] wakes[k]).cancelled && wakes[k].ready is Pending,
        wakes[n].cancelled || !(wakes[n].ready is Pending),
    ensures
        relaxed_course(wakes).outcome == outcome_of(wakes[n].cancelled, wakes[n].ready),
        relaxed_course(wakes).outcome is Some,
        relaxed_course(wakes).polls == n + 1,
    decreases wakes.len(),
{
    let head = wakes.drop_last();
    if n < head.len() {
        law_relaxed_course_ends_with_the_first_reason(head, n);
    } else {
        lemma_course_pending(head);
    }
}

proof fn lemma_course_pending<R>(wakes: Seq<Wake<R>>)
    requires
        forall|k: int|
            0 <= k < wakes.len() ==> !(#[trigger] wakes[k]).cancelled && wakes[k].ready is Pending,
    ensures
        strict_course(wakes).outcome is None,
        strict_course(wakes).polls == wakes.len(),
        relaxed_course(wakes).outcome is None,
        relaxed_course(wakes).polls == wakes.len(),
    decreases wakes.len(),
{
    if wakes.len() > 0 {
        lemma_course_pending(wakes.drop_last());
    }
}

/// A task that looks at its cancellation first is over as soon as it sees it. It
/// polls its future only when it does not, ends with what the future did, and
/// sleeps while the future is pending.
pub proof fn law_strict_steps<R>(cancelled: bool, value: R, polled: Option<FuturePoll<R>>)
    ensures
        strict_step_of(true, polled) == StrictStep::Finish(
            Err::<R, PoolError>(PoolError::TaskCancelled),
        ),
        strict_step_of(false, None::<FuturePoll<R>>) is Poll,
        strict_step_of(false, Some(FuturePoll::<R>::Pending)) is Sleep,
        strict_step_of(false, Some(FuturePoll::Returned(value))) == StrictStep::Finish(
            Ok::<R, PoolError>(value),
        ),
        strict_step_of(false, Some(FuturePoll::<R>::Panicked)) == StrictStep::Finish(
            Err::<R, PoolError>(PoolError::TaskPanicked),
        ),
{
}

/// A task that polls its future first looks at its cancellation afterwards in any
/// case. If it sees one it is over, whatever the future did; else it ends with what
/// the future did, and sleeps while the future is pending.
pub proof fn law_relaxed_steps<R>(
    value: R,
    polled: FuturePoll<R>,
    cancelled: Option<bool>,
)
    ensures
        relaxed_step_of(None::<FuturePoll<R>>, cancelled) is Poll,
        relaxed_step_of(Some(polled), None) == RelaxedStep::Look(polled),
        relaxed_step_of(Some(polled), Some(true)) == RelaxedStep::Finish(
            Err::<R, PoolError>(PoolError::TaskCancelled),
        ),
        relaxed_step_of(Some(FuturePoll::<R>::Pending), Some(false)) is Sleep,
        relaxed_step_of(Some(FuturePoll::Returned(value)), Some(false)) == RelaxedStep::Finish(
            Ok::<R, PoolError>(value),
        ),
        relaxed_step_of(Some(FuturePoll::<R>::Panicked), Some(false)) == RelaxedStep::Finish(
            Err::<R, PoolError>(PoolError::TaskPanicked),
        ),
{
}

} // verus!
