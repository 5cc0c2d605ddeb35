//! The course of a shutdown, shared by both kinds of pool.

use vstd::prelude::*;

use crate::notifier;
use crate::notifier::{CompletionNotifier, NotifierView};

verus! {

/// How a pool behaves upon shutdown.
#[derive(Debug, Clone, Copy, PartialEq, Eq, Structural)]
pub enum ShutdownMode {
    /// Waits for currently active tasks to complete. Queued tasks that have not
    /// yet started are dropped and not processed.
    Graceful,
    /// Cooperatively cancels all currently active tasks. Queued tasks are
    /// dropped.
    ForcefulCancel,
}

/// How often the number of active tasks is looked at, in milliseconds.
pub const CHECK_INTERVAL_MS: u64 = 50;

/// How long active tasks are waited for, in milliseconds.
pub const ACTIVE_WAIT_MS: u64 = 30_000;

/// How long a worker's end is waited for, in milliseconds.
pub const JOIN_WAIT_MS: u64 = 5_000;

/// Where a shutdown stands.
#[derive(Debug, Clone, Copy, PartialEq, Eq, Structural)]
pub enum ShutdownStage {
    /// Active tasks are waited for.
    AwaitActive,
    /// The wait for active tasks is over.
    ActiveOver,
    /// This many dispatch loops are still to be waited for.
    JoinWorkers(usize),
    /// The notification worker is waited for.
    AwaitNotifier,
    /// Nothing is left to do.
    Done,
}

/// What happened while a shutdown waited.
#[derive(Debug, Clone, Copy, PartialEq, Eq, Structural)]
pub enum ShutdownEvent {
    /// A look at the pool found this many active tasks.
    Tick(usize),
    /// Active tasks were waited for long enough.
    ActiveTimeout,
    /// A dispatch loop ended.
    WorkerEnded,
    /// A dispatch loop was waited for long enough.
    WorkerTimeout,
    /// The notification worker ended.
    NotifierEnded,
    /// The notification worker was waited for long enough.
    NotifierTimeout,
}

/// What a shutdown does next.
#[derive(Debug, Clone, Copy, PartialEq, Eq, Structural)]
pub enum ShutdownAction {
    /// Look at the number of active tasks at an interval, up to a limit, both in
    /// milliseconds.
    WatchActive(u64, u64),
    /// Wait for a dispatch loop, up to a limit in milliseconds.
    JoinWorker(u64),
    /// Wait for the notification worker, up to a limit in milliseconds.
    JoinNotifier(u64),
    /// Report success.
    Finish,
}

/// The stage after `event`, before anything that needs no waiting is done. An
/// event that is not awaited changes nothing.
pub open spec fn stage_after_event(stage: ShutdownStage, event: ShutdownEvent) -> ShutdownStage {
    match (stage, event) {
        (ShutdownStage::AwaitActive, ShutdownEvent::Tick(remaining)) => if remaining == 0 {
            ShutdownStage::ActiveOver
        } else {
            stage
        },
        (ShutdownStage::AwaitActive, ShutdownEvent::ActiveTimeout) => ShutdownStage::ActiveOver,
        (ShutdownStage::JoinWorkers(left), ShutdownEvent::WorkerEnded) => if left > 0 {
            ShutdownStage::JoinWorkers((left - 1) as usize)
        } else {
            stage
        },
        (ShutdownStage::JoinWorkers(left), ShutdownEvent::WorkerTimeout) => if left > 0 {
            ShutdownStage::JoinWorkers((left - 1) as usize)
        } else {
            stage
        },
        (ShutdownStage::AwaitNotifier, ShutdownEvent::NotifierEnded) => ShutdownStage::Done,
        (ShutdownStage::AwaitNotifier, ShutdownEvent::NotifierTimeout) => ShutdownStage::Done,
        _ => stage,
    }
}

/// The stage once the dispatch loops that nobody waits for yet were claimed.
pub open spec fn stage_after_claim(stage: ShutdownStage, unclaimed: usize) -> ShutdownStage {
    if stage == ShutdownStage::ActiveOver {
        ShutdownStage::JoinWorkers(unclaimed)
    } else {
        stage
    }
}

/// The stage at which the shutdown waits next.
pub open spec fn stage_settled(stage: ShutdownStage, unclaimed: usize, joinable: bool) -> ShutdownStage {
    let claimed = stage_after_claim(stage, unclaimed);
    if claimed == ShutdownStage::JoinWorkers(0) {
        if joinable {
            ShutdownStage::AwaitNotifier
        } else {
            ShutdownStage::Done
        }
    } else {
        claimed
    }
}

/// The dispatch loops that nobody waits for, after the shutdown moved on.
pub open spec fn unclaimed_settled(stage: ShutdownStage, unclaimed: usize) -> usize {
    if stage == ShutdownStage::ActiveOver {
        0
    } else {
        unclaimed
    }
}

/// The notifier after the shutdown moved on: once all dispatch loops are dealt
/// with, the first shutdown drops the pool-wide sender, and the notification
/// worker is claimed.
pub open spec fn notifier_settled<H>(
    initiator: bool,
    stage: ShutdownStage,
    unclaimed: usize,
    notifier: NotifierView<H>,
) -> NotifierView<H> {
    if stage_after_claim(stage, unclaimed) == ShutdownStage::JoinWorkers(0) {
        let closed = if initiator {
            notifier.after_close()
        } else {
            notifier
        };
        NotifierView { joinable: false, ..closed }
    } else {
        notifier
    }
}

/// One call of a pool's `shutdown`, from its start to its end.
#[derive(Debug, Clone, Copy, PartialEq, Eq, Structural)]
pub struct ShutdownRun {
    /// This call is the one that started the shutdown.
    pub initiator: bool,
    /// Where the call stands.
    pub stage: ShutdownStage,
}

/// The stage at which a shutdown starts that found `active` tasks.
pub open spec fn first_stage(active: nat) -> ShutdownStage {
    if active > 0 {
        ShutdownStage::AwaitActive
    } else {
        ShutdownStage::ActiveOver
    }
}

impl ShutdownRun {
    /// Does everything that needs no waiting.
    fn settle<H>(&mut self, unclaimed: &mut usize, notifier: &mut CompletionNotifier<H>)
        requires
            old(notifier).wf(),
        ensures
            final(notifier).wf(),
            final(self).initiator == old(self).initiator,
            final(self).stage == stage_settled(
                old(self).stage,
                *old(unclaimed),
                old(notifier)@.joinable,
            ),
            *final(unclaimed) == unclaimed_settled(old(self).stage, *old(unclaimed)),
            final(notifier)@ == notifier_settled(
                old(self).initiator,
                old(self).stage,
                *old(unclaimed),
                old(notifier)@,
            ),
    {
        if self.stage == ShutdownStage::ActiveOver {
            self.stage = ShutdownStage::JoinWorkers(*unclaimed);
            *unclaimed = 0;
        }
        if let ShutdownStage::JoinWorkers(left) = self.stage {
            if left == 0 {
                if self.initiator {
                    notifier.close();
                }
                if notifier.take_join() {
                    self.stage = ShutdownStage::AwaitNotifier;
                } else {
                    self.stage = ShutdownStage::Done;
                }
            }
        }
    }

    /// Starts the waiting part of a shutdown that found `active` active tasks.
    /// `unclaimed` is the number of dispatch loops that nobody waits for yet.
    pub fn begin<H>(
        initiator: bool,
        active: usize,
        unclaimed: &mut usize,
        notifier: &mut CompletionNotifier<H>,
    ) -> (run: ShutdownRun)
        requires
            old(notifier).wf(),
        ensures
            final(notifier).wf(),
            run.initiator == initiator,
            run.stage == stage_settled(
                first_stage(active as nat),
                *old(unclaimed),
                old(notifier)@.joinable,
            ),
            *final(unclaimed) == unclaimed_settled(first_stage(active as nat), *old(unclaimed)),
            final(notifier)@ == notifier_settled(
                initiator,
                first_stage(active as nat),
                *old(unclaimed),
                old(notifier)@,
            ),
    {
        let mut run = ShutdownRun {
            initiator,
            stage: if active > 0 {
                ShutdownStage::AwaitActive
            } else {
                ShutdownStage::ActiveOver
            },
        };
        run.settle(unclaimed, notifier);
        run
    }

    /// Moves on after `event`.
    pub fn step<H>(
        &mut self,
        event: ShutdownEvent,
        unclaimed: &mut usize,
        notifier: &mut CompletionNotifier<H>,
    )
        requires
            old(notifier).wf(),
        ensures
            final(notifier).wf(),
            final(self).initiator == old(self).initiator,
            final(self).stage == stage_settled(
                stage_after_event(old(self).stage, event),
                *old(unclaimed),
                old(notifier)@.joinable,
            ),
            *final(unclaimed) == unclaimed_settled(
                stage_after_event(old(self).stage, event),
                *old(unclaimed),
            ),
            final(notifier)@ == notifier_settled(
                old(self).initiator,
                stage_after_event(old(self).stage, event),
                *old(unclaimed),
                old(notifier)@,
            ),
    {
        match (self.stage, event) {
            (ShutdownStage::AwaitActive, ShutdownEvent::Tick(remaining)) => {
                if remaining == 0 {
                    self.stage = ShutdownStage::ActiveOver;
                }
            },
            (ShutdownStage::AwaitActive, ShutdownEvent::ActiveTimeout) => {
                self.stage = ShutdownStage::ActiveOver;
            },
            (ShutdownStage::JoinWorkers(left), ShutdownEvent::WorkerEnded) => {
                if left > 0 {
                    self.stage = ShutdownStage::JoinWorkers(left - 1);
                }
            },
            (ShutdownStage::JoinWorkers(left), ShutdownEvent::WorkerTimeout) => {
                if left > 0 {
                    self.stage = ShutdownStage::JoinWorkers(left - 1);
                }
            },
            (ShutdownStage::AwaitNotifier, ShutdownEvent::NotifierEnded) => {
                self.stage = ShutdownStage::Done;
            },
            (ShutdownStage::AwaitNotifier, ShutdownEvent::NotifierTimeout) => {
                self.stage = ShutdownStage::Done;
            },
            _ => {},
        }
        self.settle(unclaimed, notifier);
    }

    /// What to do at the present stage.
    pub fn action(&self) -> (action: ShutdownAction)
        ensures
            action == stage_action(self.stage),
    {
        match self.stage {
            ShutdownStage::AwaitActive => ShutdownAction::WatchActive(
                CHECK_INTERVAL_MS,
                ACTIVE_WAIT_MS,
            ),
            ShutdownStage::JoinWorkers(_) => ShutdownAction::JoinWorker(JOIN_WAIT_MS),
            ShutdownStage::AwaitNotifier => ShutdownAction::JoinNotifier(JOIN_WAIT_MS),
            _ => ShutdownAction::Finish,
        }
    }
}

/// What to do at `stage`.
pub open spec fn stage_action(stage: ShutdownStage) -> ShutdownAction {
    match stage {
        ShutdownStage::AwaitActive => ShutdownAction::WatchActive(
            CHECK_INTERVAL_MS,
            ACTIVE_WAIT_MS,
        ),
        ShutdownStage::JoinWorkers(_) => ShutdownAction::JoinWorker(JOIN_WAIT_MS),
        ShutdownStage::AwaitNotifier => ShutdownAction::JoinNotifier(JOIN_WAIT_MS),
        _ => ShutdownAction::Finish,
    }
}

/// How many waits a shutdown at `stage` has before it at most, given the number
/// of dispatch loops that nobody waits for yet.
pub open spec fn waits_left(stage: ShutdownStage, unclaimed: usize) -> nat {
    match stage {
        ShutdownStage::AwaitActive => (unclaimed + 2) as nat,
        ShutdownStage::ActiveOver => (unclaimed + 1) as nat,
        ShutdownStage::JoinWorkers(left) => (left + 1) as nat,
        ShutdownStage::AwaitNotifier => 1,
        ShutdownStage::Done => 0,
    }
}

/// How long a shutdown at `stage` can still take, in milliseconds, given the
/// number of dispatch loops that nobody waits for yet.
pub open spec fn time_left(stage: ShutdownStage, unclaimed: usize) -> nat {
    match stage {
        ShutdownStage::AwaitActive => (ACTIVE_WAIT_MS + JOIN_WAIT_MS * (unclaimed + 1)) as nat,
        ShutdownStage::ActiveOver => (JOIN_WAIT_MS * (unclaimed + 1)) as nat,
        ShutdownStage::JoinWorkers(left) => (JOIN_WAIT_MS * (left + 1)) as nat,
        ShutdownStage::AwaitNotifier => JOIN_WAIT_MS as nat,
        ShutdownStage::Done => 0,
    }
}

/// The time limit of `action`, in milliseconds.
pub open spec fn action_limit(action: ShutdownAction) -> nat {
    match action {
        ShutdownAction::WatchActive(_, limit) => limit as nat,
        ShutdownAction::JoinWorker(limit) => limit as nat,
        ShutdownAction::JoinNotifier(limit) => limit as nat,
        ShutdownAction::Finish => 0,
    }
}

/// The event that ends the wait at `stage` whatever the awaited party does.
pub open spec fn stage_timeout(stage: ShutdownStage) -> ShutdownEvent {
    match stage {
        ShutdownStage::AwaitActive => ShutdownEvent::ActiveTimeout,
        ShutdownStage::JoinWorkers(_) => ShutdownEvent::WorkerTimeout,
        _ => ShutdownEvent::NotifierTimeout,
    }
}

/// A shutdown ends although nothing it waits for ever happens: each time limit
/// that expires leaves fewer waits and less time, and without waits left it is
/// done.
pub proof fn law_shutdown_ends(stage: ShutdownStage, unclaimed: usize, joinable: bool)
    requires
        stage == stage_settled(stage, unclaimed, joinable),
    ensures
        stage != ShutdownStage::Done ==> waits_left(
            stage_settled(stage_after_event(stage, stage_timeout(stage)), unclaimed, joinable),
            unclaimed_settled(stage_after_event(stage, stage_timeout(stage)), unclaimed),
        ) < waits_left(stage, unclaimed),
        time_left(
            stage_settled(stage_after_event(stage, stage_timeout(stage)), unclaimed, joinable),
            unclaimed_settled(stage_after_event(stage, stage_timeout(stage)), unclaimed),
        ) + action_limit(stage_action(stage)) <= time_left(stage, unclaimed),
        waits_left(stage, unclaimed) == 0 <==> stage == ShutdownStage::Done,
        stage_action(stage) == ShutdownAction::Finish <==> stage == ShutdownStage::Done,
{
}

/// A shutdown never goes back: no event adds a wait, and a finished one stays
/// finished.
pub proof fn law_shutdown_moves_forward(
    stage: ShutdownStage,
    unclaimed: usize,
    joinable: bool,
    event: ShutdownEvent,
)
    requires
        stage == stage_settled(stage, unclaimed, joinable),
    ensures
        waits_left(
            stage_settled(stage_after_event(stage, event), unclaimed, joinable),
            unclaimed_settled(stage_after_event(stage, event), unclaimed),
        ) <= waits_left(stage, unclaimed),
        stage == ShutdownStage::Done ==> stage_settled(
            stage_after_event(stage, event),
            unclaimed,
            joinable,
        ) == ShutdownStage::Done,
{
}

/// Only the call that started the shutdown drops the pool-wide sender.
pub proof fn law_only_the_initiator_closes_the_sink<H>(
    stage: ShutdownStage,
    unclaimed: usize,
    notifier: NotifierView<H>,
)
    ensures
        notifier_settled(false, stage, unclaimed, notifier).sink == notifier.sink,
        notifier_settled(true, stage, unclaimed, notifier).sink != notifier.sink
            ==> notifier_settled(true, stage, unclaimed, notifier).sink
            == notifier::CompletionSink::Closed,
{
}

/// Active tasks are waited for: a shutdown that finds some goes on only once a
/// look finds none or the time limit has passed.
pub proof fn law_shutdown_waits_for_active_tasks(
    active: nat,
    unclaimed: usize,
    joinable: bool,
    event: ShutdownEvent,
)
    requires
        active > 0,
    ensures
        stage_settled(first_stage(active), unclaimed, joinable) == ShutdownStage::AwaitActive,
        stage_settled(
            stage_after_event(ShutdownStage::AwaitActive, event),
            unclaimed,
            joinable,
        ) != ShutdownStage::AwaitActive ==> event == ShutdownEvent::Tick(0) || event
            == ShutdownEvent::ActiveTimeout,
{
}

/// Active tasks are looked at every 50 milliseconds for up to 30 seconds; a
/// dispatch loop and the notification worker are waited for up to 5 seconds each.
pub proof fn law_shutdown_limits(left: usize)
    ensures
        stage_action(ShutdownStage::AwaitActive) == ShutdownAction::WatchActive(50, 30_000),
        stage_action(ShutdownStage::JoinWorkers(left)) == ShutdownAction::JoinWorker(5_000),
        stage_action(ShutdownStage::AwaitNotifier) == ShutdownAction::JoinNotifier(5_000),
        stage_action(ShutdownStage::Done) == ShutdownAction::Finish,
{
}

/// A shutdown waits for active tasks exactly if it found some. Else, or once that
/// wait is over, it takes up all dispatch loops that nobody waits for, and only
/// when none is left it turns to the notification worker, which it claims, after
/// the call that started the shutdown has closed the sink.
pub proof fn law_shutdown_waits_in_order<H>(
    active: nat,
    initiator: bool,
    unclaimed: usize,
    notifier: NotifierView<H>,
)
    ensures
        active > 0 <==> first_stage(active) == ShutdownStage::AwaitActive,
        active > 0 ==> stage_settled(first_stage(active), unclaimed, notifier.joinable)
            == ShutdownStage::AwaitActive && unclaimed_settled(first_stage(active), unclaimed)
            == unclaimed && notifier_settled(initiator, first_stage(active), unclaimed, notifier)
            == notifier,
        active == 0 && unclaimed > 0 ==> stage_settled(
            first_stage(active),
            unclaimed,
            notifier.joinable,
        ) == ShutdownStage::JoinWorkers(unclaimed) && unclaimed_settled(
            first_stage(active),
            unclaimed,
        ) == 0 && notifier_settled(initiator, first_stage(active), unclaimed, notifier) == notifier,
        active == 0 && unclaimed == 0 ==> stage_settled(
            first_stage(active),
            unclaimed,
            notifier.joinable,
        ) == (if notifier.joinable {
            ShutdownStage::AwaitNotifier
        } else {
            ShutdownStage::Done
        }) && notifier_settled(initiator, first_stage(active), unclaimed, notifier) == (
        NotifierView {
            joinable: false,
            sink: if initiator {
                notifier::CompletionSink::Closed
            } else {
                notifier.sink
            },
            ..notifier
        }),
{
}

/// Each wait ends with the event it is for or with its own time limit, and with no
/// other event.
pub proof fn law_waits_end_with_their_own_events(stage: ShutdownStage, event: ShutdownEvent)
    ensures
        stage_after_event(stage, event) != stage <==> match stage {
            ShutdownStage::AwaitActive => event == ShutdownEvent::Tick(0) || event
                == ShutdownEvent::ActiveTimeout,
            ShutdownStage::JoinWorkers(left) => left > 0 && (event == ShutdownEvent::WorkerEnded
                || event == ShutdownEvent::WorkerTimeout),
            ShutdownStage::AwaitNotifier => event == ShutdownEvent::NotifierEnded || event
                == ShutdownEvent::NotifierTimeout,
            _ => false,
        },
        stage_after_event(stage, event) != stage ==> match stage {
            ShutdownStage::AwaitActive => stage_after_event(stage, event)
                == ShutdownStage::ActiveOver,
            ShutdownStage::JoinWorkers(left) => stage_after_event(stage, event)
                == ShutdownStage::JoinWorkers((left - 1) as usize),
            _ => stage_after_event(stage, event) == ShutdownStage::Done,
        },
{
}

/// Only two stages need no waiting: a wait for active tasks that is over turns to
/// the dispatch loops that nobody waits for, and without dispatch loops left the
/// notification worker is next, or the end. Every other stage stays as it is and
/// leaves dispatch loops and notifier alone.
pub proof fn law_stages_settle<H>(
    stage: ShutdownStage,
    initiator: bool,
    unclaimed: usize,
    notifier: NotifierView<H>,
)
    ensures
        ({
            let over = stage == ShutdownStage::ActiveOver;
            let last = stage == ShutdownStage::JoinWorkers(0) || (over && unclaimed == 0);
            let settled = stage_settled(stage, unclaimed, notifier.joinable);
            let after = notifier_settled(initiator, stage, unclaimed, notifier);
            &&& over && unclaimed > 0 ==> settled == ShutdownStage::JoinWorkers(unclaimed)
            &&& last && notifier.joinable ==> settled == ShutdownStage::AwaitNotifier
            &&& last && !notifier.joinable ==> settled == ShutdownStage::Done
            &&& last ==> !after.joinable && after.sink == (if initiator {
                notifier::CompletionSink::Closed
            } else {
                notifier.sink
            }) && after == (NotifierView { joinable: false, sink: after.sink, ..notifier })
            &&& !last ==> after == notifier
            &&& !last && !over ==> settled == stage
            &&& over ==> unclaimed_settled(stage, unclaimed) == 0
            &&& !over ==> unclaimed_settled(stage, unclaimed) == unclaimed
        }),
{
}

} // verus!
