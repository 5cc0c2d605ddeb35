//! Cancellation and completion flags, and the protocol by which a task waits
//! for its cancellation.

use std::collections::HashMap;
use vstd::prelude::*;

use crate::behaviour;

verus! {

broadcast use vstd::std_specs::hash::group_hash_axioms;

/// Cancellation and completion flags of one task.
///
/// Cancellation is monotonic: once set it never clears.
#[derive(Debug, Clone, Copy, PartialEq, Eq, Structural)]
pub struct CancelState {
    /// Cancellation was requested.
    pub cancelled: bool,
    /// The task is done.
    pub finished: bool,
}

impl CancelState {
    /// Neither cancelled nor finished.
    pub fn new() -> (state: CancelState)
        ensures
            state == (CancelState { cancelled: false, finished: false }),
    {
        CancelState { cancelled: false, finished: false }
    }

    /// Tells whether cancellation was requested.
    pub fn is_cancelled(&self) -> (cancelled: bool)
        ensures
            cancelled == self.cancelled,
    {
        self.cancelled
    }

    /// Requests cancellation.
    pub fn cancel(&mut self)
        ensures
            *final(self) == (CancelState { cancelled: true, ..*old(self) }),
    {
        self.cancelled = true;
    }

    /// Marks the task done, so that a later sweep can reclaim its slot.
    pub fn mark_finished(&mut self)
        ensures
            *final(self) == (CancelState { finished: true, ..*old(self) }),
    {
        self.finished = true;
    }

    /// Tells whether the task is done.
    pub fn is_finished(&self) -> (finished: bool)
        ensures
            finished == self.finished,
    {
        self.finished
    }
}

/// A one-shot cancellation signal for a whole pool.
#[derive(Debug, Clone, Copy, PartialEq, Eq, Structural)]
pub struct CancellationToken {
    state: CancelState,
}

impl CancellationToken {
    /// The signal was given.
    pub closed spec fn signalled(self) -> bool {
        self.state.cancelled
    }

    /// A signal that was not given yet.
    pub fn new() -> (token: CancellationToken)
        ensures
            !token.signalled(),
    {
        CancellationToken { state: CancelState::new() }
    }

    /// Tells whether the signal was given.
    pub fn is_cancelled(&self) -> (cancelled: bool)
        ensures
            cancelled == self.signalled(),
    {
        self.state.is_cancelled()
    }

    /// Gives the signal.
    pub fn cancel(&mut self)
        ensures
            final(self).signalled(),
    {
        self.state.cancel();
    }
}

/// What the pool keeps about the token of one task.
#[derive(Debug, Clone, Copy, PartialEq, Eq, Structural)]
pub struct TokenRecord {
    /// The flags.
    pub state: CancelState,
    /// The handle of the task is gone.
    pub handle_dropped: bool,
}

/// The record of a task whose cancellation was requested.
pub open spec fn cancelled_record(record: TokenRecord) -> TokenRecord {
    TokenRecord { state: CancelState { cancelled: true, ..record.state }, ..record }
}

/// Cancellation was requested for task `id`.
pub open spec fn token_cancelled(tokens: Map<u64, TokenRecord>, id: u64) -> bool {
    tokens.contains_key(id) && tokens[id].state.cancelled
}

/// Task `id` is done, or was never known.
pub open spec fn token_finished(tokens: Map<u64, TokenRecord>, id: u64) -> bool {
    !tokens.contains_key(id) || tokens[id].state.finished
}

/// The tokens once a fresh one stands for task `id`.
pub open spec fn tokens_after_register(tokens: Map<u64, TokenRecord>, id: u64) -> Map<
    u64,
    TokenRecord,
> {
    tokens.insert(
        id,
        TokenRecord {
            state: CancelState { cancelled: false, finished: false },
            handle_dropped: false,
        },
    )
}

/// The tokens once cancellation of every task in `ids` was requested.
pub open spec fn tokens_after_cancel(tokens: Map<u64, TokenRecord>, ids: Set<u64>) -> Map<
    u64,
    TokenRecord,
> {
    tokens.map_entries(
        |id: u64, record: TokenRecord|
            if ids.contains(id) {
                cancelled_record(record)
            } else {
                record
            },
    )
}

/// The tokens once task `id` is done. The record stays while a handle needs it.
pub open spec fn tokens_after_finish(tokens: Map<u64, TokenRecord>, id: u64) -> Map<
    u64,
    TokenRecord,
> {
    if !tokens.contains_key(id) {
        tokens
    } else if tokens[id].handle_dropped {
        tokens.remove(id)
    } else {
        tokens.insert(
            id,
            TokenRecord {
                state: CancelState { finished: true, ..tokens[id].state },
                ..tokens[id]
            },
        )
    }
}

/// The tokens once every task in `ids` is done.
pub open spec fn tokens_after_finish_all(tokens: Map<u64, TokenRecord>, ids: Set<u64>) -> Map<
    u64,
    TokenRecord,
> {
    Map::new(
        |id: u64| tokens.contains_key(id) && !(ids.contains(id) && tokens[id].handle_dropped),
        |id: u64|
            if ids.contains(id) {
                TokenRecord {
                    state: CancelState { finished: true, ..tokens[id].state },
                    ..tokens[id]
                }
            } else {
                tokens[id]
            },
    )
}

/// The tokens once the handle of task `id` is gone. The record stays while the
/// task needs it.
pub open spec fn tokens_after_handle_drop(tokens: Map<u64, TokenRecord>, id: u64) -> Map<
    u64,
    TokenRecord,
> {
    if !tokens.contains_key(id) {
        tokens
    } else if tokens[id].state.finished {
        tokens.remove(id)
    } else {
        tokens.insert(id, TokenRecord { handle_dropped: true, ..tokens[id] })
    }
}

proof fn lemma_set_of_next(ids: Seq<u64>, n: int)
    requires
        0 <= n < ids.len(),
    ensures
        ids.take(n + 1).to_set() == ids.take(n).to_set().insert(ids[n]),
{
    let head = ids.take(n);
    let next = ids.take(n + 1);
    assert forall|id: u64|
        next.to_set().contains(id) <==> head.to_set().insert(ids[n]).contains(id) by {
        if head.contains(id) {
            let k = choose|k: int| 0 <= k < head.len() && head[k] == id;
            assert(next[k] == id);
        }
        if id == ids[n] {
            assert(next[n] == id);
        }
        if next.contains(id) {
            let k = choose|k: int| 0 <= k < next.len() && next[k] == id;
            assert(k < n ==> head[k] == id);
        }
    }
    assert(next.to_set() =~= head.to_set().insert(ids[n]));
}

/// The tokens of all tasks that are waiting, running or still held by a handle.
pub struct TokenTable {
    records: HashMap<u64, TokenRecord>,
}

impl View for TokenTable {
    type V = Map<u64, TokenRecord>;

    closed spec fn view(&self) -> Map<u64, TokenRecord> {
        self.records@
    }
}

impl TokenTable {
    /// No token.
    pub fn new() -> (table: TokenTable)
        ensures
            table@ == Map::<u64, TokenRecord>::empty(),
    {
        TokenTable { records: HashMap::new() }
    }

    /// Adds a fresh token for task `id`.
    pub fn register(&mut self, id: u64)
        ensures
            final(self)@ == tokens_after_register(old(self)@, id),
    {
        self.records.insert(
            id,
            TokenRecord { state: CancelState::new(), handle_dropped: false },
        );
    }

    /// Tells whether cancellation of task `id` was requested.
    pub fn is_cancelled(&self, id: u64) -> (cancelled: bool)
        ensures
            cancelled == token_cancelled(self@, id),
    {
        match self.records.get(&id) {
            Some(record) => record.state.is_cancelled(),
            None => false,
        }
    }

    /// Tells whether task `id` is done or unknown.
    pub fn is_finished(&self, id: u64) -> (finished: bool)
        ensures
            finished == token_finished(self@, id),
    {
        match self.records.get(&id) {
            Some(record) => record.state.is_finished(),
            None => true,
        }
    }

    /// Requests cancellation of task `id`.
    pub fn cancel(&mut self, id: u64)
        ensures
            final(self)@ == tokens_after_cancel(old(self)@, Set::<u64>::empty().insert(id)),
    {
        let found: Option<TokenRecord> = match self.records.get(&id) {
            Some(record) => Some(*record),
            None => None,
        };
        if let Some(record) = found {
            let mut state = record.state;
            state.cancel();
            self.records.insert(id, TokenRecord { state, handle_dropped: record.handle_dropped });
        }
        assert(self@ =~= tokens_after_cancel(old(self)@, Set::<u64>::empty().insert(id)));
    }

    /// Requests cancellation of every task in `ids`.
    pub fn cancel_all(&mut self, ids: &Vec<u64>)
        ensures
            final(self)@ == tokens_after_cancel(old(self)@, ids@.to_set()),
    {
        let mut i: usize = 0;
        assert(self@ =~= tokens_after_cancel(old(self)@, ids@.take(0).to_set()));
        while i < ids.len()
            invariant
                i <= ids.len(),
                self@ == tokens_after_cancel(old(self)@, ids@.take(i as int).to_set()),
            decreases ids.len() - i,
        {
            self.cancel(ids[i]);
            proof {
                lemma_set_of_next(ids@, i as int);
                assert(self@ =~= tokens_after_cancel(old(self)@, ids@.take(i + 1).to_set()));
            }
            i = i + 1;
        }
        assert(ids@.take(ids.len() as int) =~= ids@);
    }

    /// Marks task `id` done.
    pub fn mark_finished(&mut self, id: u64)
        ensures
            final(self)@ == tokens_after_finish(old(self)@, id),
    {
        let found: Option<TokenRecord> = match self.records.get(&id) {
            Some(record) => Some(*record),
            None => None,
        };
        if let Some(record) = found {
            if record.handle_dropped {
                self.records.remove(&id);
            } else {
                let mut state = record.state;
                state.mark_finished();
                self.records.insert(id, TokenRecord { state, handle_dropped: false });
            }
        }
    }

    /// Marks every task in `ids` done.
    pub fn finish_all(&mut self, ids: &Vec<u64>)
        ensures
            final(self)@ == tokens_after_finish_all(old(self)@, ids@.to_set()),
    {
        let mut i: usize = 0;
        assert(self@ =~= tokens_after_finish_all(old(self)@, ids@.take(0).to_set()));
        while i < ids.len()
            invariant
                i <= ids.len(),
                self@ == tokens_after_finish_all(old(self)@, ids@.take(i as int).to_set()),
            decreases ids.len() - i,
        {
            self.mark_finished(ids[i]);
            proof {
                lemma_set_of_next(ids@, i as int);
                assert(self@ =~= tokens_after_finish_all(old(self)@, ids@.take(i + 1).to_set()));
            }
            i = i + 1;
        }
        assert(ids@.take(ids.len() as int) =~= ids@);
    }

    /// Notes that the handle of task `id` is gone.
    pub fn drop_handle(&mut self, id: u64)
        ensures
            final(self)@ == tokens_after_handle_drop(old(self)@, id),
    {
        let found: Option<TokenRecord> = match self.records.get(&id) {
            Some(record) => Some(*record),
            None => None,
        };
        if let Some(record) = found {
            if record.state.is_finished() {
                self.records.remove(&id);
            } else {
                self.records.insert(id, TokenRecord { state: record.state, handle_dropped: true });
            }
        }
    }
}

/// Where a party that waits for a cancellation stands.
#[derive(Debug, Clone, Copy, PartialEq, Eq, Structural)]
pub enum WaitStage {
    /// About to look at the flag for the first time.
    Start,
    /// Saw no cancellation; about to register for the wake-up.
    Registering,
    /// Registered; about to look at the flag once more.
    Registered,
    /// Asleep until woken.
    Parked,
    /// The cancellation was seen.
    Resolved,
}

/// What a waiting party does next.
#[derive(Debug, Clone, Copy, PartialEq, Eq, Structural)]
pub enum WaitAction {
    /// Register for the wake-up, then call `registered`.
    Register,
    /// Sleep until woken, then look at the flag.
    Park,
    /// Stop waiting: the task is cancelled.
    Resolve,
}

/// The stage after a look at the flag that showed `cancelled`.
pub open spec fn stage_after_look(stage: WaitStage, cancelled: bool) -> WaitStage {
    match stage {
        WaitStage::Resolved => WaitStage::Resolved,
        WaitStage::Registered => if cancelled {
            WaitStage::Resolved
        } else {
            WaitStage::Parked
        },
        _ => if cancelled {
            WaitStage::Resolved
        } else {
            WaitStage::Registering
        },
    }
}

/// Waits for a cancellation flag without missing a signal.
///
/// A wake-up reaches only parties that are registered already, so the flag is
/// looked at once more between registering and going to sleep.
#[derive(Debug)]
pub struct CancelWait {
    stage: WaitStage,
}

impl CancelWait {
    /// The stage of the wait.
    pub closed spec fn spec_stage(self) -> WaitStage {
        self.stage
    }

    /// A wait that has not looked at the flag yet.
    pub fn new() -> (wait: CancelWait)
        ensures
            wait.spec_stage() == WaitStage::Start,
    {
        CancelWait { stage: WaitStage::Start }
    }

    /// The stage of the wait.
    pub fn stage(&self) -> (stage: WaitStage)
        ensures
            stage == self.spec_stage(),
    {
        self.stage
    }

    /// Decides what to do after the flag showed `cancelled`.
    pub fn look(&mut self, cancelled: bool) -> (action: WaitAction)
        ensures
            final(self).spec_stage() == stage_after_look(old(self).spec_stage(), cancelled),
            action == (match final(self).spec_stage() {
                WaitStage::Resolved => WaitAction::Resolve,
                WaitStage::Parked => WaitAction::Park,
                _ => WaitAction::Register,
            }),
    {
        match self.stage {
            WaitStage::Resolved => WaitAction::Resolve,
            WaitStage::Registered => {
                if cancelled {
                    self.stage = WaitStage::Resolved;
                    WaitAction::Resolve
                } else {
                    self.stage = WaitStage::Parked;
                    WaitAction::Park
                }
            },
            _ => {
                if cancelled {
                    self.stage = WaitStage::Resolved;
                    WaitAction::Resolve
                } else {
                    self.stage = WaitStage::Registering;
                    WaitAction::Register
                }
            },
        }
    }

    /// Notes that the registration for the wake-up is in place.
    pub fn registered(&mut self)
        ensures
            final(self).spec_stage() == (if old(self).spec_stage() == WaitStage::Registering {
                WaitStage::Registered
            } else {
                old(self).spec_stage()
            }),
    {
        if self.stage == WaitStage::Registering {
            self.stage = WaitStage::Registered;
        }
    }
}

/// A waiting party together with the flag it waits for.
pub struct WaitScene {
    /// The flag.
    pub cancelled: bool,
    /// Where the waiting party stands.
    pub stage: WaitStage,
    /// A wake-up was sent while the party was registered.
    pub woken: bool,
}

/// One step in a scene. Steps of the two parties interleave freely.
pub enum WaitStep {
    /// The waiting party looks at the flag; a sleeping one cannot.
    Look,
    /// The waiting party registers for the wake-up.
    Register,
    /// Someone sets the flag and wakes whoever is registered.
    Cancel,
}

/// The scene before anyone moved.
pub open spec fn wait_start() -> WaitScene {
    WaitScene { cancelled: false, stage: WaitStage::Start, woken: false }
}

/// The scene after one step. A step that its party cannot take changes nothing.
pub open spec fn wait_step(scene: WaitScene, step: WaitStep) -> WaitScene {
    match step {
        WaitStep::Look => if scene.stage == WaitStage::Parked && !scene.woken {
            scene
        } else if scene.stage == WaitStage::Registering {
            scene
        } else {
            WaitScene {
                stage: stage_after_look(scene.stage, scene.cancelled),
                woken: scene.woken && scene.stage == WaitStage::Registered,
                ..scene
            }
        },
        WaitStep::Register => if scene.stage == WaitStage::Registering {
            WaitScene { stage: WaitStage::Registered, woken: false, ..scene }
        } else {
            scene
        },
        WaitStep::Cancel => WaitScene {
            cancelled: true,
            woken: scene.woken || scene.stage == WaitStage::Registered || scene.stage
                == WaitStage::Parked,
            ..scene
        },
    }
}

/// The scene after `steps`, in order.
pub open spec fn wait_run(steps: Seq<WaitStep>) -> WaitScene
    decreases steps.len(),
{
    if steps.len() == 0 {
        wait_start()
    } else {
        wait_step(wait_run(steps.drop_last()), steps.last())
    }
}

/// No cancellation is missed: whatever the interleaving, a party that sleeps
/// although the flag is set has been woken, and nobody resolves before the flag
/// is set.
pub proof fn law_no_cancel_is_missed(steps: Seq<WaitStep>)
    ensures
        wait_run(steps).stage == WaitStage::Parked && wait_run(steps).cancelled ==> wait_run(
            steps,
        ).woken,
        wait_run(steps).stage == WaitStage::Resolved ==> wait_run(steps).cancelled,
    decreases steps.len(),
{
    if steps.len() > 0 {
        law_no_cancel_is_missed(steps.drop_last());
    }
}

/// Once the flag is set, a party that takes its next steps resolves: after a
/// look, a registration and another look the wait is over, and at once where
/// the party has not gone past its first look.
pub proof fn law_wait_ends_after_cancel(steps: Seq<WaitStep>)
    requires
        wait_run(steps).cancelled,
    ensures
        ({
            let first = wait_step(wait_run(steps), WaitStep::Look);
            let second = wait_step(first, WaitStep::Register);
            wait_step(second, WaitStep::Look).stage == WaitStage::Resolved
        }),
        wait_run(steps).stage == WaitStage::Start ==> wait_step(
            wait_run(steps),
            WaitStep::Look,
        ).stage == WaitStage::Resolved,
{
    law_no_cancel_is_missed(steps);
}

/// Cancellation is monotonic: no operation on the tokens takes a request back.
pub proof fn law_cancellation_is_monotonic(tokens: Map<u64, TokenRecord>, id: u64, other: u64, ids: Set<u64>)
    requires
        token_cancelled(tokens, id),
    ensures
        other != id ==> token_cancelled(tokens_after_register(tokens, other), id),
        token_cancelled(tokens_after_cancel(tokens, ids), id),
        tokens_after_finish(tokens, other).contains_key(id) ==> token_cancelled(
            tokens_after_finish(tokens, other),
            id,
        ),
        tokens_after_handle_drop(tokens, other).contains_key(id) ==> token_cancelled(
            tokens_after_handle_drop(tokens, other),
            id,
        ),
{
}

/// Each operation does to the tokens what its name says and nothing else.
pub proof fn law_token_operations_are_exact(tokens: Map<u64, TokenRecord>, id: u64, ids: Set<u64>)
    ensures
        behaviour::only_added(tokens, tokens_after_register(tokens, id), id),
        behaviour::only_cancelled(tokens, tokens_after_cancel(tokens, ids), ids),
        behaviour::only_finished(
            tokens,
            tokens_after_finish(tokens, id),
            Set::<u64>::empty().insert(id),
        ),
        behaviour::only_finished(tokens, tokens_after_finish_all(tokens, ids), ids),
        behaviour::only_detached(tokens, tokens_after_handle_drop(tokens, id), id),
        token_cancelled(tokens, id) <==> tokens.contains_key(id) && tokens[id].state.cancelled,
        token_finished(tokens, id) <==> (tokens.contains_key(id) ==> tokens[id].state.finished),
{
}

/// A look that shows the cancellation ends the wait, and nothing else does. Only a
/// party that has registered and looked once more goes to sleep.
pub proof fn law_only_the_registered_sleep(stage: WaitStage, cancelled: bool)
    ensures
        stage_after_look(stage, cancelled) == WaitStage::Resolved <==> cancelled || stage
            == WaitStage::Resolved,
        stage_after_look(stage, cancelled) == WaitStage::Parked <==> !cancelled && stage
            == WaitStage::Registered,
        stage_after_look(stage, cancelled) == WaitStage::Registering <==> !cancelled && stage
            != WaitStage::Registered && stage != WaitStage::Resolved,
{
}

} // verus!
