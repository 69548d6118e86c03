//! What became of a reset that was fired: won, lost, or not known yet.
//!
//! Our signatures and the board are watched for a number of ticks. Our own
//! confirmation always wins over a bare board advance, so a win is never
//! reported as a loss.
use crate::chain::Signature;
use vstd::prelude::*;

verus! {

/// Milliseconds between two looks at the chain.
pub const SLEEP_MS: u64 = 400;

/// Ticks for which an outcome is watched for after each fire.
pub const POLL_ITERS: u64 = 12;

/// Times our signatures are looked up again once the round has advanced.
pub const GRACE_CHECKS: u64 = 3;

/// What happened to a round that we tried to reset.
#[derive(Clone, Copy, Debug, PartialEq, Eq)]
pub enum Outcome {
    /// Our transaction confirmed and advanced the round.
    Won(Signature),
    /// The round advanced, but not by us.
    Lost(u64),
}

/// What the watch wants done next.
#[derive(Clone, Copy, Debug, PartialEq, Eq)]
pub enum PollAction {
    /// Wait this many milliseconds.
    Sleep(u64),
    /// Look up whether this signature has confirmed successfully.
    ReadStatus(Signature),
    /// Read which round the board is at.
    ReadBoard,
    /// Nothing more: this is what is known.
    Done(Option<Outcome>),
}

/// The answer to a [`PollAction`].
#[derive(Clone, Copy, Debug, PartialEq, Eq)]
pub enum PollEvent {
    Slept,
    /// Whether the signature has confirmed successfully.
    Status(bool),
    /// The round of the board, if it could be read.
    Board(Option<u64>),
}

/// Where a watch stands.
#[derive(Clone, Copy)]
pub enum PollPhase {
    /// Before the lookups of tick `tick`.
    Pausing { tick: u64 },
    /// Signature `next` is being looked up.
    Checking { tick: u64, next: usize },
    /// The board is being read.
    Board { tick: u64 },
    /// The board is at `round`; signature `next` is being looked up again.
    GraceChecking { round: u64, check: u64, next: usize },
    /// The board is at `round`; a pause after lookup `check` of all signatures.
    GracePausing { round: u64, check: u64 },
    Ended(Option<Outcome>),
}

/// The state of a watch.
#[verifier::ext_equal]
pub struct PollModel {
    pub signatures: Seq<Signature>,
    pub next_round_id: u64,
    pub phase: PollPhase,
}

impl PollModel {
    pub open spec fn start(signatures: Seq<Signature>, next_round_id: u64) -> PollModel {
        PollModel { signatures, next_round_id, phase: PollPhase::Pausing { tick: 0 } }
    }

    /// What every state of a watch keeps.
    pub open spec fn wf(self) -> bool {
        match self.phase {
            PollPhase::Pausing { tick } => tick < POLL_ITERS,
            PollPhase::Checking { tick, next } => tick < POLL_ITERS && next
                < self.signatures.len(),
            PollPhase::Board { tick } => tick < POLL_ITERS,
            PollPhase::GraceChecking { round, check, next } => {
                &&& round >= self.next_round_id
                &&& check < GRACE_CHECKS
                &&& next < self.signatures.len()
            },
            PollPhase::GracePausing { round, check } => {
                &&& round >= self.next_round_id
                &&& check < GRACE_CHECKS
            },
            PollPhase::Ended(Some(Outcome::Won(signature))) => self.signatures.contains(signature),
            PollPhase::Ended(Some(Outcome::Lost(round))) => round >= self.next_round_id,
            PollPhase::Ended(None) => true,
        }
    }

    /// Look up signature `next`, or go on to the board behind the last one.
    pub open spec fn look_up(self, tick: u64, next: nat) -> PollPhase {
        if next < self.signatures.len() {
            PollPhase::Checking { tick, next: next as usize }
        } else {
            PollPhase::Board { tick }
        }
    }

    /// Look up signature `next` again, or pause behind the last one.
    pub open spec fn look_again(self, round: u64, check: u64, next: nat) -> PollPhase {
        if next < self.signatures.len() {
            PollPhase::GraceChecking { round, check, next: next as usize }
        } else {
            PollPhase::GracePausing { round, check }
        }
    }

    /// The phase after `event`; one that was not asked for changes nothing.
    pub open spec fn phase_after(self, event: PollEvent) -> PollPhase {
        match (self.phase, event) {
            (PollPhase::Pausing { tick }, PollEvent::Slept) => self.look_up(tick, 0),
            (PollPhase::Checking { tick, next }, PollEvent::Status(confirmed)) => if confirmed {
                PollPhase::Ended(Some(Outcome::Won(self.signatures[next as int])))
            } else {
                self.look_up(tick, next as nat + 1)
            },
            (PollPhase::Board { tick }, PollEvent::Board(seen)) => match seen {
                Some(round) if round >= self.next_round_id => self.look_again(round, 0, 0),
                _ => if tick + 1 < POLL_ITERS {
                    PollPhase::Pausing { tick: (tick + 1) as u64 }
                } else {
                    PollPhase::Ended(None)
                },
            },
            (
                PollPhase::GraceChecking { round, check, next },
                PollEvent::Status(confirmed),
            ) => if confirmed {
                PollPhase::Ended(Some(Outcome::Won(self.signatures[next as int])))
            } else {
                self.look_again(round, check, next as nat + 1)
            },
            (PollPhase::GracePausing { round, check }, PollEvent::Slept) => if check + 1
                < GRACE_CHECKS {
                self.look_again(round, (check + 1) as u64, 0)
            } else {
                PollPhase::Ended(Some(Outcome::Lost(round)))
            },
            _ => self.phase,
        }
    }

    pub open spec fn after(self, event: PollEvent) -> PollModel {
        PollModel { phase: self.phase_after(event), ..self }
    }

    /// The state after all of `events`.
    pub open spec fn after_all(self, events: Seq<PollEvent>) -> PollModel
        decreases events.len(),
    {
        if events.len() == 0 {
            self
        } else {
            self.after_all(events.drop_last()).after(events.last())
        }
    }

    /// What the watch wants done in this state.
    pub open spec fn wants(self) -> PollAction {
        match self.phase {
            PollPhase::Pausing { .. } => PollAction::Sleep(SLEEP_MS),
            PollPhase::Checking { next, .. } => PollAction::ReadStatus(
                self.signatures[next as int],
            ),
            PollPhase::Board { .. } => PollAction::ReadBoard,
            PollPhase::GraceChecking { next, .. } => PollAction::ReadStatus(
                self.signatures[next as int],
            ),
            PollPhase::GracePausing { .. } => PollAction::Sleep(SLEEP_MS),
            PollPhase::Ended(outcome) => PollAction::Done(outcome),
        }
    }

    /// Whether `event` answers what the watch asked for.
    pub open spec fn awaits(self, event: PollEvent) -> bool {
        match self.wants() {
            PollAction::Sleep(_) => event is Slept,
            PollAction::ReadStatus(_) => event is Status,
            PollAction::ReadBoard => event is Board,
            PollAction::Done(_) => false,
        }
    }
}

/// A watch in progress.
pub struct OutcomePoll {
    signatures: Vec<Signature>,
    next_round_id: u64,
    phase: PollPhase,
}

impl View for OutcomePoll {
    type V = PollModel;

    closed spec fn view(&self) -> PollModel {
        PollModel {
            signatures: self.signatures@,
            next_round_id: self.next_round_id,
            phase: self.phase,
        }
    }
}

/// Starts to watch for the outcome of a round: one of `signatures` confirms,
/// or the board gets to `next_round_id`.
pub fn poll_outcome(signatures: Vec<Signature>, next_round_id: u64) -> (poll: OutcomePoll)
    ensures
        poll@ == PollModel::start(signatures@, next_round_id),
        poll@.signatures == signatures@,
        poll@.next_round_id == next_round_id,
{
    OutcomePoll { signatures, next_round_id, phase: PollPhase::Pausing { tick: 0 } }
}

impl OutcomePoll {
    #[verifier::type_invariant]
    spec fn inv(self) -> bool {
        self@.wf()
    }

    /// What is wanted next.
    pub fn action(&self) -> (action: PollAction)
        ensures
            action == self@.wants(),
    {
        proof {
            use_type_invariant(self);
        }
        match self.phase {
            PollPhase::Pausing { .. } => PollAction::Sleep(SLEEP_MS),
            PollPhase::Checking { next, .. } => PollAction::ReadStatus(self.signatures[next]),
            PollPhase::Board { .. } => PollAction::ReadBoard,
            PollPhase::GraceChecking { next, .. } => PollAction::ReadStatus(self.signatures[next]),
            PollPhase::GracePausing { .. } => PollAction::Sleep(SLEEP_MS),
            PollPhase::Ended(outcome) => PollAction::Done(outcome),
        }
    }

    fn look_up(&self, tick: u64, next: usize) -> (phase: PollPhase)
        ensures
            phase == self@.look_up(tick, next as nat),
    {
        if next < self.signatures.len() {
            PollPhase::Checking { tick, next }
        } else {
            PollPhase::Board { tick }
        }
    }

    fn look_again(&self, round: u64, check: u64, next: usize) -> (phase: PollPhase)
        ensures
            phase == self@.look_again(round, check, next as nat),
    {
        if next < self.signatures.len() {
            PollPhase::GraceChecking { round, check, next }
        } else {
            PollPhase::GracePausing { round, check }
        }
    }

    /// Takes in the answer to the last action.
    pub fn on_event(self, event: PollEvent) -> (next: OutcomePoll)
        ensures
            next@ == self@.after(event),
    {
        proof {
            use_type_invariant(&self);
        }
        let count: usize = self.signatures.len();
        assert(count == self@.signatures.len());
        let phase = match (self.phase, event) {
            (PollPhase::Pausing { tick }, PollEvent::Slept) => self.look_up(tick, 0),
            (PollPhase::Checking { tick, next }, PollEvent::Status(confirmed)) => if confirmed {
                PollPhase::Ended(Some(Outcome::Won(self.signatures[next])))
            } else {
                self.look_up(tick, next + 1)
            },
            (PollPhase::Board { tick }, PollEvent::Board(seen)) => match seen {
                Some(round) if round >= self.next_round_id => self.look_again(round, 0, 0),
                _ => if tick + 1 < POLL_ITERS {
                    PollPhase::Pausing { tick: tick + 1 }
                } else {
                    PollPhase::Ended(None)
                },
            },
            (
                PollPhase::GraceChecking { round, check, next },
                PollEvent::Status(confirmed),
            ) => if confirmed {
                PollPhase::Ended(Some(Outcome::Won(self.signatures[next])))
            } else {
                self.look_again(round, check, next + 1)
            },
            (PollPhase::GracePausing { round, check }, PollEvent::Slept) => if check + 1
                < GRACE_CHECKS {
                self.look_again(round, check + 1, 0)
            } else {
                PollPhase::Ended(Some(Outcome::Lost(round)))
            },
            _ => self.phase,
        };
        proof {
            assert(phase == self@.phase_after(event));
            lemma_after_keeps_wf(self@, event);
        }
        OutcomePoll { phase, ..self }
    }
}

pub proof fn lemma_after_keeps_wf(state: PollModel, event: PollEvent)
    requires
        state.wf(),
        state.signatures.len() <= usize::MAX,
    ensures
        state.after(event).wf(),
{
}

pub proof fn lemma_states_stay_valid(
    signatures: Seq<Signature>,
    next_round_id: u64,
    events: Seq<PollEvent>,
)
    requires
        signatures.len() <= usize::MAX,
    ensures
        PollModel::start(signatures, next_round_id).after_all(events).wf(),
        PollModel::start(signatures, next_round_id).after_all(events).signatures == signatures,
        PollModel::start(signatures, next_round_id).after_all(events).next_round_id
            == next_round_id,
    decreases events.len(),
{
    if events.len() > 0 {
        lemma_states_stay_valid(signatures, next_round_id, events.drop_last());
        lemma_after_keeps_wf(
            PollModel::start(signatures, next_round_id).after_all(events.drop_last()),
            events.last(),
        );
    }
}

proof fn lemma_ended_stays(state: PollModel, events: Seq<PollEvent>, k: int)
    requires
        0 <= k <= events.len(),
        state.after_all(events.take(k)).phase is Ended,
    ensures
        state.after_all(events).phase == state.after_all(events.take(k)).phase,
    decreases events.len() - k,
{
    if k < events.len() {
        assert(events.take(k + 1).drop_last() =~= events.take(k));
        assert(events.take(k + 1).last() == events[k]);
        lemma_ended_stays(state, events, k + 1);
    } else {
        assert(events.take(k) =~= events);
    }
}

/// A win is never reported as a loss: once one of our signatures is seen to
/// have confirmed, whatever the board says, the watch ends with that win.
pub proof fn law_confirmation_wins(
    signatures: Seq<Signature>,
    next_round_id: u64,
    events: Seq<PollEvent>,
    k: int,
    signature: Signature,
)
    requires
        0 <= k < events.len(),
        PollModel::start(signatures, next_round_id).after_all(events.take(k)).wants()
            == PollAction::ReadStatus(signature),
        events[k] == PollEvent::Status(true),
    ensures
        PollModel::start(signatures, next_round_id).after_all(events).phase == PollPhase::Ended(
            Some(Outcome::Won(signature)),
        ),
{
    let start = PollModel::start(signatures, next_round_id);
    assert(events.take(k + 1).drop_last() =~= events.take(k));
    assert(events.take(k + 1).last() == events[k]);
    lemma_ended_stays(start, events, k + 1);
}

/// A win is never made up: a watch that ends with one was told that this
/// signature, which is ours, has confirmed.
pub proof fn law_win_was_confirmed(
    signatures: Seq<Signature>,
    next_round_id: u64,
    events: Seq<PollEvent>,
    signature: Signature,
)
    requires
        signatures.len() <= usize::MAX,
        PollModel::start(signatures, next_round_id).after_all(events).phase == PollPhase::Ended(
            Some(Outcome::Won(signature)),
        ),
    ensures
        signatures.contains(signature),
        exists|k: int|
            0 <= k < events.len() && #[trigger] events[k] == PollEvent::Status(true)
                && PollModel::start(signatures, next_round_id).after_all(events.take(k)).wants()
                == PollAction::ReadStatus(signature),
    decreases events.len(),
{
    let start = PollModel::start(signatures, next_round_id);
    lemma_states_stay_valid(signatures, next_round_id, events);
    if events.len() > 0 {
        let earlier = events.drop_last();
        let before = start.after_all(earlier);
        assert(events.take(events.len() - 1) =~= earlier);
        if before.phase is Ended {
            law_win_was_confirmed(signatures, next_round_id, earlier, signature);
            let k = choose|k: int|
                0 <= k < earlier.len() && #[trigger] earlier[k] == PollEvent::Status(true)
                    && start.after_all(earlier.take(k)).wants() == PollAction::ReadStatus(
                    signature,
                );
            assert(events[k] == earlier[k]);
            assert(events.take(k) =~= earlier.take(k));
        } else {
            assert(events[events.len() - 1] == PollEvent::Status(true));
        }
    }
}

/// A loss is only called where the round has advanced: the board was seen at
/// the round that the loss names, which is the next one or a later one.
pub proof fn law_loss_was_seen(
    signatures: Seq<Signature>,
    next_round_id: u64,
    events: Seq<PollEvent>,
    round: u64,
)
    requires
        signatures.len() <= usize::MAX,
        PollModel::start(signatures, next_round_id).after_all(events).phase == PollPhase::Ended(
            Some(Outcome::Lost(round)),
        ),
    ensures
        round >= next_round_id,
        exists|k: int|
            0 <= k < events.len() && #[trigger] events[k] == PollEvent::Board(Some(round))
                && PollModel::start(signatures, next_round_id).after_all(events.take(k)).wants()
                is ReadBoard,
{
    lemma_states_stay_valid(signatures, next_round_id, events);
    lemma_round_was_seen(signatures, next_round_id, events, round);
}

/// The round that a watch has seen the board at, if it has advanced.
spec fn seen_round(state: PollModel) -> Option<u64> {
    match state.phase {
        PollPhase::GraceChecking { round, .. } => Some(round),
        PollPhase::GracePausing { round, .. } => Some(round),
        PollPhase::Ended(Some(Outcome::Lost(round))) => Some(round),
        _ => None,
    }
}

proof fn lemma_round_was_seen(
    signatures: Seq<Signature>,
    next_round_id: u64,
    events: Seq<PollEvent>,
    round: u64,
)
    requires
        seen_round(PollModel::start(signatures, next_round_id).after_all(events)) == Some(round),
    ensures
        exists|k: int|
            0 <= k < events.len() && #[trigger] events[k] == PollEvent::Board(Some(round))
                && PollModel::start(signatures, next_round_id).after_all(events.take(k)).wants()
                is ReadBoard,
    decreases events.len(),
{
    let start = PollModel::start(signatures, next_round_id);
    if events.len() > 0 {
        let earlier = events.drop_last();
        let before = start.after_all(earlier);
        assert(events.take(events.len() - 1) =~= earlier);
        if seen_round(before) == Some(round) {
            lemma_round_was_seen(signatures, next_round_id, earlier, round);
            let k = choose|k: int|
                0 <= k < earlier.len() && #[trigger] earlier[k] == PollEvent::Board(Some(round))
                    && start.after_all(earlier.take(k)).wants() is ReadBoard;
            assert(events[k] == earlier[k]);
            assert(events.take(k) =~= earlier.take(k));
        } else {
            assert(events[events.len() - 1] == PollEvent::Board(Some(round)));
        }
    }
}

impl PollModel {
    /// The phase `steps` answers after the board was seen at `round`, while
    /// none of our signatures confirms: each look at all of them takes one
    /// answer per signature, and one for the pause.
    pub open spec fn grace_phase(self, round: u64, steps: nat) -> PollPhase {
        let lap = self.signatures.len() + 1;
        if steps < lap {
            self.look_again(round, 0, steps)
        } else if steps < 2 * lap {
            self.look_again(round, 1, (steps - lap) as nat)
        } else if steps < 3 * lap {
            self.look_again(round, 2, (steps - 2 * lap) as nat)
        } else {
            PollPhase::Ended(Some(Outcome::Lost(round)))
        }
    }

    /// An upper bound on the answers that a watch still takes.
    pub open spec fn left(self) -> int {
        let count = self.signatures.len();
        let grace = GRACE_CHECKS * (count + 1);
        match self.phase {
            PollPhase::Pausing { tick } => (POLL_ITERS - tick) * (count + 2) + grace,
            PollPhase::Checking { tick, next } => (POLL_ITERS - tick) * (count + 2) - 1 - next
                + grace,
            PollPhase::Board { tick } => (POLL_ITERS - tick) * (count + 2) - 1 - count + grace,
            PollPhase::GraceChecking { check, next, .. } => (GRACE_CHECKS - check) * (count + 1)
                - next,
            PollPhase::GracePausing { check, .. } => (GRACE_CHECKS - check) * (count + 1) - count,
            PollPhase::Ended(_) => 0,
        }
    }
}

/// Our own transaction is given time to surface before a loss is called: once
/// the board has advanced, every one of our signatures is looked up three more
/// times, with a pause behind each look, before the loss.
pub proof fn law_loss_comes_after_three_looks(
    state: PollModel,
    round: u64,
    events: Seq<PollEvent>,
)
    requires
        state.signatures.len() <= usize::MAX,
        state.phase is Board,
        round >= state.next_round_id,
        events.len() > 0,
        events[0] == PollEvent::Board(Some(round)),
        forall|k: int|
            0 <= k < events.len() ==> state.after_all(events.take(k)).awaits(#[trigger] events[k]),
        forall|k: int| 0 <= k < events.len() ==> #[trigger] events[k] != PollEvent::Status(true),
    ensures
        events.len() <= 1 + 3 * (state.signatures.len() + 1),
        state.after_all(events).phase == state.grace_phase(round, (events.len() - 1) as nat),
    decreases events.len(),
{
    let earlier = events.drop_last();
    assert(events.take(events.len() - 1) =~= earlier);
    if events.len() == 1 {
        assert(earlier =~= Seq::<PollEvent>::empty());
        assert(state.after_all(earlier) == state);
    } else {
        assert forall|k: int| 0 <= k < earlier.len() implies state.after_all(
            earlier.take(k),
        ).awaits(#[trigger] earlier[k]) by {
            assert(earlier[k] == events[k]);
            assert(earlier.take(k) =~= events.take(k));
        }
        assert forall|k: int| 0 <= k < earlier.len() implies #[trigger] earlier[k]
            != PollEvent::Status(true) by {
            assert(earlier[k] == events[k]);
        }
        law_loss_comes_after_three_looks(state, round, earlier);
        lemma_same_watch(state, earlier);
        let last = events.last();
        assert(last == events[events.len() - 1]);
        lemma_grace_step(state.after_all(earlier), round, (earlier.len() - 1) as nat, last);
    }
}

proof fn lemma_grace_step(state: PollModel, round: u64, steps: nat, event: PollEvent)
    requires
        state.signatures.len() <= usize::MAX,
        state.phase == state.grace_phase(round, steps),
        state.awaits(event),
        event != PollEvent::Status(true),
    ensures
        steps < 3 * (state.signatures.len() + 1),
        state.after(event).phase == state.grace_phase(round, steps + 1),
{
    let lap = state.signatures.len() + 1;
    assert(event == PollEvent::Slept || event == PollEvent::Status(false)) by {
        match event {
            PollEvent::Status(confirmed) => {
                assert(!confirmed);
            },
            _ => {},
        }
    }
    if steps < lap {
    } else if steps < 2 * lap {
    } else if steps < 3 * lap {
    }
}

proof fn lemma_same_watch(state: PollModel, events: Seq<PollEvent>)
    ensures
        state.after_all(events).signatures == state.signatures,
        state.after_all(events).next_round_id == state.next_round_id,
    decreases events.len(),
{
    if events.len() > 0 {
        lemma_same_watch(state, events.drop_last());
    }
}

/// A watch ends: it takes at most one answer per tick for the pause, one for
/// the board and one for each signature, and the three looks of the grace.
pub proof fn law_watch_ends(
    signatures: Seq<Signature>,
    next_round_id: u64,
    events: Seq<PollEvent>,
)
    requires
        signatures.len() <= usize::MAX,
        forall|k: int|
            0 <= k < events.len() ==> PollModel::start(signatures, next_round_id).after_all(
                events.take(k),
            ).awaits(#[trigger] events[k]),
    ensures
        events.len() <= POLL_ITERS * (signatures.len() + 2) + GRACE_CHECKS * (signatures.len()
            + 1),
        events.len() + PollModel::start(signatures, next_round_id).after_all(events).left()
            <= POLL_ITERS * (signatures.len() + 2) + GRACE_CHECKS * (signatures.len() + 1),
        PollModel::start(signatures, next_round_id).after_all(events).left() >= 0,
        PollModel::start(signatures, next_round_id).after_all(events).left() == 0
            <==> PollModel::start(signatures, next_round_id).after_all(events).phase is Ended,
    decreases events.len(),
{
    let start = PollModel::start(signatures, next_round_id);
    lemma_states_stay_valid(signatures, next_round_id, events);
    lemma_left_bounds(start.after_all(events));
    if events.len() > 0 {
        let earlier = events.drop_last();
        assert(events.take(events.len() - 1) =~= earlier);
        assert forall|k: int| 0 <= k < earlier.len() implies start.after_all(
            earlier.take(k),
        ).awaits(#[trigger] earlier[k]) by {
            assert(earlier[k] == events[k]);
            assert(earlier.take(k) =~= events.take(k));
        }
        law_watch_ends(signatures, next_round_id, earlier);
        lemma_states_stay_valid(signatures, next_round_id, earlier);
        let last = events.last();
        assert(last == events[events.len() - 1]);
        lemma_left_step(start.after_all(earlier), last);
    }
}

proof fn lemma_left_bounds(state: PollModel)
    requires
        state.wf(),
    ensures
        state.left() >= 0,
        state.left() == 0 <==> state.phase is Ended,
{
    let count = state.signatures.len() as int;
    match state.phase {
        PollPhase::Pausing { tick } => {
            assert((POLL_ITERS - tick) * (count + 2) >= count + 2) by (nonlinear_arith)
                requires
                    POLL_ITERS - tick >= 1,
                    count >= 0,
            ;
        },
        PollPhase::Checking { tick, next } => {
            assert((POLL_ITERS - tick) * (count + 2) >= count + 2) by (nonlinear_arith)
                requires
                    POLL_ITERS - tick >= 1,
                    count >= 0,
            ;
        },
        PollPhase::Board { tick } => {
            assert((POLL_ITERS - tick) * (count + 2) >= count + 2) by (nonlinear_arith)
                requires
                    POLL_ITERS - tick >= 1,
                    count >= 0,
            ;
        },
        PollPhase::GraceChecking { check, .. } => {
            assert((GRACE_CHECKS - check) * (count + 1) >= count + 1) by (nonlinear_arith)
                requires
                    GRACE_CHECKS - check >= 1,
                    count >= 0,
            ;
        },
        PollPhase::GracePausing { check, .. } => {
            assert((GRACE_CHECKS - check) * (count + 1) >= count + 1) by (nonlinear_arith)
                requires
                    GRACE_CHECKS - check >= 1,
                    count >= 0,
            ;
        },
        PollPhase::Ended(_) => {},
    }
}

proof fn lemma_left_step(state: PollModel, event: PollEvent)
    requires
        state.wf(),
        state.signatures.len() <= usize::MAX,
        state.awaits(event),
    ensures
        state.after(event).left() < state.left(),
{
    let count = state.signatures.len() as int;
    lemma_left_bounds(state);
    match state.phase {
        PollPhase::Board { tick } => {
            assert((POLL_ITERS - (tick + 1)) * (count + 2) == (POLL_ITERS - tick) * (count + 2) - (
            count + 2)) by (nonlinear_arith);
            assert((POLL_ITERS - tick) * (count + 2) >= count + 2) by (nonlinear_arith)
                requires
                    POLL_ITERS - tick >= 1,
                    count >= 0,
            ;
        },
        PollPhase::GracePausing { check, .. } => {
            assert((GRACE_CHECKS - (check + 1)) * (count + 1) == (GRACE_CHECKS - check) * (count
                + 1) - (count + 1)) by (nonlinear_arith);
        },
        _ => {},
    }
}

} // verus!
