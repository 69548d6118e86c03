//! The watch for the outcome of a fired reset: whom it asks, in which order and
//! how often, and what it makes of true answers.
use crate::chain::Signature;
use crate::outcome::{Outcome, PollAction, PollEvent, PollModel, PollPhase};
use vstd::prelude::*;

verus! {

proof fn lemma_split(state: PollModel, a: Seq<PollEvent>, b: Seq<PollEvent>)
    ensures
        state.after_all(a + b) == state.after_all(a).after_all(b),
    decreases b.len(),
{
    if b.len() == 0 {
        assert(a + b =~= a);
    } else {
        lemma_split(state, a, b.drop_last());
        assert((a + b).drop_last() =~= a + b.drop_last());
        assert((a + b).last() == b.last());
    }
}

proof fn lemma_one(state: PollModel, event: PollEvent)
    ensures
        state.after_all(seq![event]) == state.after(event),
{
    let one = seq![event];
    assert(one.drop_last() =~= Seq::<PollEvent>::empty());
    assert(state.after_all(one.drop_last()) == state);
    assert(one.last() == event);
}

/// A watch starts with a pause of 400 ms, and then asks for each signature in
/// turn before it looks at the board.
pub proof fn law_watch_starts_with_a_pause(signatures: Seq<Signature>, next_round_id: u64)
    ensures
        PollModel::start(signatures, next_round_id).signatures == signatures,
        PollModel::start(signatures, next_round_id).next_round_id == next_round_id,
        PollModel::start(signatures, next_round_id).wants() == PollAction::Sleep(400),
        PollModel::start(signatures, next_round_id).after(PollEvent::Slept).wants()
            == if signatures.len() > 0 {
            PollAction::ReadStatus(signatures[0])
        } else {
            PollAction::ReadBoard
        },
{
}

/// The answers of a tick in which nothing happens: the pause is over, none of
/// `count` signatures has confirmed, and the board is read as `seen`.
pub open spec fn quiet_tick(count: nat, seen: Option<u64>) -> Seq<PollEvent> {
    seq![PollEvent::Slept] + Seq::new(count, |i: int| PollEvent::Status(false)) + seq![
        PollEvent::Board(seen),
    ]
}

proof fn lemma_quiet_prefix(state: PollModel, tick: u64, seen: Option<u64>, i: nat)
    requires
        state.signatures.len() <= usize::MAX,
        state.phase == (PollPhase::Pausing { tick }),
        i <= state.signatures.len(),
    ensures
        ({
            let now = state.after_all(
                quiet_tick(state.signatures.len(), seen).take(1 + i as int),
            );
            &&& now.signatures == state.signatures
            &&& now.next_round_id == state.next_round_id
            &&& now.phase == if i < state.signatures.len() {
                PollPhase::Checking { tick, next: i as usize }
            } else {
                PollPhase::Board { tick }
            }
        }),
    decreases i,
{
    let events = quiet_tick(state.signatures.len(), seen);
    if i == 0 {
        assert(events.take(1) =~= seq![PollEvent::Slept]);
        lemma_one(state, PollEvent::Slept);
    } else {
        lemma_quiet_prefix(state, tick, seen, (i - 1) as nat);
        assert(events.take(1 + i as int).drop_last() =~= events.take(i as int));
        assert(events.take(1 + i as int).last() == PollEvent::Status(false));
    }
}

/// In each tick every signature is asked for, in order, and then the board;
/// where none has confirmed and the board was not read, or is before the next
/// round, the watch goes on with a pause, up to its twelfth tick, behind which
/// nothing is known.
pub proof fn law_tick_asks_for_everything(
    state: PollModel,
    tick: u64,
    seen: Option<u64>,
    i: int,
)
    requires
        state.signatures.len() <= usize::MAX,
        state.phase == (PollPhase::Pausing { tick }),
        tick < 12,
        seen matches Some(round) ==> round < state.next_round_id,
        0 <= i < state.signatures.len(),
    ensures
        ({
            let count = state.signatures.len();
            let events = quiet_tick(count, seen);
            let end = state.after_all(events);
            &&& state.wants() == PollAction::Sleep(400)
            &&& state.after_all(events.take(1 + i)).wants() == PollAction::ReadStatus(
                state.signatures[i],
            )
            &&& state.after_all(events.take(1 + count as int)).wants() == PollAction::ReadBoard
            &&& tick < 11 ==> end.phase == (PollPhase::Pausing { tick: (tick + 1) as u64 })
                && end.wants() == PollAction::Sleep(400)
            &&& tick == 11 ==> end.wants() == PollAction::Done(None)
            &&& end.signatures == state.signatures
            &&& end.next_round_id == state.next_round_id
        }),
{
    let count = state.signatures.len();
    let events = quiet_tick(count, seen);
    lemma_quiet_prefix(state, tick, seen, i as nat);
    lemma_quiet_tick(state, tick, seen);
    lemma_quiet_prefix(state, tick, seen, count);
}

proof fn lemma_quiet_tick(state: PollModel, tick: u64, seen: Option<u64>)
    requires
        state.signatures.len() <= usize::MAX,
        state.phase == (PollPhase::Pausing { tick }),
        tick < 12,
        seen matches Some(round) ==> round < state.next_round_id,
    ensures
        ({
            let end = state.after_all(quiet_tick(state.signatures.len(), seen));
            &&& end.signatures == state.signatures
            &&& end.next_round_id == state.next_round_id
            &&& end.phase == if tick < 11 {
                PollPhase::Pausing { tick: (tick + 1) as u64 }
            } else {
                PollPhase::Ended(None)
            }
        }),
{
    let count = state.signatures.len();
    let events = quiet_tick(count, seen);
    lemma_quiet_prefix(state, tick, seen, count);
    assert(events.drop_last() =~= events.take(1 + count as int));
    assert(events.last() == PollEvent::Board(seen));
}

/// A watch in which nothing happens lasts for twelve ticks, no fewer and no
/// more, whatever the board was read as before the next round.
pub proof fn law_quiet_watch_lasts_twelve_ticks(
    signatures: Seq<Signature>,
    next_round_id: u64,
    seen: Seq<Option<u64>>,
)
    requires
        signatures.len() <= usize::MAX,
        seen.len() <= 12,
        forall|k: int|
            0 <= k < seen.len() ==> (#[trigger] seen[k] matches Some(round) ==> round
                < next_round_id),
    ensures
        ({
            let ticks = Seq::new(
                seen.len(),
                |k: int| quiet_tick(signatures.len(), seen[k]),
            );
            let end = PollModel::start(signatures, next_round_id).after_all(ticks.flatten_alt());
            &&& seen.len() < 12 ==> end.wants() == PollAction::Sleep(400)
            &&& seen.len() == 12 ==> end.wants() == PollAction::Done(None)
        }),
{
    lemma_quiet_ticks(signatures, next_round_id, seen);
}

proof fn lemma_quiet_ticks(
    signatures: Seq<Signature>,
    next_round_id: u64,
    seen: Seq<Option<u64>>,
)
    requires
        signatures.len() <= usize::MAX,
        seen.len() <= 12,
        forall|k: int|
            0 <= k < seen.len() ==> (#[trigger] seen[k] matches Some(round) ==> round
                < next_round_id),
    ensures
        ({
            let ticks = Seq::new(
                seen.len(),
                |k: int| quiet_tick(signatures.len(), seen[k]),
            );
            let end = PollModel::start(signatures, next_round_id).after_all(ticks.flatten_alt());
            &&& end.signatures == signatures
            &&& end.next_round_id == next_round_id
            &&& end.phase == if seen.len() < 12 {
                PollPhase::Pausing { tick: seen.len() as u64 }
            } else {
                PollPhase::Ended(None)
            }
        }),
    decreases seen.len(),
{
    let start = PollModel::start(signatures, next_round_id);
    let ticks = Seq::new(seen.len(), |k: int| quiet_tick(signatures.len(), seen[k]));
    if seen.len() > 0 {
        let earlier = seen.drop_last();
        let before = Seq::new(earlier.len(), |k: int| quiet_tick(signatures.len(), earlier[k]));
        assert(forall|k: int| 0 <= k < earlier.len() ==> #[trigger] earlier[k] == seen[k]);
        lemma_quiet_ticks(signatures, next_round_id, earlier);
        assert(ticks.drop_last() =~= before);
        lemma_split(start, before.flatten_alt(), ticks.last());
        let now = start.after_all(before.flatten_alt());
        assert(seen[seen.len() - 1] == seen.last());
        lemma_quiet_tick(now, earlier.len() as u64, seen.last());
    }
}

/// A board that is read at the next round or a later one is an advance, and
/// nothing else is: the signatures are then looked up again, or, where there
/// are none, there is a pause; else the watch goes on with its next tick.
pub proof fn law_advance_is_seen(state: PollModel, tick: u64, seen: Option<u64>)
    requires
        state.signatures.len() <= usize::MAX,
        state.phase == (PollPhase::Board { tick }),
        tick < 12,
    ensures
        ({
            let next = state.after(PollEvent::Board(seen));
            if seen matches Some(round) && round >= state.next_round_id {
                &&& next.wants() == if state.signatures.len() > 0 {
                    PollAction::ReadStatus(state.signatures[0])
                } else {
                    PollAction::Sleep(400)
                }
                &&& !(next.phase is Pausing)
            } else {
                &&& next.wants() == if tick < 11 {
                    PollAction::Sleep(400)
                } else {
                    PollAction::Done(None)
                }
                &&& tick < 11 ==> next.phase == (PollPhase::Pausing { tick: (tick + 1) as u64 })
            }
        }),
{
}

/// The answers of one look at `count` signatures none of which has confirmed,
/// and of the pause behind it.
pub open spec fn quiet_lap(count: nat) -> Seq<PollEvent> {
    Seq::new(count, |i: int| PollEvent::Status(false)) + seq![PollEvent::Slept]
}

proof fn lemma_lap_prefix(state: PollModel, round: u64, check: u64, i: nat)
    requires
        state.signatures.len() <= usize::MAX,
        check < 3,
        state.phase == if state.signatures.len() > 0 {
            PollPhase::GraceChecking { round, check, next: 0 }
        } else {
            PollPhase::GracePausing { round, check }
        },
        i <= state.signatures.len(),
    ensures
        ({
            let now = state.after_all(quiet_lap(state.signatures.len()).take(i as int));
            &&& now.signatures == state.signatures
            &&& now.phase == if i < state.signatures.len() {
                PollPhase::GraceChecking { round, check, next: i as usize }
            } else {
                PollPhase::GracePausing { round, check }
            }
        }),
    decreases i,
{
    let lap = quiet_lap(state.signatures.len());
    if i == 0 {
        assert(lap.take(0) =~= Seq::<PollEvent>::empty());
    } else {
        lemma_lap_prefix(state, round, check, (i - 1) as nat);
        assert(lap.take(i as int).drop_last() =~= lap.take(i - 1));
        assert(lap.take(i as int).last() == PollEvent::Status(false));
    }
}

proof fn lemma_lap(state: PollModel, round: u64, check: u64)
    requires
        state.signatures.len() <= usize::MAX,
        check < 3,
        state.phase == if state.signatures.len() > 0 {
            PollPhase::GraceChecking { round, check, next: 0 }
        } else {
            PollPhase::GracePausing { round, check }
        },
    ensures
        ({
            let end = state.after_all(quiet_lap(state.signatures.len()));
            &&& end.signatures == state.signatures
            &&& end.phase == if check == 2 {
                PollPhase::Ended(Some(Outcome::Lost(round)))
            } else if state.signatures.len() > 0 {
                PollPhase::GraceChecking { round, check: (check + 1) as u64, next: 0 }
            } else {
                PollPhase::GracePausing { round, check: (check + 1) as u64 }
            }
        }),
{
    let count = state.signatures.len();
    let lap = quiet_lap(count);
    lemma_lap_prefix(state, round, check, count);
    assert(lap.drop_last() =~= lap.take(count as int));
    assert(lap.last() == PollEvent::Slept);
}

/// Before a loss every signature is asked for three more times: once the board
/// is read at `round`, the watch asks in each of three laps for each signature
/// in order, pauses behind each lap, and only behind the third calls the loss.
pub proof fn law_every_signature_is_asked_for_three_times(
    state: PollModel,
    round: u64,
    lap: int,
    i: int,
)
    requires
        state.signatures.len() <= usize::MAX,
        state.phase is Board,
        round >= state.next_round_id,
        0 <= lap < 3,
        0 <= i <= state.signatures.len(),
    ensures
        ({
            let count = state.signatures.len();
            let quiet = quiet_lap(count);
            let advance = seq![PollEvent::Board(Some(round))];
            let laps = if lap == 0 {
                Seq::empty()
            } else if lap == 1 {
                quiet
            } else {
                quiet + quiet
            };
            &&& state.after_all(advance + (laps + quiet.take(i))).wants() == if i < count {
                PollAction::ReadStatus(state.signatures[i])
            } else {
                PollAction::Sleep(400)
            }
            &&& state.after_all(advance + (quiet + quiet + quiet)).wants() == PollAction::Done(
                Some(Outcome::Lost(round)),
            )
        }),
{
    let quiet = quiet_lap(state.signatures.len());
    let advance = seq![PollEvent::Board(Some(round))];
    let none = Seq::<PollEvent>::empty();
    lemma_one(state, PollEvent::Board(Some(round)));
    let first = state.after(PollEvent::Board(Some(round)));
    lemma_lap(first, round, 0);
    let second = first.after_all(quiet);
    lemma_lap(second, round, 1);
    let third = second.after_all(quiet);
    lemma_lap(third, round, 2);
    lemma_split(first, quiet, quiet);
    lemma_split(first, quiet + quiet, quiet);
    lemma_split(state, advance, quiet + quiet + quiet);
    lemma_lap_prefix(first, round, 0, i as nat);
    lemma_lap_prefix(second, round, 1, i as nat);
    lemma_lap_prefix(third, round, 2, i as nat);
    assert(none + quiet.take(i) =~= quiet.take(i));
    lemma_split(first, quiet, quiet.take(i));
    lemma_split(first, quiet + quiet, quiet.take(i));
    lemma_split(state, advance, none + quiet.take(i));
    lemma_split(state, advance, quiet + quiet.take(i));
    lemma_split(state, advance, quiet + quiet + quiet.take(i));
}

/// Whether every lookup of a signature is answered truthfully, given which
/// signatures have confirmed, and nothing is answered that was not asked for.
pub open spec fn truthful(
    state: PollModel,
    events: Seq<PollEvent>,
    confirmed: spec_fn(Signature) -> bool,
) -> bool {
    forall|k: int|
        0 <= k < events.len() ==> match state.after_all(events.take(k)).wants() {
            PollAction::Sleep(_) => #[trigger] events[k] == PollEvent::Slept,
            PollAction::ReadStatus(signature) => events[k] == PollEvent::Status(
                confirmed(signature),
            ),
            PollAction::ReadBoard => events[k] is Board,
            PollAction::Done(_) => false,
        }
}

/// Whether `signature` is the first of the list that has confirmed.
pub open spec fn is_first_confirmed(
    signatures: Seq<Signature>,
    confirmed: spec_fn(Signature) -> bool,
    signature: Signature,
) -> bool {
    exists|i: int|
        0 <= i < signatures.len() && #[trigger] signatures[i] == signature && confirmed(signature)
            && forall|j: int| 0 <= j < i ==> !confirmed(#[trigger] signatures[j])
}

spec fn none_before(state: PollModel, confirmed: spec_fn(Signature) -> bool, n: int) -> bool {
    forall|j: int| 0 <= j < n && j < state.signatures.len() ==> !confirmed(
        #[trigger] state.signatures[j],
    )
}

/// What a watch knows, where all lookups since `late` was entered were true.
spec fn knows(state: PollModel, confirmed: spec_fn(Signature) -> bool, late: bool) -> bool {
    let all = state.signatures.len() as int;
    match state.phase {
        PollPhase::Pausing { tick } => !late && (tick > 0 ==> none_before(state, confirmed, all)),
        PollPhase::Checking { next, .. } => !late && none_before(state, confirmed, next as int),
        PollPhase::Board { .. } => !late && none_before(state, confirmed, all),
        PollPhase::GraceChecking { check, next, .. } => none_before(state, confirmed, next as int)
            && (!late || check > 0 ==> none_before(state, confirmed, all)),
        PollPhase::GracePausing { .. } => none_before(state, confirmed, all),
        PollPhase::Ended(Some(Outcome::Won(signature))) => is_first_confirmed(
            state.signatures,
            confirmed,
            signature,
        ),
        PollPhase::Ended(_) => none_before(state, confirmed, all),
    }
}

proof fn lemma_truth_step(
    state: PollModel,
    event: PollEvent,
    confirmed: spec_fn(Signature) -> bool,
    late: bool,
)
    requires
        state.signatures.len() <= usize::MAX,
        state.wf(),
        knows(state, confirmed, late),
        match state.wants() {
            PollAction::Sleep(_) => event == PollEvent::Slept,
            PollAction::ReadStatus(signature) => event == PollEvent::Status(confirmed(signature)),
            PollAction::ReadBoard => event is Board,
            PollAction::Done(_) => false,
        },
    ensures
        knows(state.after(event), confirmed, late),
{
    let next = state.after(event);
    match state.phase {
        PollPhase::Checking { next: at, .. } => {
            if confirmed(state.signatures[at as int]) {
                assert(is_first_confirmed(
                    state.signatures,
                    confirmed,
                    state.signatures[at as int],
                ));
            } else {
                assert(none_before(state, confirmed, at + 1));
            }
        },
        PollPhase::GraceChecking { next: at, .. } => {
            if confirmed(state.signatures[at as int]) {
                assert(is_first_confirmed(
                    state.signatures,
                    confirmed,
                    state.signatures[at as int],
                ));
            } else {
                assert(none_before(state, confirmed, at + 1));
            }
        },
        _ => {},
    }
}

proof fn lemma_truth(
    state: PollModel,
    events: Seq<PollEvent>,
    confirmed: spec_fn(Signature) -> bool,
    late: bool,
)
    requires
        state.signatures.len() <= usize::MAX,
        state.wf(),
        knows(state, confirmed, late),
        truthful(state, events, confirmed),
    ensures
        state.after_all(events).wf(),
        state.after_all(events).signatures == state.signatures,
        knows(state.after_all(events), confirmed, late),
    decreases events.len(),
{
    if events.len() > 0 {
        let earlier = events.drop_last();
        assert forall|k: int| 0 <= k < earlier.len() implies match state.after_all(
            earlier.take(k),
        ).wants() {
            PollAction::Sleep(_) => #[trigger] earlier[k] == PollEvent::Slept,
            PollAction::ReadStatus(signature) => earlier[k] == PollEvent::Status(
                confirmed(signature),
            ),
            PollAction::ReadBoard => earlier[k] is Board,
            PollAction::Done(_) => false,
        } by {
            assert(earlier[k] == events[k]);
            assert(earlier.take(k) =~= events.take(k));
        }
        lemma_truth(state, earlier, confirmed, late);
        assert(events.take(events.len() - 1) =~= earlier);
        assert(events[events.len() - 1] == events.last());
        crate::outcome::lemma_after_keeps_wf(state.after_all(earlier), events.last());
        lemma_truth_step(state.after_all(earlier), events.last(), confirmed, late);
    }
}

/// A win is never reported as a loss, nor passed over: where all lookups are
/// answered truthfully, a watch ends with a win if one of the signatures has
/// confirmed, and names the first of them; it ends without one only where none
/// has.
pub proof fn law_true_answers_give_the_true_outcome(
    signatures: Seq<Signature>,
    next_round_id: u64,
    events: Seq<PollEvent>,
    confirmed: spec_fn(Signature) -> bool,
    outcome: Option<Outcome>,
)
    requires
        signatures.len() <= usize::MAX,
        truthful(PollModel::start(signatures, next_round_id), events, confirmed),
        PollModel::start(signatures, next_round_id).after_all(events).wants() == PollAction::Done(
            outcome,
        ),
    ensures
        match outcome {
            Some(Outcome::Won(signature)) => is_first_confirmed(signatures, confirmed, signature),
            _ => forall|i: int|
                0 <= i < signatures.len() ==> !confirmed(#[trigger] signatures[i]),
        },
{
    lemma_truth(PollModel::start(signatures, next_round_id), events, confirmed, false);
}

/// Our own transaction is given time to surface: also where it is seen to have
/// confirmed only from the moment on that the board has advanced, a watch that
/// is answered truthfully from then on ends with a win, and names the first
/// signature that has; a loss is called only where none has.
pub proof fn law_late_confirmation_still_wins(
    state: PollModel,
    round: u64,
    events: Seq<PollEvent>,
    confirmed: spec_fn(Signature) -> bool,
    outcome: Option<Outcome>,
)
    requires
        state.signatures.len() <= usize::MAX,
        state.wf(),
        state.wants() is ReadBoard,
        round >= state.next_round_id,
        truthful(state.after(PollEvent::Board(Some(round))), events, confirmed),
        state.after(PollEvent::Board(Some(round))).after_all(events).wants() == PollAction::Done(
            outcome,
        ),
    ensures
        match outcome {
            Some(Outcome::Won(signature)) => is_first_confirmed(
                state.signatures,
                confirmed,
                signature,
            ),
            Some(Outcome::Lost(at)) => at == round && forall|i: int|
                0 <= i < state.signatures.len() ==> !confirmed(#[trigger] state.signatures[i]),
            None => false,
        },
{
    let told = state.after(PollEvent::Board(Some(round)));
    crate::outcome::lemma_after_keeps_wf(state, PollEvent::Board(Some(round)));
    lemma_truth(told, events, confirmed, true);
    lemma_grace_keeps_round(told, events, round);
}

spec fn graced(state: PollModel, round: u64) -> bool {
    match state.phase {
        PollPhase::GraceChecking { round: at, .. } => at == round,
        PollPhase::GracePausing { round: at, .. } => at == round,
        PollPhase::Ended(Some(Outcome::Lost(at))) => at == round,
        PollPhase::Ended(Some(Outcome::Won(_))) => true,
        _ => false,
    }
}

proof fn lemma_grace_keeps_round(state: PollModel, events: Seq<PollEvent>, round: u64)
    requires
        graced(state, round),
    ensures
        graced(state.after_all(events), round),
    decreases events.len(),
{
    if events.len() > 0 {
        lemma_grace_keeps_round(state, events.drop_last(), round);
    }
}

/// What was not asked for changes nothing.
pub proof fn law_unasked_answers_are_ignored(state: PollModel, event: PollEvent)
    requires
        match state.wants() {
            PollAction::Sleep(_) => !(event is Slept),
            PollAction::ReadStatus(_) => !(event is Status),
            PollAction::ReadBoard => !(event is Board),
            PollAction::Done(_) => true,
        },
    ensures
        state.after(event) == state,
{
}

} // verus!
