//! One iteration on a round: what it asks for, what it makes of each answer,
//! and what it fires.
use crate::chain::{Board, Config, Round, Signature, Var};
use crate::outcome::{Outcome, PollAction, PollEvent, PollModel};
use crate::reset::{
    slot_wait, tallied, AwaitedSlot, IterationEnd, ResetAction, ResetEvent, ResetModel, ResetPhase, ResetPlan,
    SlotWait,
};
use crate::selection::TopMiner;
use crate::stats::Tally;
use vstd::prelude::*;

verus! {

proof fn lemma_push(state: ResetModel, events: Seq<ResetEvent>, event: ResetEvent)
    ensures
        state.after_all(events.push(event)) == state.after_all(events).after(event),
{
    assert(events.push(event).drop_last() =~= events);
}

/// A slot is waited for until the chain is there. It is given up where more
/// than 100,000 slots are missing. Within three slots it is looked at every
/// 50 ms, farther off every 400 ms.
pub proof fn law_wait_goes_by_the_gap(current: u64, target: u64)
    ensures
        slot_wait(current, target) is Reached <==> current >= target,
        slot_wait(current, target) is Abandoned <==> target - current > 100_000,
        slot_wait(current, target) matches SlotWait::Abandoned { gap } ==> gap == target - current,
        slot_wait(current, target) matches SlotWait::Poll { ms } ==> 0 < target - current
            <= 100_000 && ms == if target - current <= 3 {
            50u64
        } else {
            400u64
        },
{
}

/// A wait tells only how far off the target is: the same gap is waited for in
/// the same way, wherever on the chain it lies.
pub proof fn law_wait_is_the_same_everywhere(current: u64, target: u64, shift: int)
    requires
        0 <= current + shift <= u64::MAX,
        0 <= target + shift <= u64::MAX,
    ensures
        slot_wait((current + shift) as u64, (target + shift) as u64) == slot_wait(current, target),
{
}

/// The slots that an iteration waits for lie just behind the mining of its
/// round, and an intermission behind the last slot of that, or at the last slot
/// that there can be.
pub proof fn law_targets_follow_from_the_board(state: ResetModel)
    requires
        state.board.end_slot < u64::MAX,
    ensures
        state.mining_end_slot() == state.board.end_slot + 1,
        state.target_slot() == if state.board.end_slot + state.intermission_slots <= u64::MAX {
            state.board.end_slot + state.intermission_slots
        } else {
            u64::MAX as int
        },
        state.awaited_slot() == match state.phase {
            ResetPhase::MiningSlot => Some(
                AwaitedSlot::MiningEnd((state.board.end_slot + 1) as u64),
            ),
            ResetPhase::SubmitSlot => Some(AwaitedSlot::Submit(state.target_slot())),
            _ => None,
        },
{
}

/// An iteration reads the board first. A round without deploys is left alone
/// for two seconds; else the slot is looked at.
pub proof fn law_board_comes_first(intermission_slots: u64, board: Board)
    ensures
        ({
            let start = ResetModel::start(intermission_slots);
            let next = start.after(ResetEvent::Board(Some(board)));
            let failed = start.after(ResetEvent::Board(None));
            &&& start.wants() == ResetAction::ReadBoard
            &&& next.board == board
            &&& next.intermission_slots == intermission_slots
            &&& next.attempts == 0
            &&& next.signatures.len() == 0
            &&& board.end_slot == u64::MAX ==> next.wants() == ResetAction::Sleep(2_000)
                && next.after(ResetEvent::Slept).wants() == ResetAction::Done(IterationEnd::Idled)
            &&& board.end_slot < u64::MAX ==> next.wants() == ResetAction::ReadSlot
                && next.phase is MiningSlot
            &&& failed.wants() == ResetAction::Done(IterationEnd::Failed)
        }),
{
}

/// The end of mining is waited for until a slot behind the round's last one is
/// seen; then the configuration is read. A pause leads back to where it was,
/// and a slot that is implausibly far off to two seconds of rest and the end.
pub proof fn law_mining_is_waited_for(state: ResetModel, slot: u64)
    requires
        state.wf(),
        state.phase is MiningSlot,
    ensures
        ({
            let next = state.after(ResetEvent::Slot(Some(slot)));
            let gap = state.board.end_slot + 1 - slot;
            &&& state.wants() == ResetAction::ReadSlot
            &&& gap <= 0 ==> next == (ResetModel { phase: ResetPhase::Config, ..state })
                && next.wants() == ResetAction::ReadConfig
            &&& 0 < gap <= 100_000 ==> next.wants() == ResetAction::Sleep(
                if gap <= 3 {
                    50u64
                } else {
                    400u64
                },
            ) && next.after(ResetEvent::Slept) == state
            &&& gap > 100_000 ==> next.wants() == ResetAction::Sleep(2_000) && next.after(
                ResetEvent::Slept,
            ).wants() == ResetAction::Done(IterationEnd::Idled)
            &&& state.after(ResetEvent::Slot(None)).wants() == ResetAction::Done(
                IterationEnd::Failed,
            )
        }),
{
}

/// The end of the intermission is waited for until a slot at least
/// `intermission_slots` behind the round's last one is seen, or the last slot
/// that there can be; then the reset is fired. A pause leads back to where it
/// was, and a slot that is implausibly far off to two seconds of rest and the
/// end.
pub proof fn law_intermission_is_waited_for(state: ResetModel, slot: u64)
    requires
        state.wf(),
        state.phase is SubmitSlot,
    ensures
        ({
            let next = state.after(ResetEvent::Slot(Some(slot)));
            let sum = state.board.end_slot + state.intermission_slots;
            let target = if sum <= u64::MAX {
                sum
            } else {
                u64::MAX as int
            };
            let gap = target - slot;
            &&& state.wants() == ResetAction::ReadSlot
            &&& gap <= 0 ==> next == (ResetModel { phase: ResetPhase::Fire, ..state })
                && next.wants() is Fire
            &&& 0 < gap <= 100_000 ==> next.wants() == ResetAction::Sleep(
                if gap <= 3 {
                    50u64
                } else {
                    400u64
                },
            ) && next.after(ResetEvent::Slept) == state
            &&& gap > 100_000 ==> next.wants() == ResetAction::Sleep(2_000) && next.after(
                ResetEvent::Slept,
            ).wants() == ResetAction::Done(IterationEnd::Idled)
            &&& state.after(ResetEvent::Slot(None)).wants() == ResetAction::Done(
                IterationEnd::Unprepared,
            )
        }),
{
}

/// What is fired: the round of the first board, the addresses of the
/// configuration, the seed and the blockhash, and the top miner, or the
/// all-zero address where there is none.
pub open spec fn is_plan_of(
    plan: ResetPlan,
    board: Board,
    config: Config,
    seed: [u8; 32],
    top: Option<TopMiner>,
    blockhash: [u8; 32],
) -> bool {
    &&& plan.round_id == board.round_id
    &&& plan.var_address == config.var_address
    &&& plan.fee_collector == config.fee_collector
    &&& plan.seed == seed
    &&& plan.blockhash == blockhash
    &&& match top {
        Some(top) => plan.top_miner == top.authority,
        None => forall|i: int| 0 <= i < 32 ==> #[trigger] plan.top_miner@[i] == 0,
    }
}

/// A round is fired at: whatever its board, configuration, round, variable,
/// seed, top miner and blockhash, once it was mined, still stands and its
/// intermission is over, the reset that goes out is made of just these, and on
/// the way just these are asked for.
pub proof fn law_prepared_round_is_fired_at(
    intermission_slots: u64,
    board: Board,
    mined: u64,
    config: Config,
    now: Board,
    round: Round,
    var: Var,
    seed: [u8; 32],
    top: Option<TopMiner>,
    blockhash: [u8; 32],
    due: u64,
)
    requires
        board.end_slot < u64::MAX,
        mined > board.end_slot,
        now.round_id == board.round_id,
        due >= board.end_slot + intermission_slots || due == u64::MAX,
    ensures
        ({
            let s0 = ResetModel::start(intermission_slots);
            let s1 = s0.after(ResetEvent::Board(Some(board)));
            let s2 = s1.after(ResetEvent::Slot(Some(mined)));
            let s3 = s2.after(ResetEvent::Config(Some(config)));
            let s4 = s3.after(ResetEvent::Board(Some(now)));
            let s5 = s4.after(ResetEvent::Round(Some(round)));
            let s6 = s5.after(ResetEvent::Var(Some(var)));
            let s7 = s6.after(ResetEvent::Seed(Some(seed)));
            let s8 = s7.after(ResetEvent::TopMiner(Some(top)));
            let s9 = s8.after(ResetEvent::Blockhash(Some(blockhash)));
            let s10 = s9.after(ResetEvent::Slot(Some(due)));
            &&& s0.wants() == ResetAction::ReadBoard
            &&& s1.wants() == ResetAction::ReadSlot
            &&& s2.wants() == ResetAction::ReadConfig
            &&& s3.wants() == ResetAction::ReadBoard
            &&& s4.wants() == ResetAction::ReadRound(board.round_id)
            &&& s5.wants() == ResetAction::ReadVar(config.var_address)
            &&& s6.wants() == ResetAction::FetchSeed(config.var_address)
            &&& s7.wants() == ResetAction::SelectTopMiner
            &&& s7.round == round@
            &&& s7.var == var
            &&& s7.seed == seed
            &&& s8.wants() == ResetAction::FetchBlockhash
            &&& s9.wants() == ResetAction::ReadSlot
            &&& s10.wants() matches ResetAction::Fire(plan) && is_plan_of(
                plan,
                board,
                config,
                seed,
                top,
                blockhash,
            )
            &&& s10.attempts == 0
            &&& s10.signatures.len() == 0
            &&& s10.board == board
        }),
{
}

/// A round that has advanced behind the first wait is given up for the one
/// that the board is at now.
pub proof fn law_advanced_round_is_given_up(state: ResetModel, now: Board)
    requires
        state.phase is Recheck,
        now.round_id != state.board.round_id,
    ensures
        state.after(ResetEvent::Board(Some(now))).wants() == ResetAction::Done(
            IterationEnd::Superseded(now.round_id),
        ),
{
}

/// A read or a fetch that fails ends the iteration: as a failure, before the
/// round was seen to stand still, and as one of its preparation, from then on.
pub proof fn law_failed_answer_ends_the_iteration(state: ResetModel, event: ResetEvent)
    requires
        state.wf(),
        match state.wants() {
            ResetAction::ReadBoard => event == ResetEvent::Board(None),
            ResetAction::ReadSlot => event == ResetEvent::Slot(None),
            ResetAction::ReadConfig => event == ResetEvent::Config(None),
            ResetAction::ReadRound(_) => event == ResetEvent::Round(None),
            ResetAction::ReadVar(_) => event == ResetEvent::Var(None),
            ResetAction::FetchSeed(_) => event == ResetEvent::Seed(None),
            ResetAction::SelectTopMiner => event == ResetEvent::TopMiner(None),
            ResetAction::FetchBlockhash => event == ResetEvent::Blockhash(None),
            _ => false,
        },
    ensures
        state.after(event).wants() == ResetAction::Done(
            if state.phase is Board || state.phase is MiningSlot || state.phase is Config
                || state.phase is Recheck {
                IterationEnd::Failed
            } else {
                IterationEnd::Unprepared
            },
        ),
{
}

/// What was not asked for changes nothing.
pub proof fn law_unasked_answers_are_ignored(state: ResetModel, event: ResetEvent)
    requires
        match state.wants() {
            ResetAction::ReadBoard => !(event is Board),
            ResetAction::Sleep(_) => !(event is Slept),
            ResetAction::ReadSlot => !(event is Slot),
            ResetAction::ReadConfig => !(event is Config),
            ResetAction::ReadRound(_) => !(event is Round),
            ResetAction::ReadVar(_) => !(event is Var),
            ResetAction::FetchSeed(_) => !(event is Seed),
            ResetAction::SelectTopMiner => !(event is TopMiner),
            ResetAction::FetchBlockhash => !(event is Blockhash),
            ResetAction::Fire(_) => !(event is Fired),
            ResetAction::Poll => !(event is Polled),
            ResetAction::Done(_) => true,
        },
    ensures
        state.after(event) == state,
{
}

/// Each shot is followed by a watch, which is over every signature that went
/// out, this one last; a shot that did not go out adds none. Nothing else
/// changes.
pub proof fn law_each_shot_is_followed_by_a_watch(state: ResetModel, sent: Option<Signature>)
    requires
        state.wf(),
        state.wants() is Fire,
    ensures
        ({
            let next = state.after(ResetEvent::Fired(sent));
            &&& next.wants() == ResetAction::Poll
            &&& next.attempts == state.attempts + 1
            &&& next.signatures == match sent {
                Some(signature) => state.signatures.push(signature),
                None => state.signatures,
            }
            &&& next == (ResetModel {
                phase: next.phase,
                attempts: next.attempts,
                signatures: next.signatures,
                ..state
            })
        }),
{
}

/// A watch that has an outcome ends the iteration with it, whichever watch it
/// is.
pub proof fn law_outcome_ends_the_iteration(state: ResetModel, outcome: Outcome)
    requires
        state.wants() == ResetAction::Poll,
    ensures
        state.after(ResetEvent::Polled(Some(outcome))).wants() == ResetAction::Done(
            match outcome {
                Outcome::Won(signature) => IterationEnd::Won(signature),
                Outcome::Lost(round) => IterationEnd::Lost(round),
            },
        ),
{
}

/// The answers of `count` shots each of whose watches sees nothing.
pub open spec fn misses(sent: Seq<Option<Signature>>) -> Seq<ResetEvent>
    decreases sent.len(),
{
    if sent.len() == 0 {
        Seq::empty()
    } else {
        misses(sent.drop_last()).push(ResetEvent::Fired(sent.last())).push(
            ResetEvent::Polled(None),
        )
    }
}

/// The reset is fired four times, with the same plan, as long as nothing is
/// seen of the round; then there is one more watch, and only behind that is the
/// round given up.
pub proof fn law_four_shots_and_a_last_watch(
    state: ResetModel,
    plan: ResetPlan,
    sent: Seq<Option<Signature>>,
)
    requires
        state.wf(),
        state.wants() == ResetAction::Fire(plan),
        state.attempts == 0,
        sent.len() <= 4,
    ensures
        ({
            let end = state.after_all(misses(sent));
            &&& end.attempts == sent.len()
            &&& sent.len() < 4 ==> end.wants() == ResetAction::Fire(plan)
            &&& sent.len() == 4 ==> end.wants() == ResetAction::Poll && end.after(
                ResetEvent::Polled(None),
            ).wants() == ResetAction::Done(IterationEnd::NotAdvanced)
            &&& forall|signature: Signature|
                state.signatures.len() == 0 ==> (#[trigger] end.signatures.contains(signature)
                    <==> sent.contains(Some(signature)))
        }),
    decreases sent.len(),
{
    lemma_misses(state, plan, sent);
}

proof fn lemma_misses(state: ResetModel, plan: ResetPlan, sent: Seq<Option<Signature>>)
    requires
        state.wf(),
        state.phase is Fire,
        state.plan() == plan,
        state.attempts == 0,
        sent.len() <= 4,
    ensures
        ({
            let end = state.after_all(misses(sent));
            &&& end.wf()
            &&& end.attempts == sent.len()
            &&& end.plan() == plan
            &&& sent.len() < 4 ==> end.phase is Fire
            &&& sent.len() == 4 ==> end.phase is LastPoll
            &&& forall|signature: Signature|
                state.signatures.len() == 0 ==> (#[trigger] end.signatures.contains(signature)
                    <==> sent.contains(Some(signature)))
        }),
    decreases sent.len(),
{
    if sent.len() > 0 {
        let earlier = sent.drop_last();
        lemma_misses(state, plan, earlier);
        let before = state.after_all(misses(earlier));
        let fired = misses(earlier).push(ResetEvent::Fired(sent.last()));
        lemma_push(state, misses(earlier), ResetEvent::Fired(sent.last()));
        lemma_push(state, fired, ResetEvent::Polled(None));
        crate::reset::lemma_after_keeps_wf(before, ResetEvent::Fired(sent.last()));
        crate::reset::lemma_after_keeps_wf(state.after_all(fired), ResetEvent::Polled(None));
        let end = state.after_all(misses(sent));
        assert forall|signature: Signature|
            state.signatures.len() == 0 implies (#[trigger] end.signatures.contains(signature)
            <==> sent.contains(Some(signature))) by {
            assert(sent =~= earlier.push(sent.last()));
            lemma_push_contains(earlier, sent.last(), Some(signature));
            if let Some(last) = sent.last() {
                lemma_push_contains(before.signatures, last, signature);
            }
            assert(before.signatures.contains(signature) <==> earlier.contains(Some(signature)));
        }
    } else {
        let end = state.after_all(misses(sent));
        assert(end == state);
    }
}

proof fn lemma_push_contains<T>(list: Seq<T>, last: T, item: T)
    ensures
        list.push(last).contains(item) <==> list.contains(item) || last == item,
{
    if list.contains(item) {
        let i = choose|i: int| 0 <= i < list.len() && list[i] == item;
        assert(list.push(last)[i] == item);
    }
    assert(list.push(last)[list.len() as int] == last);
}

/// A round has advanced exactly where the board is behind it: the watch of an
/// iteration on a round that is told of a board takes it for an advance if and
/// only if that board is at a later round.
pub proof fn law_watch_waits_for_a_later_round(
    state: ResetModel,
    watch: PollModel,
    seen: u64,
)
    requires
        state.wf(),
        state.wants() == ResetAction::Poll,
        state.board.round_id < u64::MAX,
        watch.next_round_id == PollModel::start(
            state.signatures,
            state.next_round_id(),
        ).next_round_id,
        watch.signatures == state.signatures,
        watch.signatures.len() <= usize::MAX,
        watch.wf(),
        watch.phase is Board,
    ensures
        ({
            let next = watch.after(PollEvent::Board(Some(seen)));
            let advanced = next.phase is GraceChecking || next.phase is GracePausing;
            &&& advanced <==> seen > state.board.round_id
            &&& !advanced ==> next.phase is Pausing || next.wants() == PollAction::Done(None)
        }),
        state.next_round_id() == state.board.round_id + 1,
{
}

/// The end of an iteration is tallied once: a win, a loss, or a failure where
/// the round stood still; else nothing is. A tally that is full starts again.
pub proof fn law_ends_are_tallied(tally: Tally, end: IterationEnd)
    ensures
        ({
            let next = tallied(tally, end);
            let one = |count: u64| -> int { if count == u64::MAX { 0int } else { count + 1 } };
            &&& next.won == if end is Won { one(tally.won) } else { tally.won as int }
            &&& next.lost == if end is Lost { one(tally.lost) } else { tally.lost as int }
            &&& next.failed == if end is NotAdvanced || end is Unprepared {
                one(tally.failed)
            } else {
                tally.failed as int
            }
        }),
{
}

} // verus!
