//! One iteration of the per-round crank: sample + reveal + reset.
//!
//! Wait for the round's mining to end, prepare the seed and the top miner,
//! wait for the intermission to clear, then fire one transaction that holds
//! all three instructions, and fire it again until the round is won or lost.
use crate::chain::{
    Address, Board, Config, Round, RoundView, Signature, Var, DEFAULT_ADDRESS,
};
use crate::outcome::{
    law_loss_was_seen, law_win_was_confirmed, poll_outcome, Outcome, OutcomePoll, PollAction,
    PollEvent, PollModel, SLEEP_MS,
};
use crate::selection::TopMiner;
use crate::stats::{bumped, ResetStats, Tally};
use crate::text::{decimal, decimal_text};
use crate::top_miner::{search_top_miner, SelectModel, TopMinerSearch};
use vstd::prelude::*;

verus! {

/// Times the reset is fired before the round is declared a failure.
pub const NUM_RETRIES: u64 = 4;

/// More slots than this short of the target, something is off; stop waiting
/// and re-evaluate the board.
pub const MAX_WAIT_SLOTS: u64 = 100_000;

/// Within this many slots of the target, the slot is polled quickly.
pub const CLOSE_SLOTS: u64 = 3;

/// Milliseconds between two looks at the slot on the final approach.
pub const CLOSE_POLL_MS: u64 = 50;

/// Milliseconds to idle before the board is looked at again, while a round has
/// no deploys yet or its slots are implausibly far off.
pub const IDLE_MS: u64 = 2_000;

/// What to do while waiting for a slot.
#[derive(Clone, Copy, Debug, PartialEq, Eq)]
pub enum SlotWait {
    /// The chain is there.
    Reached,
    /// The gap is implausibly large: do not wait for it, but look at the board
    /// again.
    Abandoned { gap: u64 },
    /// Look again after this many milliseconds.
    Poll { ms: u64 },
}

/// A slot that an iteration waits for.
#[derive(Clone, Copy, Debug, PartialEq, Eq)]
pub enum AwaitedSlot {
    /// The first one behind the mining of the round.
    MiningEnd(u64),
    /// The one at which the reset is fired.
    Submit(u64),
}

/// How to wait for `target` at slot `current`.
pub open spec fn slot_wait(current: u64, target: u64) -> SlotWait {
    let gap = target - current;
    if gap <= 0 {
        SlotWait::Reached
    } else if gap > MAX_WAIT_SLOTS {
        SlotWait::Abandoned { gap: gap as u64 }
    } else if gap <= CLOSE_SLOTS {
        SlotWait::Poll { ms: CLOSE_POLL_MS }
    } else {
        SlotWait::Poll { ms: SLEEP_MS }
    }
}

/// Decides, at slot `current`, how to go on waiting for `target`: coarsely
/// when far out, tightly on the final approach.
pub fn wait_until_slot(current: u64, target: u64) -> (wait: SlotWait)
    ensures
        wait == slot_wait(current, target),
        wait is Reached <==> current >= target,
        wait is Abandoned <==> target - current > 100_000,
        wait matches SlotWait::Poll { ms } ==> ms == if target - current <= 3 {
            50u64
        } else {
            400u64
        },
{
    if current >= target {
        return SlotWait::Reached;
    }
    let gap: u64 = target - current;
    if gap > MAX_WAIT_SLOTS {
        SlotWait::Abandoned { gap }
    } else if gap <= CLOSE_SLOTS {
        SlotWait::Poll { ms: CLOSE_POLL_MS }
    } else {
        SlotWait::Poll { ms: SLEEP_MS }
    }
}

/// Everything that the three instructions of a reset are made of, and the
/// blockhash that was fetched for them in advance.
#[derive(Clone, Copy, Debug, PartialEq, Eq)]
pub struct ResetPlan {
    pub round_id: u64,
    pub var_address: Address,
    pub fee_collector: Address,
    pub seed: [u8; 32],
    pub top_miner: Address,
    pub blockhash: [u8; 32],
}

/// How an iteration ended.
#[derive(Clone, Copy, Debug, PartialEq, Eq)]
pub enum IterationEnd {
    /// The round had no deploys yet, or its slots are implausibly far off;
    /// there was nothing to reset.
    Idled,
    /// The round advanced to this one before the reset was prepared.
    Superseded(u64),
    /// One of our transactions confirmed.
    Won(Signature),
    /// The round advanced to this one, but not by us.
    Lost(u64),
    /// The round did not advance, for all our attempts.
    NotAdvanced,
    /// The round was seen to stand still, but something that its reset needs
    /// could not be read or fetched.
    Unprepared,
    /// Something could not be read before the round was seen to stand still.
    Failed,
}

impl IterationEnd {
    /// Whether this is a verdict on the round: it was fired at, and won, lost
    /// or not advanced.
    pub open spec fn is_verdict(self) -> bool {
        self is Won || self is Lost || self is NotAdvanced
    }
}

/// What an iteration wants done next.
#[derive(Clone, Copy, Debug, PartialEq, Eq)]
pub enum ResetAction {
    ReadBoard,
    /// Wait this many milliseconds.
    Sleep(u64),
    ReadSlot,
    ReadConfig,
    /// Read the round with this id.
    ReadRound(u64),
    /// Read the entropy variable at this address.
    ReadVar(Address),
    /// Fetch the seed of the entropy variable at this address.
    FetchSeed(Address),
    /// Select the top miner of the round that was read.
    SelectTopMiner,
    FetchBlockhash,
    /// Fire the reset transaction, without waiting for it to confirm.
    Fire(ResetPlan),
    /// Watch for the outcome of the round.
    Poll,
    /// Nothing more: this is how the iteration ended.
    Done(IterationEnd),
}

/// The answer to a [`ResetAction`]; `None` where it failed.
#[derive(Clone, Debug, PartialEq, Eq)]
pub enum ResetEvent {
    Board(Option<Board>),
    Slept,
    Slot(Option<u64>),
    Config(Option<Config>),
    Round(Option<Round>),
    Var(Option<Var>),
    Seed(Option<[u8; 32]>),
    /// The top miner, which may well be none.
    TopMiner(Option<Option<TopMiner>>),
    Blockhash(Option<[u8; 32]>),
    Fired(Option<Signature>),
    Polled(Option<Outcome>),
}

/// Where an iteration stands.
#[derive(Clone, Copy)]
pub enum ResetPhase {
    Board,
    Idle,
    MiningSlot,
    MiningPause { ms: u64 },
    Config,
    Recheck,
    Round,
    Var,
    Seed,
    TopMiner,
    Blockhash,
    SubmitSlot,
    SubmitPause { ms: u64 },
    Fire,
    Poll,
    LastPoll,
    Ended(IterationEnd),
}

/// The state of an iteration. What was not read yet is zero.
#[verifier::ext_equal]
pub struct ResetModel {
    pub phase: ResetPhase,
    pub intermission_slots: u64,
    pub board: Board,
    pub config: Config,
    pub round: RoundView,
    pub var: Var,
    pub seed: [u8; 32],
    pub top_miner: Address,
    pub blockhash: [u8; 32],
    /// Times the reset was fired.
    pub attempts: u64,
    /// The signatures of those that went out.
    pub signatures: Seq<Signature>,
}

/// The address to pass for the top miner: the default one where there is none.
pub open spec fn top_address(top: Option<TopMiner>) -> Address {
    match top {
        Some(top) => top.authority,
        None => DEFAULT_ADDRESS,
    }
}

/// How an iteration ends on an outcome.
pub open spec fn end_of(outcome: Outcome) -> IterationEnd {
    match outcome {
        Outcome::Won(signature) => IterationEnd::Won(signature),
        Outcome::Lost(round) => IterationEnd::Lost(round),
    }
}

impl ResetModel {
    pub open spec fn start(intermission_slots: u64) -> ResetModel {
        ResetModel {
            phase: ResetPhase::Board,
            intermission_slots,
            board: Board { round_id: 0, start_slot: 0, end_slot: 0 },
            config: Config { var_address: DEFAULT_ADDRESS, fee_collector: DEFAULT_ADDRESS },
            round: RoundView {
                id: 0,
                expires_at: 0,
                rent_payer: DEFAULT_ADDRESS,
                deployed: Seq::empty(),
            },
            var: Var { slot_hash: DEFAULT_ADDRESS, samples: 0, end_at: 0 },
            seed: DEFAULT_ADDRESS,
            top_miner: DEFAULT_ADDRESS,
            blockhash: DEFAULT_ADDRESS,
            attempts: 0,
            signatures: Seq::empty(),
        }
    }

    /// The first slot at which mining is over.
    pub open spec fn mining_end_slot(self) -> u64 {
        (self.board.end_slot + 1) as u64
    }

    /// The slot at which the intermission is over.
    pub open spec fn target_slot(self) -> u64 {
        if self.board.end_slot + self.intermission_slots <= u64::MAX {
            (self.board.end_slot + self.intermission_slots) as u64
        } else {
            u64::MAX
        }
    }

    /// The slot that is being waited for, if one is.
    pub open spec fn awaited_slot(self) -> Option<AwaitedSlot> {
        match self.phase {
            ResetPhase::MiningSlot => Some(AwaitedSlot::MiningEnd(self.mining_end_slot())),
            ResetPhase::SubmitSlot => Some(AwaitedSlot::Submit(self.target_slot())),
            _ => None,
        }
    }

    /// The round that a reset leads to.
    pub open spec fn next_round_id(self) -> u64 {
        (self.board.round_id + 1) as u64
    }

    /// What the reset transaction is made of.
    pub open spec fn plan(self) -> ResetPlan {
        ResetPlan {
            round_id: self.board.round_id,
            var_address: self.config.var_address,
            fee_collector: self.config.fee_collector,
            seed: self.seed,
            top_miner: self.top_miner,
            blockhash: self.blockhash,
        }
    }

    pub open spec fn ended(self, end: IterationEnd) -> ResetModel {
        ResetModel { phase: ResetPhase::Ended(end), ..self }
    }

    pub open spec fn at(self, phase: ResetPhase) -> ResetModel {
        ResetModel { phase, ..self }
    }

    /// The state after `event`. Whatever fails before the reset is fired ends
    /// the iteration, and so does a slot that is implausibly far off; a shot
    /// that fails does not. An event that was not asked for changes nothing.
    pub open spec fn after(self, event: ResetEvent) -> ResetModel {
        match (self.phase, event) {
            (ResetPhase::Board, ResetEvent::Board(read)) => match read {
                Some(board) => {
                    let known = ResetModel { board, ..self };
                    if board.end_slot == u64::MAX {
                        known.at(ResetPhase::Idle)
                    } else {
                        known.at(ResetPhase::MiningSlot)
                    }
                },
                None => self.ended(IterationEnd::Failed),
            },
            (ResetPhase::Idle, ResetEvent::Slept) => self.ended(IterationEnd::Idled),
            (ResetPhase::MiningSlot, ResetEvent::Slot(read)) => match read {
                Some(slot) => match slot_wait(slot, self.mining_end_slot()) {
                    SlotWait::Reached => self.at(ResetPhase::Config),
                    SlotWait::Abandoned { .. } => self.at(ResetPhase::Idle),
                    SlotWait::Poll { ms } => self.at(ResetPhase::MiningPause { ms }),
                },
                None => self.ended(IterationEnd::Failed),
            },
            (ResetPhase::MiningPause { .. }, ResetEvent::Slept) => self.at(ResetPhase::MiningSlot),
            (ResetPhase::Config, ResetEvent::Config(read)) => match read {
                Some(config) => ResetModel { config, ..self }.at(ResetPhase::Recheck),
                None => self.ended(IterationEnd::Failed),
            },
            (ResetPhase::Recheck, ResetEvent::Board(read)) => match read {
                Some(now) => if now.round_id == self.board.round_id {
                    self.at(ResetPhase::Round)
                } else {
                    self.ended(IterationEnd::Superseded(now.round_id))
                },
                None => self.ended(IterationEnd::Failed),
            },
            (ResetPhase::Round, ResetEvent::Round(read)) => match read {
                Some(round) => ResetModel { round: round@, ..self }.at(ResetPhase::Var),
                None => self.ended(IterationEnd::Unprepared),
            },
            (ResetPhase::Var, ResetEvent::Var(read)) => match read {
                Some(var) => ResetModel { var, ..self }.at(ResetPhase::Seed),
                None => self.ended(IterationEnd::Unprepared),
            },
            (ResetPhase::Seed, ResetEvent::Seed(fetched)) => match fetched {
                Some(seed) => ResetModel { seed, ..self }.at(ResetPhase::TopMiner),
                None => self.ended(IterationEnd::Unprepared),
            },
            (ResetPhase::TopMiner, ResetEvent::TopMiner(selected)) => match selected {
                Some(top) => ResetModel { top_miner: top_address(top), ..self }.at(
                    ResetPhase::Blockhash,
                ),
                None => self.ended(IterationEnd::Unprepared),
            },
            (ResetPhase::Blockhash, ResetEvent::Blockhash(fetched)) => match fetched {
                Some(blockhash) => ResetModel { blockhash, ..self }.at(ResetPhase::SubmitSlot),
                None => self.ended(IterationEnd::Unprepared),
            },
            (ResetPhase::SubmitSlot, ResetEvent::Slot(read)) => match read {
                Some(slot) => match slot_wait(slot, self.target_slot()) {
                    SlotWait::Reached => self.at(ResetPhase::Fire),
                    SlotWait::Abandoned { .. } => self.at(ResetPhase::Idle),
                    SlotWait::Poll { ms } => self.at(ResetPhase::SubmitPause { ms }),
                },
                None => self.ended(IterationEnd::Unprepared),
            },
            (ResetPhase::SubmitPause { .. }, ResetEvent::Slept) => self.at(ResetPhase::SubmitSlot),
            (ResetPhase::Fire, ResetEvent::Fired(sent)) => ResetModel {
                attempts: (self.attempts + 1) as u64,
                signatures: match sent {
                    Some(signature) => self.signatures.push(signature),
                    None => self.signatures,
                },
                ..self
            }.at(ResetPhase::Poll),
            (ResetPhase::Poll, ResetEvent::Polled(seen)) => match seen {
                Some(outcome) => self.ended(end_of(outcome)),
                None => if self.attempts < NUM_RETRIES {
                    self.at(ResetPhase::Fire)
                } else {
                    self.at(ResetPhase::LastPoll)
                },
            },
            (ResetPhase::LastPoll, ResetEvent::Polled(seen)) => match seen {
                Some(outcome) => self.ended(end_of(outcome)),
                None => self.ended(IterationEnd::NotAdvanced),
            },
            _ => self,
        }
    }

    /// The state after all of `events`.
    pub open spec fn after_all(self, events: Seq<ResetEvent>) -> ResetModel
        decreases events.len(),
    {
        if events.len() == 0 {
            self
        } else {
            self.after_all(events.drop_last()).after(events.last())
        }
    }

    /// What the iteration wants done in this state.
    pub open spec fn wants(self) -> ResetAction {
        match self.phase {
            ResetPhase::Board => ResetAction::ReadBoard,
            ResetPhase::Idle => ResetAction::Sleep(IDLE_MS),
            ResetPhase::MiningSlot => ResetAction::ReadSlot,
            ResetPhase::MiningPause { ms } => ResetAction::Sleep(ms),
            ResetPhase::Config => ResetAction::ReadConfig,
            ResetPhase::Recheck => ResetAction::ReadBoard,
            ResetPhase::Round => ResetAction::ReadRound(self.board.round_id),
            ResetPhase::Var => ResetAction::ReadVar(self.config.var_address),
            ResetPhase::Seed => ResetAction::FetchSeed(self.config.var_address),
            ResetPhase::TopMiner => ResetAction::SelectTopMiner,
            ResetPhase::Blockhash => ResetAction::FetchBlockhash,
            ResetPhase::SubmitSlot => ResetAction::ReadSlot,
            ResetPhase::SubmitPause { ms } => ResetAction::Sleep(ms),
            ResetPhase::Fire => ResetAction::Fire(self.plan()),
            ResetPhase::Poll => ResetAction::Poll,
            ResetPhase::LastPoll => ResetAction::Poll,
            ResetPhase::Ended(end) => ResetAction::Done(end),
        }
    }

    /// What every state of an iteration keeps.
    pub open spec fn wf(self) -> bool {
        &&& self.signatures.len() <= self.attempts <= NUM_RETRIES
        &&& self.stage() >= 1 && !(self.phase is Idle) ==> self.board.end_slot < u64::MAX
        &&& self.phase is Fire ==> self.attempts < NUM_RETRIES
        &&& self.phase is LastPoll ==> self.attempts == NUM_RETRIES
        &&& self.phase == ResetPhase::Ended(IterationEnd::NotAdvanced) ==> self.attempts
            == NUM_RETRIES
        &&& self.phase is Poll ==> self.attempts > 0
        &&& self.phase matches ResetPhase::Ended(end) ==> end.is_verdict() ==> self.attempts > 0
        &&& self.before_fire() ==> self.attempts == 0
    }

    /// How far the preparation of the reset has come: the number of things
    /// that were read, waited for or fetched.
    pub open spec fn stage(self) -> nat {
        match self.phase {
            ResetPhase::Board => 0,
            ResetPhase::Idle => 1,
            ResetPhase::MiningSlot => 1,
            ResetPhase::MiningPause { .. } => 1,
            ResetPhase::Config => 2,
            ResetPhase::Recheck => 3,
            ResetPhase::Round => 4,
            ResetPhase::Var => 5,
            ResetPhase::Seed => 6,
            ResetPhase::TopMiner => 7,
            ResetPhase::Blockhash => 8,
            ResetPhase::SubmitSlot => 9,
            ResetPhase::SubmitPause { .. } => 9,
            ResetPhase::Fire => 10,
            ResetPhase::Poll => 10,
            ResetPhase::LastPoll => 10,
            ResetPhase::Ended(IterationEnd::Won(_)) => 10,
            ResetPhase::Ended(IterationEnd::Lost(_)) => 10,
            ResetPhase::Ended(IterationEnd::NotAdvanced) => 10,
            ResetPhase::Ended(IterationEnd::Unprepared) => 4,
            ResetPhase::Ended(_) => 0,
        }
    }

    /// Whether the reset was not fired yet.
    pub open spec fn before_fire(self) -> bool {
        match self.phase {
            ResetPhase::Fire => false,
            ResetPhase::Poll => false,
            ResetPhase::LastPoll => false,
            ResetPhase::Ended(end) => !end.is_verdict(),
            _ => true,
        }
    }
}

pub proof fn lemma_after_keeps_wf(state: ResetModel, event: ResetEvent)
    requires
        state.wf(),
    ensures
        state.after(event).wf(),
{
}

/// One iteration of the reset loop.
pub struct ResetIteration {
    phase: ResetPhase,
    intermission_slots: u64,
    board: Board,
    config: Config,
    round: Round,
    var: Var,
    seed: [u8; 32],
    top_miner: Address,
    blockhash: [u8; 32],
    attempts: u64,
    signatures: Vec<Signature>,
}

impl View for ResetIteration {
    type V = ResetModel;

    closed spec fn view(&self) -> ResetModel {
        ResetModel {
            phase: self.phase,
            intermission_slots: self.intermission_slots,
            board: self.board,
            config: self.config,
            round: self.round@,
            var: self.var,
            seed: self.seed,
            top_miner: self.top_miner,
            blockhash: self.blockhash,
            attempts: self.attempts,
            signatures: self.signatures@,
        }
    }
}

/// Starts an iteration. The intermission between two rounds is a constant of
/// the program.
pub fn reset_iteration(intermission_slots: u64) -> (iteration: ResetIteration)
    ensures
        iteration@ == ResetModel::start(intermission_slots),
{
    let iteration = ResetIteration {
        phase: ResetPhase::Board,
        intermission_slots,
        board: Board { round_id: 0, start_slot: 0, end_slot: 0 },
        config: Config { var_address: DEFAULT_ADDRESS, fee_collector: DEFAULT_ADDRESS },
        round: Round {
            id: 0,
            expires_at: 0,
            rent_payer: DEFAULT_ADDRESS,
            deployed: Vec::new(),
        },
        var: Var { slot_hash: DEFAULT_ADDRESS, samples: 0, end_at: 0 },
        seed: DEFAULT_ADDRESS,
        top_miner: DEFAULT_ADDRESS,
        blockhash: DEFAULT_ADDRESS,
        attempts: 0,
        signatures: Vec::new(),
    };
    assert(iteration@ =~= ResetModel::start(intermission_slots));
    iteration
}

impl ResetIteration {
    #[verifier::type_invariant]
    spec fn inv(self) -> bool {
        self@.wf()
    }

    /// What is wanted next.
    pub fn action(&self) -> (action: ResetAction)
        ensures
            action == self@.wants(),
    {
        match self.phase {
            ResetPhase::Board => ResetAction::ReadBoard,
            ResetPhase::Idle => ResetAction::Sleep(IDLE_MS),
            ResetPhase::MiningSlot => ResetAction::ReadSlot,
            ResetPhase::MiningPause { ms } => ResetAction::Sleep(ms),
            ResetPhase::Config => ResetAction::ReadConfig,
            ResetPhase::Recheck => ResetAction::ReadBoard,
            ResetPhase::Round => ResetAction::ReadRound(self.board.round_id),
            ResetPhase::Var => ResetAction::ReadVar(self.config.var_address),
            ResetPhase::Seed => ResetAction::FetchSeed(self.config.var_address),
            ResetPhase::TopMiner => ResetAction::SelectTopMiner,
            ResetPhase::Blockhash => ResetAction::FetchBlockhash,
            ResetPhase::SubmitSlot => ResetAction::ReadSlot,
            ResetPhase::SubmitPause { ms } => ResetAction::Sleep(ms),
            ResetPhase::Fire => ResetAction::Fire(
                ResetPlan {
                    round_id: self.board.round_id,
                    var_address: self.config.var_address,
                    fee_collector: self.config.fee_collector,
                    seed: self.seed,
                    top_miner: self.top_miner,
                    blockhash: self.blockhash,
                },
            ),
            ResetPhase::Poll => ResetAction::Poll,
            ResetPhase::LastPoll => ResetAction::Poll,
            ResetPhase::Ended(end) => ResetAction::Done(end),
        }
    }

    /// The watch that [`ResetAction::Poll`] asks for: over every signature
    /// that went out so far, until the board is past the round.
    pub fn watch(&self) -> (poll: OutcomePoll)
        requires
            self@.board.round_id < u64::MAX,
        ensures
            poll@ == PollModel::start(self@.signatures, self@.next_round_id()),
            poll@.next_round_id == self@.board.round_id + 1,
            poll@.signatures == self@.signatures,
    {
        proof {
            use_type_invariant(self);
        }
        let mut signatures: Vec<Signature> = Vec::new();
        let mut i: usize = 0;
        while i < self.signatures.len()
            invariant
                i <= self.signatures@.len(),
                signatures@ == self.signatures@.take(i as int),
            decreases self.signatures@.len() - i,
        {
            signatures.push(self.signatures[i]);
            i = i + 1;
            assert(self.signatures@.take(i as int) =~= self.signatures@.take(i - 1).push(
                self.signatures@[i - 1],
            ));
        }
        assert(signatures@ =~= self.signatures@);
        poll_outcome(signatures, self.board.round_id + 1)
    }

    /// The board that the iteration started from, or zeros before it was read.
    pub fn board(&self) -> (board: Board)
        ensures
            board == self@.board,
    {
        self.board
    }

    /// The slot at which the intermission is over.
    pub fn target_slot(&self) -> (slot: u64)
        ensures
            slot == self@.target_slot(),
            slot == if self@.board.end_slot + self@.intermission_slots <= u64::MAX {
                self@.board.end_slot + self@.intermission_slots
            } else {
                u64::MAX as int
            },
    {
        self.board.end_slot.saturating_add(self.intermission_slots)
    }

    /// The slot that is being waited for, if one is.
    pub fn awaited_slot(&self) -> (awaited: Option<AwaitedSlot>)
        ensures
            awaited == self@.awaited_slot(),
    {
        proof {
            use_type_invariant(self);
        }
        match self.phase {
            ResetPhase::MiningSlot => Some(AwaitedSlot::MiningEnd(self.board.end_slot + 1)),
            ResetPhase::SubmitSlot => Some(AwaitedSlot::Submit(self.target_slot())),
            _ => None,
        }
    }

    /// How often the reset was fired so far.
    pub fn attempts(&self) -> (attempts: u64)
        ensures
            attempts == self@.attempts,
            attempts <= NUM_RETRIES,
    {
        proof {
            use_type_invariant(self);
        }
        self.attempts
    }

    /// The search that [`ResetAction::SelectTopMiner`] asks for: in the round
    /// and with the variable that were read, given the seed that was fetched.
    pub fn select(&self) -> (search: TopMinerSearch)
        ensures
            search@ == SelectModel::start(self@.round, self@.var, self@.seed),
    {
        search_top_miner(self.round.duplicate(), self.var, self.seed)
    }

    fn at(self, phase: ResetPhase) -> (next: ResetIteration)
        requires
            self@.at(phase).wf(),
        ensures
            next@ == self@.at(phase),
    {
        ResetIteration { phase, ..self }
    }

    fn on_slot(self, slot: u64, target: u64, submit: bool) -> (next: ResetIteration)
        requires
            self@.phase is MiningSlot && !submit || self@.phase is SubmitSlot && submit,
        ensures
            next@ == match slot_wait(slot, target) {
                SlotWait::Reached => if submit {
                    self@.at(ResetPhase::Fire)
                } else {
                    self@.at(ResetPhase::Config)
                },
                SlotWait::Abandoned { .. } => self@.at(ResetPhase::Idle),
                SlotWait::Poll { ms } => if submit {
                    self@.at(ResetPhase::SubmitPause { ms })
                } else {
                    self@.at(ResetPhase::MiningPause { ms })
                },
            },
    {
        proof {
            use_type_invariant(&self);
        }
        match wait_until_slot(slot, target) {
            SlotWait::Reached => if submit {
                self.at(ResetPhase::Fire)
            } else {
                self.at(ResetPhase::Config)
            },
            SlotWait::Abandoned { .. } => self.at(ResetPhase::Idle),
            SlotWait::Poll { ms } => if submit {
                self.at(ResetPhase::SubmitPause { ms })
            } else {
                self.at(ResetPhase::MiningPause { ms })
            },
        }
    }

    fn on_fired(self, sent: Option<Signature>) -> (next: ResetIteration)
        requires
            self@.phase is Fire,
        ensures
            next@ == self@.after(ResetEvent::Fired(sent)),
    {
        proof {
            use_type_invariant(&self);
        }
        let ghost before = self@;
        let attempts: u64 = self.attempts + 1;
        let ResetIteration {
            intermission_slots,
            board,
            config,
            round,
            var,
            seed,
            top_miner,
            blockhash,
            signatures: mut signatures,
            ..
        } = self;
        if let Some(signature) = sent {
            signatures.push(signature);
        }
        let next = ResetIteration {
            phase: ResetPhase::Poll,
            intermission_slots,
            board,
            config,
            round,
            var,
            seed,
            top_miner,
            blockhash,
            attempts,
            signatures,
        };
        assert(next@ =~= before.after(ResetEvent::Fired(sent)));
        next
    }

    /// Takes in the answer to the last action.
    pub fn on_event(self, event: ResetEvent) -> (next: ResetIteration)
        ensures
            next@ == self@.after(event),
    {
        proof {
            use_type_invariant(&self);
            lemma_after_keeps_wf(self@, event);
        }
        let mining_end: u64 = self.board.end_slot.saturating_add(1);
        let target: u64 = self.board.end_slot.saturating_add(self.intermission_slots);
        match (self.phase, event) {
            (ResetPhase::Board, ResetEvent::Board(Some(board))) => if board.end_slot == u64::MAX {
                ResetIteration { phase: ResetPhase::Idle, board, ..self }
            } else {
                ResetIteration { phase: ResetPhase::MiningSlot, board, ..self }
            },
            (ResetPhase::Idle, ResetEvent::Slept) => self.at(
                ResetPhase::Ended(IterationEnd::Idled),
            ),
            (ResetPhase::MiningSlot, ResetEvent::Slot(Some(slot))) => self.on_slot(
                slot,
                mining_end,
                false,
            ),
            (ResetPhase::MiningPause { .. }, ResetEvent::Slept) => self.at(ResetPhase::MiningSlot),
            (ResetPhase::Config, ResetEvent::Config(Some(config))) => ResetIteration {
                phase: ResetPhase::Recheck,
                config,
                ..self
            },
            (ResetPhase::Recheck, ResetEvent::Board(Some(now))) => if now.round_id
                == self.board.round_id {
                self.at(ResetPhase::Round)
            } else {
                self.at(ResetPhase::Ended(IterationEnd::Superseded(now.round_id)))
            },
            (ResetPhase::Round, ResetEvent::Round(Some(round))) => ResetIteration {
                phase: ResetPhase::Var,
                round,
                ..self
            },
            (ResetPhase::Var, ResetEvent::Var(Some(var))) => ResetIteration {
                phase: ResetPhase::Seed,
                var,
                ..self
            },
            (ResetPhase::Seed, ResetEvent::Seed(Some(seed))) => ResetIteration {
                phase: ResetPhase::TopMiner,
                seed,
                ..self
            },
            (ResetPhase::TopMiner, ResetEvent::TopMiner(Some(top))) => {
                let top_miner = match top {
                    Some(top) => top.authority,
                    None => DEFAULT_ADDRESS,
                };
                ResetIteration { phase: ResetPhase::Blockhash, top_miner, ..self }
            },
            (ResetPhase::Blockhash, ResetEvent::Blockhash(Some(blockhash))) => ResetIteration {
                phase: ResetPhase::SubmitSlot,
                blockhash,
                ..self
            },
            (ResetPhase::SubmitSlot, ResetEvent::Slot(Some(slot))) => self.on_slot(
                slot,
                target,
                true,
            ),
            (ResetPhase::SubmitPause { .. }, ResetEvent::Slept) => self.at(ResetPhase::SubmitSlot),
            (ResetPhase::Fire, ResetEvent::Fired(sent)) => self.on_fired(sent),
            (ResetPhase::Poll, ResetEvent::Polled(None)) => if self.attempts < NUM_RETRIES {
                self.at(ResetPhase::Fire)
            } else {
                self.at(ResetPhase::LastPoll)
            },
            (ResetPhase::LastPoll, ResetEvent::Polled(None)) => self.at(
                ResetPhase::Ended(IterationEnd::NotAdvanced),
            ),
            (ResetPhase::Poll, ResetEvent::Polled(Some(outcome))) => self.at(
                ResetPhase::Ended(ended_by(outcome)),
            ),
            (ResetPhase::LastPoll, ResetEvent::Polled(Some(outcome))) => self.at(
                ResetPhase::Ended(ended_by(outcome)),
            ),
            (ResetPhase::Board, ResetEvent::Board(None)) => self.at(
                ResetPhase::Ended(IterationEnd::Failed),
            ),
            (ResetPhase::MiningSlot, ResetEvent::Slot(None)) => self.at(
                ResetPhase::Ended(IterationEnd::Failed),
            ),
            (ResetPhase::Config, ResetEvent::Config(None)) => self.at(
                ResetPhase::Ended(IterationEnd::Failed),
            ),
            (ResetPhase::Recheck, ResetEvent::Board(None)) => self.at(
                ResetPhase::Ended(IterationEnd::Failed),
            ),
            (ResetPhase::Round, ResetEvent::Round(None)) => self.at(
                ResetPhase::Ended(IterationEnd::Unprepared),
            ),
            (ResetPhase::Var, ResetEvent::Var(None)) => self.at(
                ResetPhase::Ended(IterationEnd::Unprepared),
            ),
            (ResetPhase::Seed, ResetEvent::Seed(None)) => self.at(
                ResetPhase::Ended(IterationEnd::Unprepared),
            ),
            (ResetPhase::TopMiner, ResetEvent::TopMiner(None)) => self.at(
                ResetPhase::Ended(IterationEnd::Unprepared),
            ),
            (ResetPhase::Blockhash, ResetEvent::Blockhash(None)) => self.at(
                ResetPhase::Ended(IterationEnd::Unprepared),
            ),
            (ResetPhase::SubmitSlot, ResetEvent::Slot(None)) => self.at(
                ResetPhase::Ended(IterationEnd::Unprepared),
            ),
            _ => self,
        }
    }
}

fn ended_by(outcome: Outcome) -> (end: IterationEnd)
    ensures
        end == end_of(outcome),
{
    match outcome {
        Outcome::Won(signature) => IterationEnd::Won(signature),
        Outcome::Lost(round) => IterationEnd::Lost(round),
    }
}

/// Why an iteration did not run to its end.
#[derive(Clone, Copy, Debug, PartialEq, Eq)]
pub enum IterationError {
    /// The round did not advance, for all our attempts.
    NotAdvanced { round_id: u64 },
    /// Something could not be read or fetched.
    Failed,
}

/// What [`IterationError::NotAdvanced`] reads.
pub open spec fn not_advanced_message(round_id: u64) -> Seq<char> {
    "round "@ + decimal(round_id as nat) + " did not advance after "@ + decimal(NUM_RETRIES as nat)
        + " attempts"@
}

/// The message of a round that did not advance.
pub fn not_advanced(round_id: u64) -> (message: String)
    ensures
        message@ == not_advanced_message(round_id),
        message@ == "round "@ + decimal(round_id as nat) + " did not advance after "@ + decimal(4)
            + " attempts"@,
{
    let mut message = String::from_str("round ");
    message.append(decimal_text(round_id).as_str());
    message.append(" did not advance after ");
    message.append(decimal_text(NUM_RETRIES).as_str());
    message.append(" attempts");
    message
}

/// The tally after an iteration that ended in this way: one more win or loss
/// where the round advanced, one more failure where it stood still for all our
/// attempts or because its reset could not be prepared, else the same. It is
/// iterations that are counted: a round that fails again in another iteration
/// counts again.
pub open spec fn tallied(tally: Tally, end: IterationEnd) -> Tally {
    match end {
        IterationEnd::Won(_) => Tally { won: bumped(tally.won), ..tally },
        IterationEnd::Lost(_) => Tally { lost: bumped(tally.lost), ..tally },
        IterationEnd::NotAdvanced => Tally { failed: bumped(tally.failed), ..tally },
        IterationEnd::Unprepared => Tally { failed: bumped(tally.failed), ..tally },
        _ => tally,
    }
}

/// The tally after several iterations, on the same round or not.
pub open spec fn tallied_all(tally: Tally, ends: Seq<IterationEnd>) -> Tally
    decreases ends.len(),
{
    if ends.len() == 0 {
        tally
    } else {
        tallied(tallied_all(tally, ends.drop_last()), ends.last())
    }
}

/// Records how an iteration on round `round_id` ended. It is an error where
/// the round did not advance and where something failed on the way.
pub fn finish(stats: &mut ResetStats, round_id: u64, end: IterationEnd) -> (done: Result<
    (),
    IterationError,
>)
    ensures
        final(stats)@ == tallied(old(stats)@, end),
        end is Won ==> final(stats)@.won == if old(stats)@.won < u64::MAX {
            old(stats)@.won + 1
        } else {
            0
        },
        !(end is Won) ==> final(stats)@.won == old(stats)@.won,
        end is Lost ==> final(stats)@.lost == if old(stats)@.lost < u64::MAX {
            old(stats)@.lost + 1
        } else {
            0
        },
        !(end is Lost) ==> final(stats)@.lost == old(stats)@.lost,
        end is NotAdvanced || end is Unprepared ==> final(stats)@.failed == if old(stats)@.failed
            < u64::MAX {
            old(stats)@.failed + 1
        } else {
            0
        },
        !(end is NotAdvanced) && !(end is Unprepared) ==> final(stats)@.failed
            == old(stats)@.failed,
        done == match end {
            IterationEnd::NotAdvanced => Err(IterationError::NotAdvanced { round_id }),
            IterationEnd::Unprepared => Err(IterationError::Failed),
            IterationEnd::Failed => Err(IterationError::Failed),
            _ => Ok(()),
        },
{
    match end {
        IterationEnd::Won(_) => {
            stats.record_win();
            Ok(())
        },
        IterationEnd::Lost(_) => {
            stats.record_loss();
            Ok(())
        },
        IterationEnd::NotAdvanced => {
            stats.record_failure();
            Err(IterationError::NotAdvanced { round_id })
        },
        IterationEnd::Unprepared => {
            stats.record_failure();
            Err(IterationError::Failed)
        },
        IterationEnd::Failed => Err(IterationError::Failed),
        _ => Ok(()),
    }
}

/// How long to rest before the next iteration, in milliseconds: the loop goes
/// straight on, but for a rest after an error.
pub fn rest_after(done: &Result<(), IterationError>) -> (ms: Option<u64>)
    ensures
        ms == match done {
            Ok(_) => None,
            Err(_) => Some(SLEEP_MS),
        },
{
    match done {
        Ok(_) => None,
        Err(_) => Some(SLEEP_MS),
    }
}

/// Whatever is answered, and in whatever order, the state of an iteration
/// stays valid.
pub proof fn law_states_stay_valid(intermission_slots: u64, events: Seq<ResetEvent>)
    ensures
        ResetModel::start(intermission_slots).after_all(events).wf(),
        ResetModel::start(intermission_slots).after_all(events).intermission_slots
            == intermission_slots,
    decreases events.len(),
{
    if events.len() > 0 {
        law_states_stay_valid(intermission_slots, events.drop_last());
        lemma_after_keeps_wf(
            ResetModel::start(intermission_slots).after_all(events.drop_last()),
            events.last(),
        );
    }
}

/// An iteration that has ended stays as it is.
pub proof fn law_end_is_final(state: ResetModel, events: Seq<ResetEvent>)
    requires
        state.phase is Ended,
    ensures
        state.after_all(events) == state,
    decreases events.len(),
{
    if events.len() > 0 {
        law_end_is_final(state, events.drop_last());
    }
}

impl ResetModel {
    /// Whether `event` was the answer while the iteration was in `phase`.
    pub open spec fn answered(
        self,
        events: Seq<ResetEvent>,
        phase: ResetPhase,
        event: ResetEvent,
    ) -> bool {
        exists|k: int|
            0 <= k < events.len() && #[trigger] events[k] == event && self.after_all(
                events.take(k),
            ).phase == phase
    }

    /// Whether the wait for `target` that `phase` stands for is over: the chain
    /// was seen to be there.
    pub open spec fn waited(
        self,
        events: Seq<ResetEvent>,
        phase: ResetPhase,
        target: u64,
    ) -> bool {
        exists|slot: u64|
            slot >= target && #[trigger] self.answered(
                events,
                phase,
                ResetEvent::Slot(Some(slot)),
            )
    }

    /// Whether all that `state` knows was answered, as far as it has come.
    pub open spec fn prepared(self, events: Seq<ResetEvent>, state: ResetModel) -> bool {
        &&& state.stage() >= 1 ==> self.answered(
            events,
            ResetPhase::Board,
            ResetEvent::Board(Some(state.board)),
        )
        &&& state.stage() >= 2 ==> self.waited(
            events,
            ResetPhase::MiningSlot,
            state.mining_end_slot(),
        )
        &&& state.stage() >= 3 ==> self.answered(
            events,
            ResetPhase::Config,
            ResetEvent::Config(Some(state.config)),
        )
        &&& state.stage() >= 4 ==> exists|now: Board|
            now.round_id == state.board.round_id && #[trigger] self.answered(
                events,
                ResetPhase::Recheck,
                ResetEvent::Board(Some(now)),
            )
        &&& state.stage() >= 5 ==> exists|round: Round|
            round@ == state.round && #[trigger] self.answered(
                events,
                ResetPhase::Round,
                ResetEvent::Round(Some(round)),
            )
        &&& state.stage() >= 6 ==> self.answered(
            events,
            ResetPhase::Var,
            ResetEvent::Var(Some(state.var)),
        )
        &&& state.stage() >= 7 ==> self.answered(
            events,
            ResetPhase::Seed,
            ResetEvent::Seed(Some(state.seed)),
        )
        &&& state.stage() >= 8 ==> exists|top: Option<TopMiner>|
            state.top_miner == top_address(top) && #[trigger] self.answered(
                events,
                ResetPhase::TopMiner,
                ResetEvent::TopMiner(Some(top)),
            )
        &&& state.stage() >= 9 ==> self.answered(
            events,
            ResetPhase::Blockhash,
            ResetEvent::Blockhash(Some(state.blockhash)),
        )
        &&& state.stage() >= 10 ==> self.waited(
            events,
            ResetPhase::SubmitSlot,
            state.target_slot(),
        )
    }
}

proof fn lemma_answer_stays(
    start: ResetModel,
    events: Seq<ResetEvent>,
    phase: ResetPhase,
    event: ResetEvent,
)
    requires
        events.len() > 0,
        start.answered(events.drop_last(), phase, event),
    ensures
        start.answered(events, phase, event),
{
    let earlier = events.drop_last();
    let k = choose|k: int|
        0 <= k < earlier.len() && #[trigger] earlier[k] == event && start.after_all(
            earlier.take(k),
        ).phase == phase;
    assert(events[k] == event);
    assert(events.take(k) =~= earlier.take(k));
}

proof fn lemma_last_answers(start: ResetModel, events: Seq<ResetEvent>)
    requires
        events.len() > 0,
    ensures
        start.answered(
            events,
            start.after_all(events.drop_last()).phase,
            events.last(),
        ),
{
    let k = events.len() - 1;
    assert(events[k] == events.last());
    assert(events.take(k) =~= events.drop_last());
}

proof fn lemma_preparation_stays(start: ResetModel, events: Seq<ResetEvent>, state: ResetModel)
    requires
        events.len() > 0,
        start.prepared(events.drop_last(), state),
    ensures
        start.prepared(events, state),
{
    let earlier = events.drop_last();
    assert forall|phase: ResetPhase, event: ResetEvent|
        start.answered(earlier, phase, event) implies #[trigger] start.answered(
        events,
        phase,
        event,
    ) by {
        lemma_answer_stays(start, events, phase, event);
    }
    if state.stage() >= 2 {
        let slot = choose|slot: u64|
            slot >= state.mining_end_slot() && #[trigger] start.answered(
                earlier,
                ResetPhase::MiningSlot,
                ResetEvent::Slot(Some(slot)),
            );
        assert(start.answered(events, ResetPhase::MiningSlot, ResetEvent::Slot(Some(slot))));
    }
    if state.stage() >= 4 {
        let now = choose|now: Board|
            now.round_id == state.board.round_id && #[trigger] start.answered(
                earlier,
                ResetPhase::Recheck,
                ResetEvent::Board(Some(now)),
            );
        assert(start.answered(events, ResetPhase::Recheck, ResetEvent::Board(Some(now))));
    }
    if state.stage() >= 5 {
        let round = choose|round: Round|
            round@ == state.round && #[trigger] start.answered(
                earlier,
                ResetPhase::Round,
                ResetEvent::Round(Some(round)),
            );
        assert(start.answered(events, ResetPhase::Round, ResetEvent::Round(Some(round))));
    }
    if state.stage() >= 8 {
        let top = choose|top: Option<TopMiner>|
            state.top_miner == top_address(top) && #[trigger] start.answered(
                earlier,
                ResetPhase::TopMiner,
                ResetEvent::TopMiner(Some(top)),
            );
        assert(start.answered(events, ResetPhase::TopMiner, ResetEvent::TopMiner(Some(top))));
    }
    if state.stage() >= 10 {
        let slot = choose|slot: u64|
            slot >= state.target_slot() && #[trigger] start.answered(
                earlier,
                ResetPhase::SubmitSlot,
                ResetEvent::Slot(Some(slot)),
            );
        assert(start.answered(events, ResetPhase::SubmitSlot, ResetEvent::Slot(Some(slot))));
    }
}

proof fn lemma_preparation_step(
    start: ResetModel,
    events: Seq<ResetEvent>,
    before: ResetModel,
    last: ResetEvent,
)
    requires
        start.prepared(events, before),
        start.answered(events, before.phase, last),
    ensures
        start.prepared(events, before.after(last)),
{
    let state = before.after(last);
    match before.phase {
        ResetPhase::Board => {},
        ResetPhase::MiningSlot => {
            if let ResetEvent::Slot(Some(slot)) = last {
                assert(start.answered(
                    events,
                    ResetPhase::MiningSlot,
                    ResetEvent::Slot(Some(slot)),
                ));
                assert(state.mining_end_slot() == before.mining_end_slot());
            }
        },
        ResetPhase::Recheck => {
            if let ResetEvent::Board(Some(now)) = last {
                assert(start.answered(events, ResetPhase::Recheck, ResetEvent::Board(Some(now))));
            }
        },
        ResetPhase::Round => {
            if let ResetEvent::Round(Some(round)) = last {
                assert(start.answered(events, ResetPhase::Round, ResetEvent::Round(Some(round))));
            }
        },
        ResetPhase::TopMiner => {
            if let ResetEvent::TopMiner(Some(top)) = last {
                assert(start.answered(
                    events,
                    ResetPhase::TopMiner,
                    ResetEvent::TopMiner(Some(top)),
                ));
            }
        },
        ResetPhase::SubmitSlot => {
            if let ResetEvent::Slot(Some(slot)) = last {
                assert(start.answered(
                    events,
                    ResetPhase::SubmitSlot,
                    ResetEvent::Slot(Some(slot)),
                ));
                assert(state.target_slot() == before.target_slot());
            }
        },
        _ => {},
    }
}

proof fn lemma_prepared(intermission_slots: u64, events: Seq<ResetEvent>)
    ensures
        ResetModel::start(intermission_slots).prepared(
            events,
            ResetModel::start(intermission_slots).after_all(events),
        ),
    decreases events.len(),
{
    let start = ResetModel::start(intermission_slots);
    if events.len() > 0 {
        let earlier = events.drop_last();
        let before = start.after_all(earlier);
        lemma_prepared(intermission_slots, earlier);
        lemma_preparation_stays(start, events, before);
        lemma_last_answers(start, events);
        lemma_preparation_step(start, events, before, events.last());
    }
}

/// Whether `address` is what a reset names for this top miner: its authority,
/// or all zeros where there is none.
pub open spec fn names(address: Address, top: Option<TopMiner>) -> bool {
    match top {
        Some(top) => address == top.authority,
        None => forall|i: int| 0 <= i < 32 ==> #[trigger] address@[i] == 0,
    }
}

/// Nothing is fired unprepared: a reset goes out only for a round that has had
/// a deploy, after the chain was seen past the end of its mining and, later,
/// at the end of its intermission, with the board still at the round behind
/// the first wait, and with the configuration, the round, the variable, the
/// seed, the top miner and the blockhash that were answered.
pub proof fn law_nothing_is_fired_unprepared(
    intermission_slots: u64,
    events: Seq<ResetEvent>,
    plan: ResetPlan,
)
    requires
        ResetModel::start(intermission_slots).after_all(events).wants() == ResetAction::Fire(plan),
    ensures
        ({
            let start = ResetModel::start(intermission_slots);
            let state = start.after_all(events);
            &&& plan.round_id == state.board.round_id
            &&& plan.var_address == state.config.var_address
            &&& plan.fee_collector == state.config.fee_collector
            &&& state.board.end_slot < u64::MAX
            &&& state.mining_end_slot() == state.board.end_slot + 1
            &&& state.target_slot() == if state.board.end_slot + intermission_slots <= u64::MAX {
                state.board.end_slot + intermission_slots
            } else {
                u64::MAX as int
            }
            &&& start.answered(events, ResetPhase::Board, ResetEvent::Board(Some(state.board)))
            &&& start.waited(events, ResetPhase::MiningSlot, state.mining_end_slot())
            &&& start.answered(events, ResetPhase::Config, ResetEvent::Config(Some(state.config)))
            &&& exists|now: Board|
                now.round_id == plan.round_id && #[trigger] start.answered(
                    events,
                    ResetPhase::Recheck,
                    ResetEvent::Board(Some(now)),
                )
            &&& exists|round: Round|
                round@ == state.round && #[trigger] start.answered(
                    events,
                    ResetPhase::Round,
                    ResetEvent::Round(Some(round)),
                )
            &&& start.answered(events, ResetPhase::Var, ResetEvent::Var(Some(state.var)))
            &&& start.answered(events, ResetPhase::Seed, ResetEvent::Seed(Some(plan.seed)))
            &&& exists|top: Option<TopMiner>|
                names(plan.top_miner, top) && #[trigger] start.answered(
                    events,
                    ResetPhase::TopMiner,
                    ResetEvent::TopMiner(Some(top)),
                )
            &&& start.answered(
                events,
                ResetPhase::Blockhash,
                ResetEvent::Blockhash(Some(plan.blockhash)),
            )
            &&& start.waited(events, ResetPhase::SubmitSlot, state.target_slot())
        }),
{
    let start = ResetModel::start(intermission_slots);
    let state = start.after_all(events);
    law_states_stay_valid(intermission_slots, events);
    lemma_prepared(intermission_slots, events);
    let top = choose|top: Option<TopMiner>|
        state.top_miner == top_address(top) && #[trigger] start.answered(
            events,
            ResetPhase::TopMiner,
            ResetEvent::TopMiner(Some(top)),
        );
    assert(names(plan.top_miner, top)) by {
        assert(forall|i: int| 0 <= i < 32 ==> #[trigger] DEFAULT_ADDRESS@[i] == 0);
    }
}

/// Nothing is prepared early: the seed is asked for only after the chain was
/// seen past the end of the round's mining.
pub proof fn law_seed_is_fetched_after_mining(
    intermission_slots: u64,
    events: Seq<ResetEvent>,
    var: Address,
)
    requires
        ResetModel::start(intermission_slots).after_all(events).wants() == ResetAction::FetchSeed(
            var,
        ),
    ensures
        ({
            let start = ResetModel::start(intermission_slots);
            let state = start.after_all(events);
            &&& start.answered(events, ResetPhase::Board, ResetEvent::Board(Some(state.board)))
            &&& state.board.end_slot < u64::MAX
            &&& start.waited(events, ResetPhase::MiningSlot, state.mining_end_slot())
        }),
{
    law_states_stay_valid(intermission_slots, events);
    lemma_prepared(intermission_slots, events);
}

/// A failure to prepare is counted only of a round that stood still: after its
/// mining was waited out, the board was seen at that round again, and nothing
/// was fired at it.
pub proof fn law_unprepared_round_stood_still(intermission_slots: u64, events: Seq<ResetEvent>)
    requires
        ResetModel::start(intermission_slots).after_all(events).wants() == ResetAction::Done(
            IterationEnd::Unprepared,
        ),
    ensures
        ({
            let start = ResetModel::start(intermission_slots);
            let state = start.after_all(events);
            &&& start.answered(events, ResetPhase::Board, ResetEvent::Board(Some(state.board)))
            &&& start.waited(events, ResetPhase::MiningSlot, state.mining_end_slot())
            &&& exists|now: Board|
                now.round_id == state.board.round_id && #[trigger] start.answered(
                    events,
                    ResetPhase::Recheck,
                    ResetEvent::Board(Some(now)),
                )
            &&& start.shots(events).len() == 0
        }),
{
    law_states_stay_valid(intermission_slots, events);
    lemma_prepared(intermission_slots, events);
    law_every_shot_is_watched(intermission_slots, events);
}

/// What the top miner is selected from was answered: the round, the variable
/// and the seed, with which [`ResetIteration::select`] searches. And what was
/// selected is what the reset will name.
pub proof fn law_top_miner_is_the_selected_one(
    intermission_slots: u64,
    events: Seq<ResetEvent>,
    top: Option<TopMiner>,
)
    requires
        ResetModel::start(intermission_slots).after_all(events).wants()
            is SelectTopMiner,
    ensures
        ({
            let start = ResetModel::start(intermission_slots);
            let state = start.after_all(events);
            let next = state.after(ResetEvent::TopMiner(Some(top)));
            &&& exists|round: Round|
                round@ == state.round && #[trigger] start.answered(
                    events,
                    ResetPhase::Round,
                    ResetEvent::Round(Some(round)),
                )
            &&& start.answered(events, ResetPhase::Var, ResetEvent::Var(Some(state.var)))
            &&& start.answered(events, ResetPhase::Seed, ResetEvent::Seed(Some(state.seed)))
            &&& next.top_miner == top_address(top)
            &&& next.wants() is FetchBlockhash
        }),
{
    lemma_prepared(intermission_slots, events);
}

impl ResetModel {
    /// What became of each shot, in order.
    pub open spec fn shots(self, events: Seq<ResetEvent>) -> Seq<Option<Signature>>
        decreases events.len(),
    {
        if events.len() == 0 {
            Seq::empty()
        } else {
            let earlier = self.shots(events.drop_last());
            match (self.after_all(events.drop_last()).phase, events.last()) {
                (ResetPhase::Fire, ResetEvent::Fired(sent)) => earlier.push(sent),
                _ => earlier,
            }
        }
    }

    /// An upper bound on the answers that the race for the round still takes.
    pub open spec fn left(self) -> int {
        match self.phase {
            ResetPhase::Fire => 2 * (NUM_RETRIES - self.attempts) + 1,
            ResetPhase::Poll => 2 * (NUM_RETRIES - self.attempts) + 2,
            ResetPhase::LastPoll => 1,
            _ => 0,
        }
    }

    /// Whether `event` answers what the iteration asked for.
    pub open spec fn awaits(self, event: ResetEvent) -> bool {
        match self.wants() {
            ResetAction::ReadBoard => event is Board,
            ResetAction::Sleep(_) => event is Slept,
            ResetAction::ReadSlot => event is Slot,
            ResetAction::ReadConfig => event is Config,
            ResetAction::ReadRound(_) => event is Round,
            ResetAction::ReadVar(_) => event is Var,
            ResetAction::FetchSeed(_) => event is Seed,
            ResetAction::SelectTopMiner => event is TopMiner,
            ResetAction::FetchBlockhash => event is Blockhash,
            ResetAction::Fire(_) => event is Fired,
            ResetAction::Poll => event is Polled,
            ResetAction::Done(_) => false,
        }
    }
}

/// The signatures of the shots that went out, in order.
pub open spec fn went_out(shots: Seq<Option<Signature>>) -> Seq<Signature>
    decreases shots.len(),
{
    if shots.len() == 0 {
        Seq::empty()
    } else {
        match shots.last() {
            Some(signature) => went_out(shots.drop_last()).push(signature),
            None => went_out(shots.drop_last()),
        }
    }
}

/// No signature of ours is forgotten and none is made up, and a round is not
/// fired at forever: the signatures that are watched are those of the shots
/// that went out, in order, and there are at most [`NUM_RETRIES`] shots.
pub proof fn law_every_shot_is_watched(intermission_slots: u64, events: Seq<ResetEvent>)
    ensures
        ({
            let start = ResetModel::start(intermission_slots);
            let state = start.after_all(events);
            &&& state.attempts == start.shots(events).len()
            &&& start.shots(events).len() <= NUM_RETRIES
            &&& state.signatures == went_out(start.shots(events))
        }),
    decreases events.len(),
{
    let start = ResetModel::start(intermission_slots);
    law_states_stay_valid(intermission_slots, events);
    if events.len() > 0 {
        let earlier = events.drop_last();
        law_every_shot_is_watched(intermission_slots, earlier);
        law_states_stay_valid(intermission_slots, earlier);
        match (start.after_all(earlier).phase, events.last()) {
            (ResetPhase::Fire, ResetEvent::Fired(sent)) => {
                assert(start.shots(events).drop_last() =~= start.shots(earlier));
            },
            _ => {},
        }
    }
}

/// A round is given up only after every attempt: an iteration that ends
/// without the round having advanced has fired [`NUM_RETRIES`] times.
pub proof fn law_giving_up_took_every_attempt(intermission_slots: u64, events: Seq<ResetEvent>)
    requires
        ResetModel::start(intermission_slots).after_all(events).wants() == ResetAction::Done(
            IterationEnd::NotAdvanced,
        ),
    ensures
        ResetModel::start(intermission_slots).shots(events).len() == NUM_RETRIES,
{
    law_states_stay_valid(intermission_slots, events);
    law_every_shot_is_watched(intermission_slots, events);
}

/// An iteration that has fired ends with a verdict, and only such a one does:
/// it is won, lost or not advanced exactly where there was a shot.
pub proof fn law_shots_lead_to_a_verdict(
    intermission_slots: u64,
    events: Seq<ResetEvent>,
    end: IterationEnd,
)
    requires
        ResetModel::start(intermission_slots).after_all(events).wants() == ResetAction::Done(end),
    ensures
        end.is_verdict() <==> ResetModel::start(intermission_slots).shots(events).len() > 0,
{
    law_states_stay_valid(intermission_slots, events);
    law_every_shot_is_watched(intermission_slots, events);
}

proof fn lemma_plan_stays(state: ResetModel, events: Seq<ResetEvent>)
    requires
        state.stage() == 10,
    ensures
        state.after_all(events).stage() == 10,
        state.after_all(events).plan() == state.plan(),
    decreases events.len(),
{
    if events.len() > 0 {
        lemma_plan_stays(state, events.drop_last());
    }
}

proof fn lemma_after_all_splits(state: ResetModel, events: Seq<ResetEvent>, k: int)
    requires
        0 <= k <= events.len(),
    ensures
        state.after_all(events) == state.after_all(events.take(k)).after_all(events.skip(k)),
    decreases events.len(),
{
    if k == events.len() {
        assert(events.take(k) =~= events);
        assert(events.skip(k) =~= Seq::empty());
    } else {
        let earlier = events.drop_last();
        lemma_after_all_splits(state, earlier, k);
        assert(earlier.take(k) =~= events.take(k));
        assert(earlier.skip(k) =~= events.skip(k).drop_last());
        assert(events.skip(k).last() == events.last());
    }
}

/// Every shot of an iteration is the same: whenever a shot is due, it is with
/// the plan of the first one.
pub proof fn law_every_shot_has_the_same_plan(
    intermission_slots: u64,
    events: Seq<ResetEvent>,
    k: int,
    earlier: ResetPlan,
    later: ResetPlan,
)
    requires
        0 <= k <= events.len(),
        ResetModel::start(intermission_slots).after_all(events.take(k)).wants()
            == ResetAction::Fire(earlier),
        ResetModel::start(intermission_slots).after_all(events).wants() == ResetAction::Fire(later),
    ensures
        later == earlier,
{
    let start = ResetModel::start(intermission_slots);
    lemma_after_all_splits(start, events, k);
    lemma_plan_stays(start.after_all(events.take(k)), events.skip(k));
}

/// Every try at a round is counted once, and nothing else is: as long as no
/// tally is full, the tries grow by one exactly where an iteration ends with a
/// verdict on its round or with a reset that could not be prepared.
pub proof fn law_each_try_counts_once(tally: Tally, end: IterationEnd)
    requires
        tally.won < u64::MAX,
        tally.lost < u64::MAX,
        tally.failed < u64::MAX,
    ensures
        tallied(tally, end).attempted() == tally.attempted() + if end.is_verdict()
            || end is Unprepared {
            1int
        } else {
            0
        },
{
}

/// A round that fails in several iterations counts as often: as long as no
/// tally is full, `ends.len()` iterations that could not be prepared, or did
/// not advance their round, are that many failures, and nothing else changes.
pub proof fn law_repeated_failures_count_each(tally: Tally, ends: Seq<IterationEnd>)
    requires
        tally.failed + ends.len() <= u64::MAX,
        forall|i: int|
            0 <= i < ends.len() ==> #[trigger] ends[i] is Unprepared || ends[i] is NotAdvanced,
    ensures
        tallied_all(tally, ends) == (Tally {
            failed: (tally.failed + ends.len()) as u64,
            ..tally
        }),
    decreases ends.len(),
{
    if ends.len() > 0 {
        let earlier = ends.drop_last();
        assert(forall|i: int| 0 <= i < earlier.len() ==> #[trigger] earlier[i] == ends[i]);
        law_repeated_failures_count_each(tally, earlier);
        assert(ends[ends.len() - 1] == ends.last());
    }
}

proof fn lemma_race_step(state: ResetModel, event: ResetEvent)
    requires
        state.wf(),
        state.phase is Fire || state.phase is Poll || state.phase is LastPoll,
        state.awaits(event),
    ensures
        state.after(event).left() < state.left(),
        racing(state.after(event)),
{
}

/// Whether the race for the round is on or over.
spec fn racing(state: ResetModel) -> bool {
    &&& state.left() >= 0
    &&& state.left() == 0 <==> state.phase is Ended
    &&& state.phase is Fire || state.phase is Poll || state.phase is LastPoll
        || state.phase is Ended
}

proof fn lemma_race(state: ResetModel, events: Seq<ResetEvent>)
    requires
        state.wf(),
        state.phase is Fire,
        forall|k: int|
            0 <= k < events.len() ==> state.after_all(events.take(k)).awaits(#[trigger] events[k]),
    ensures
        events.len() + state.after_all(events).left() <= state.left(),
        state.after_all(events).wf(),
        racing(state.after_all(events)),
    decreases events.len(),
{
    if events.len() > 0 {
        let earlier = events.drop_last();
        let last = events.last();
        assert(events.take(events.len() - 1) =~= earlier);
        assert forall|k: int| 0 <= k < earlier.len() implies state.after_all(
            earlier.take(k),
        ).awaits(#[trigger] earlier[k]) by {
            assert(earlier[k] == events[k]);
            assert(earlier.take(k) =~= events.take(k));
        }
        lemma_race(state, earlier);
        assert(last == events[events.len() - 1]);
        lemma_after_keeps_wf(state.after_all(earlier), last);
        lemma_race_step(state.after_all(earlier), last);
    }
}

/// The race for a round ends: once the first shot is due, at most nine answers
/// decide it, two for each shot and one for the last watch.
pub proof fn law_race_ends(state: ResetModel, events: Seq<ResetEvent>)
    requires
        state.wf(),
        state.phase is Fire,
        forall|k: int|
            0 <= k < events.len() ==> state.after_all(events.take(k)).awaits(#[trigger] events[k]),
    ensures
        events.len() + state.after_all(events).left() <= 2 * NUM_RETRIES + 1,
        state.after_all(events).wf(),
        state.after_all(events).left() >= 0,
        state.after_all(events).left() == 0 <==> state.after_all(events).phase is Ended,
{
    lemma_race(state, events);
}

/// The verdict on a round is that of the watch: a win names one of the
/// signatures that went out, and the watch was told that it confirmed; a loss
/// names a round behind this one that the board was seen at.
pub proof fn law_verdict_is_true(
    state: ResetModel,
    polls: Seq<PollEvent>,
    outcome: Outcome,
)
    requires
        state.wf(),
        state.board.round_id < u64::MAX,
        state.wants() is Poll,
        PollModel::start(state.signatures, state.next_round_id()).after_all(polls).wants()
            == PollAction::Done(Some(outcome)),
    ensures
        state.after(ResetEvent::Polled(Some(outcome))).wants() == ResetAction::Done(
            match outcome {
                Outcome::Won(signature) => IterationEnd::Won(signature),
                Outcome::Lost(round) => IterationEnd::Lost(round),
            },
        ),
        match outcome {
            Outcome::Won(signature) => state.signatures.contains(signature) && exists|k: int|
                0 <= k < polls.len() && #[trigger] polls[k] == PollEvent::Status(true)
                    && PollModel::start(state.signatures, state.next_round_id()).after_all(
                    polls.take(k),
                ).wants() == PollAction::ReadStatus(signature),
            Outcome::Lost(round) => round > state.board.round_id && exists|k: int|
                0 <= k < polls.len() && #[trigger] polls[k] == PollEvent::Board(Some(round)),
        },
{
    match outcome {
        Outcome::Won(signature) => {
            law_win_was_confirmed(state.signatures, state.next_round_id(), polls, signature);
        },
        Outcome::Lost(round) => {
            law_loss_was_seen(state.signatures, state.next_round_id(), polls, round);
        },
    }
}

} // verus!
