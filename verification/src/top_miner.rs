//! The search for the top miner of a round, from its entropy variable and
//! seed to the authority that a reset names.
//!
//! Where the variable carries no slot hash yet, the slot-hashes sysvar is
//! read. The random number that follows draws a winning square. Where the
//! program will look at the top miner, the number also draws a sample, and the
//! miners of the round are read to find the one that covers it.
use crate::chain::{zeros, Miner, Round, RoundView, Var};
use crate::selection::{
    contested, draw_rng, drawn_rng, has_slot_hashes, has_square, is_slot_hash,
    law_slot_hash_is_unique, needs_slot_hashes, needs_top_miner, select_top_miner, wins, NoWinner,
    TopMiner,
};
use vstd::prelude::*;

verus! {

/// Why no decision on the top miner could be made.
#[derive(Clone, Copy, Debug, PartialEq, Eq)]
pub enum SelectError {
    /// The slot-hashes sysvar could not be fetched.
    NoSlotHashes,
    /// The slot-hashes sysvar could not be decoded.
    MalformedSlotHashes,
    /// The miners of the round could not be fetched.
    NoMiners,
    /// No miner covers the sample.
    NoWinner(NoWinner),
}

/// What a search wants done next.
#[derive(Clone, Copy, Debug, PartialEq, Eq)]
pub enum SelectAction {
    /// Fetch the slot-hashes sysvar.
    ReadSlotHashes,
    /// Let the round draw its winning square with this number, and tell
    /// whether its reward is split.
    Draw { rng: u64 },
    /// Let the round draw its sample on the winning square with this number.
    Sample { rng: u64, winning_square: usize },
    /// Fetch the miners whose last round is this one.
    ReadMiners { round_id: u64 },
    /// Nothing more: this is the decision. No top miner means that the default
    /// address is the right one.
    Done(Result<Option<TopMiner>, SelectError>),
}

/// Where a search stands.
#[derive(Clone, Copy)]
pub enum SelectPhase {
    SlotHashes,
    Drawing { rng: u64 },
    Sampling { rng: u64, winning_square: usize },
    Miners { winning_square: usize, sample: u64 },
    Ended(Result<Option<TopMiner>, SelectError>),
}

/// The slot hash that the entropy program will use.
pub open spec fn slot_hash_of(var: Var, sysvar: Seq<u8>) -> Seq<u8> {
    choose|hash: Seq<u8>| is_slot_hash(var, sysvar, hash)
}

/// Whether miner `i` is the first that wins.
pub open spec fn is_first_winner(
    miners: Seq<Miner>,
    round_id: u64,
    square: int,
    sample: u64,
    i: int,
) -> bool {
    &&& 0 <= i < miners.len()
    &&& wins(miners[i], round_id, square, sample)
    &&& forall|j: int| 0 <= j < i ==> !#[trigger] wins(miners[j], round_id, square, sample)
}

/// The decision between `miners` on a contested square.
pub open spec fn decision(
    round: RoundView,
    winning_square: usize,
    sample: u64,
    miners: Seq<Miner>,
) -> Result<Option<TopMiner>, SelectError> {
    let square = winning_square as int;
    if exists|i: int| is_first_winner(miners, round.id, square, sample, i) {
        let i = choose|i: int| is_first_winner(miners, round.id, square, sample, i);
        Ok(Some(TopMiner { authority: miners[i].authority, winning_square, sample }))
    } else {
        Err(
            SelectError::NoWinner(
                NoWinner { winning_square, deployed: round.deployed[square], sample },
            ),
        )
    }
}

/// The state of a search.
pub struct SelectModel {
    pub round: RoundView,
    pub var: Var,
    pub seed: [u8; 32],
    pub phase: SelectPhase,
}

impl SelectModel {
    /// The phase with the number that `sysvar` leads to.
    pub open spec fn drawing(var: Var, sysvar: Seq<u8>, seed: [u8; 32]) -> SelectPhase {
        SelectPhase::Drawing { rng: drawn_rng(var, slot_hash_of(var, sysvar), seed) }
    }

    pub open spec fn start(round: RoundView, var: Var, seed: [u8; 32]) -> SelectModel {
        SelectModel {
            round,
            var,
            seed,
            phase: if var.slot_hash@ == zeros() {
                SelectPhase::SlotHashes
            } else {
                Self::drawing(var, Seq::empty(), seed)
            },
        }
    }

    /// What every state of a search keeps.
    pub open spec fn wf(self) -> bool {
        match self.phase {
            SelectPhase::SlotHashes => self.var.slot_hash@ == zeros(),
            SelectPhase::Sampling { winning_square, .. } => winning_square
                < self.round.deployed.len() && contested(
                self.round,
                winning_square as int,
                false,
            ),
            SelectPhase::Miners { winning_square, .. } => winning_square
                < self.round.deployed.len() && contested(
                self.round,
                winning_square as int,
                false,
            ),
            _ => true,
        }
    }

    pub open spec fn at(self, phase: SelectPhase) -> SelectModel {
        SelectModel { phase, ..self }
    }

    pub open spec fn after_slot_hashes(self, sysvar: Option<Seq<u8>>) -> SelectModel {
        if self.phase is SlotHashes {
            match sysvar {
                Some(sysvar) => if has_slot_hashes(sysvar) {
                    self.at(Self::drawing(self.var, sysvar, self.seed))
                } else {
                    self.at(SelectPhase::Ended(Err(SelectError::MalformedSlotHashes)))
                },
                None => self.at(SelectPhase::Ended(Err(SelectError::NoSlotHashes))),
            }
        } else {
            self
        }
    }

    pub open spec fn after_draw(self, winning_square: usize, split: bool) -> SelectModel {
        match self.phase {
            SelectPhase::Drawing { rng } => if contested(
                self.round,
                winning_square as int,
                split,
            ) {
                self.at(SelectPhase::Sampling { rng, winning_square })
            } else {
                self.at(SelectPhase::Ended(Ok(None)))
            },
            _ => self,
        }
    }

    pub open spec fn after_sample(self, sample: u64) -> SelectModel {
        match self.phase {
            SelectPhase::Sampling { winning_square, .. } => self.at(
                SelectPhase::Miners { winning_square, sample },
            ),
            _ => self,
        }
    }

    pub open spec fn after_miners(self, miners: Option<Seq<Miner>>) -> SelectModel {
        match self.phase {
            SelectPhase::Miners { winning_square, sample } => match miners {
                Some(miners) => self.at(
                    SelectPhase::Ended(decision(self.round, winning_square, sample, miners)),
                ),
                None => self.at(SelectPhase::Ended(Err(SelectError::NoMiners))),
            },
            _ => self,
        }
    }

    /// What the search wants done in this state.
    pub open spec fn wants(self) -> SelectAction {
        match self.phase {
            SelectPhase::SlotHashes => SelectAction::ReadSlotHashes,
            SelectPhase::Drawing { rng } => SelectAction::Draw { rng },
            SelectPhase::Sampling { rng, winning_square } => SelectAction::Sample {
                rng,
                winning_square,
            },
            SelectPhase::Miners { .. } => SelectAction::ReadMiners { round_id: self.round.id },
            SelectPhase::Ended(decision) => SelectAction::Done(decision),
        }
    }
}

/// A search for the top miner in progress.
pub struct TopMinerSearch {
    round: Round,
    var: Var,
    seed: [u8; 32],
    phase: SelectPhase,
}

impl View for TopMinerSearch {
    type V = SelectModel;

    closed spec fn view(&self) -> SelectModel {
        SelectModel { round: self.round@, var: self.var, seed: self.seed, phase: self.phase }
    }
}

fn drawing(var: &Var, sysvar: &[u8], seed: [u8; 32]) -> (phase: SelectPhase)
    ensures
        phase == if var.slot_hash@ == zeros() && !has_slot_hashes(sysvar@) {
            SelectPhase::Ended(Err(SelectError::MalformedSlotHashes))
        } else {
            SelectModel::drawing(*var, sysvar@, seed)
        },
{
    match draw_rng(var, sysvar, seed) {
        Ok(rng) => {
            proof {
                let hash = choose|hash: Seq<u8>| #[trigger]
                    is_slot_hash(*var, sysvar@, hash) && rng == drawn_rng(*var, hash, seed);
                law_slot_hash_is_unique(*var, sysvar@, hash, slot_hash_of(*var, sysvar@));
            }
            SelectPhase::Drawing { rng }
        },
        Err(_) => SelectPhase::Ended(Err(SelectError::MalformedSlotHashes)),
    }
}

/// Starts a search for the top miner of `round`, once `seed` is revealed.
pub fn search_top_miner(round: Round, var: Var, seed: [u8; 32]) -> (search: TopMinerSearch)
    ensures
        search@ == SelectModel::start(round@, var, seed),
{
    let phase = if needs_slot_hashes(&var) {
        SelectPhase::SlotHashes
    } else {
        let nothing: [u8; 0] = [];
        let phase = drawing(&var, nothing.as_slice(), seed);
        assert(nothing@ =~= Seq::empty());
        phase
    };
    TopMinerSearch { round, var, seed, phase }
}

impl TopMinerSearch {
    #[verifier::type_invariant]
    spec fn inv(self) -> bool {
        self@.wf()
    }

    /// What is wanted next.
    pub fn action(&self) -> (action: SelectAction)
        ensures
            action == self@.wants(),
    {
        match self.phase {
            SelectPhase::SlotHashes => SelectAction::ReadSlotHashes,
            SelectPhase::Drawing { rng } => SelectAction::Draw { rng },
            SelectPhase::Sampling { rng, winning_square } => SelectAction::Sample {
                rng,
                winning_square,
            },
            SelectPhase::Miners { .. } => SelectAction::ReadMiners { round_id: self.round.id },
            SelectPhase::Ended(decision) => SelectAction::Done(decision),
        }
    }

    /// Takes in the slot-hashes sysvar, if it could be fetched.
    pub fn on_slot_hashes(self, sysvar: Option<&[u8]>) -> (next: TopMinerSearch)
        ensures
            next@ == self@.after_slot_hashes(
                match sysvar {
                    Some(sysvar) => Some(sysvar@),
                    None => None,
                },
            ),
    {
        proof {
            use_type_invariant(&self);
        }
        if !matches!(self.phase, SelectPhase::SlotHashes) {
            return self;
        }
        let phase = match sysvar {
            Some(sysvar) => drawing(&self.var, sysvar, self.seed),
            None => SelectPhase::Ended(Err(SelectError::NoSlotHashes)),
        };
        TopMinerSearch { phase, ..self }
    }

    /// Takes in what the round has drawn.
    pub fn on_draw(self, winning_square: usize, split: bool) -> (next: TopMinerSearch)
        requires
            winning_square < self@.round.deployed.len(),
        ensures
            next@ == self@.after_draw(winning_square, split),
    {
        proof {
            use_type_invariant(&self);
        }
        match self.phase {
            SelectPhase::Drawing { rng } => if needs_top_miner(
                &self.round,
                winning_square,
                split,
            ) {
                TopMinerSearch { phase: SelectPhase::Sampling { rng, winning_square }, ..self }
            } else {
                TopMinerSearch { phase: SelectPhase::Ended(Ok(None)), ..self }
            },
            _ => self,
        }
    }

    /// Takes in the sample that the round has drawn.
    pub fn on_sample(self, sample: u64) -> (next: TopMinerSearch)
        ensures
            next@ == self@.after_sample(sample),
    {
        proof {
            use_type_invariant(&self);
        }
        match self.phase {
            SelectPhase::Sampling { winning_square, .. } => TopMinerSearch {
                phase: SelectPhase::Miners { winning_square, sample },
                ..self
            },
            _ => self,
        }
    }

    /// Takes in the miners, if they could be fetched.
    pub fn on_miners(self, miners: Option<&[Miner]>) -> (next: TopMinerSearch)
        requires
            self@.phase matches SelectPhase::Miners { winning_square, .. } ==> miners matches Some(
                miners,
            ) ==> forall|i: int|
                0 <= i < miners@.len() ==> has_square(
                    #[trigger] miners@[i],
                    winning_square as int,
                ),
        ensures
            next@ == self@.after_miners(
                match miners {
                    Some(miners) => Some(miners@),
                    None => None,
                },
            ),
    {
        proof {
            use_type_invariant(&self);
        }
        match self.phase {
            SelectPhase::Miners { winning_square, sample } => {
                let decided = match miners {
                    Some(miners) => decide(&self.round, winning_square, sample, miners),
                    None => Err(SelectError::NoMiners),
                };
                TopMinerSearch { phase: SelectPhase::Ended(decided), ..self }
            },
            _ => self,
        }
    }
}

fn decide(round: &Round, winning_square: usize, sample: u64, miners: &[Miner]) -> (decided: Result<
    Option<TopMiner>,
    SelectError,
>)
    requires
        winning_square < round.deployed@.len(),
        contested(round@, winning_square as int, false),
        forall|i: int|
            0 <= i < miners@.len() ==> has_square(#[trigger] miners@[i], winning_square as int),
    ensures
        decided == decision(round@, winning_square, sample, miners@),
{
    let ghost square = winning_square as int;
    match select_top_miner(round, winning_square, false, sample, miners) {
        Ok(found) => {
            proof {
                let i = choose|i: int|
                    0 <= i < miners@.len() && #[trigger] wins(miners@[i], round.id, square, sample)
                        && found->0.authority == miners@[i].authority && forall|j: int|
                        0 <= j < i ==> !#[trigger] wins(miners@[j], round.id, square, sample);
                assert(is_first_winner(miners@, round.id, square, sample, i));
                let k = choose|k: int| is_first_winner(miners@, round.id, square, sample, k);
                if i < k {
                    assert(!wins(miners@[i], round.id, square, sample));
                }
                if k < i {
                    assert(!wins(miners@[k], round.id, square, sample));
                }
            }
            Ok(found)
        },
        Err(missing) => Err(SelectError::NoWinner(missing)),
    }
}

/// A top miner is named only where the program will look at it, and it is the
/// one that the program will accept: a miner of the round whose range on the
/// winning square contains the sample.
pub proof fn law_named_miner_wins(state: SelectModel, miners: Seq<Miner>, top: TopMiner)
    requires
        state.wf(),
        state.phase is Miners,
        state.after_miners(Some(miners)).wants() == SelectAction::Done(Ok(Some(top))),
    ensures
        contested(state.round, top.winning_square as int, false),
        exists|i: int|
            0 <= i < miners.len() && #[trigger] wins(
                miners[i],
                state.round.id,
                top.winning_square as int,
                top.sample,
            ) && miners[i].authority == top.authority,
{
    let square = top.winning_square as int;
    let i = choose|i: int| is_first_winner(miners, state.round.id, square, top.sample, i);
    assert(wins(miners[i], state.round.id, square, top.sample));
}

/// The default address is never passed for want of a winner: once the square
/// is contested, the search names a miner or fails.
pub proof fn law_contested_square_gets_a_name(state: SelectModel, miners: Option<Seq<Miner>>)
    requires
        state.phase is Miners,
    ensures
        state.after_miners(miners).wants() is Done,
        state.after_miners(miners).wants() != SelectAction::Done(Ok(None)),
{
}

} // verus!
