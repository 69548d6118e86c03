//! Top-miner selection for `reset_permissionless`.
//!
//! For a round whose reward is not split and whose winning square is not
//! empty, the program verifies that the winning sample falls inside the
//! cumulative range of the supplied top miner on the winning square. With a
//! wrong account the reset reverts, so the actual winner has to be found, solo
//! or pooled. The default address is right only where the program never looks
//! at the candidate.
use crate::bytes::{le_bytes, le_u64_at, read_le_u64, u64_le_bytes};
use crate::chain::{is_zero, zeros, Address, Miner, Round, RoundView, Var};
use crate::text::{decimal, decimal_text};
use vstd::prelude::*;

verus! {

/// The miner to pass to `reset_permissionless`.
#[derive(Clone, Copy, Debug, PartialEq, Eq)]
pub struct TopMiner {
    pub authority: Address,
    pub winning_square: usize,
    pub sample: u64,
}

/// The hash that `keccak::hashv` gives for a list of byte strings.
pub uninterp spec fn keccak(parts: Seq<Seq<u8>>) -> Seq<u8>;

/// Calls `keccak::hashv`. The result is named: it is the Keccak-256 hash of
/// the parts, one behind the other, and depends on nothing else.
#[verifier::external_body]
fn keccak_hashv(parts: &[&[u8]]) -> (hash: [u8; 32])
    ensures
        hash@ == keccak(Seq::new(parts@.len(), |i: int| parts@[i]@)),
{
    solana_program::keccak::hashv(parts).to_bytes()
}

/// How many entries the slot-hashes sysvar says it has.
pub open spec fn slot_hash_count(sysvar: Seq<u8>) -> nat {
    le_u64_at(sysvar, 0)
}

/// Whether the slot-hashes sysvar holds as many entries as it says. Each takes
/// eight bytes for its slot and 32 for its hash.
pub open spec fn has_slot_hashes(sysvar: Seq<u8>) -> bool {
    sysvar.len() >= 8 && sysvar.len() >= 8 + 40 * slot_hash_count(sysvar)
}

/// The slot of entry `i` of the slot-hashes sysvar.
pub open spec fn entry_slot(sysvar: Seq<u8>, i: int) -> nat {
    le_u64_at(sysvar, 8 + 40 * i)
}

/// The hash of entry `i` of the slot-hashes sysvar.
pub open spec fn entry_hash(sysvar: Seq<u8>, i: int) -> Seq<u8> {
    sysvar.subrange(16 + 40 * i, 48 + 40 * i)
}

/// Calls `bincode::deserialize` for `SlotHashes`, which reads a little-endian
/// count and then that many entries, and ignores bytes behind them. It fails
/// exactly where the bytes run out.
#[verifier::external_body]
fn read_slot_hashes(sysvar: &[u8]) -> (entries: Option<Vec<(u64, [u8; 32])>>)
    ensures
        entries is Some <==> has_slot_hashes(sysvar@),
        entries matches Some(list) ==> {
            &&& list@.len() == slot_hash_count(sysvar@)
            &&& forall|i: int|
                0 <= i < list@.len() ==> (#[trigger] list@[i]).0 == entry_slot(sysvar@, i)
                    && list@[i].1@ == entry_hash(sysvar@, i)
        },
{
    bincode::deserialize::<solana_program::slot_hashes::SlotHashes>(sysvar).ok().map(|found|
        found.iter().map(|(slot, hash)| (*slot, hash.to_bytes())).collect())
}

/// The slot-hashes sysvar could not be read.
#[derive(Clone, Copy, Debug, PartialEq, Eq)]
pub struct MalformedSlotHashes;

/// Whether entry `i` is the first one for `slot`.
pub open spec fn is_first_entry(sysvar: Seq<u8>, slot: u64, i: int) -> bool {
    &&& 0 <= i < slot_hash_count(sysvar)
    &&& entry_slot(sysvar, i) == slot
    &&& forall|j: int| 0 <= j < i ==> #[trigger] entry_slot(sysvar, j) != slot
}

/// Whether `hash` is the slot hash that the entropy program will use: the one
/// that the variable carries; else the one of slot `end_at` in the sysvar;
/// else, once that slot has aged out, the hash of `end_at` itself.
pub open spec fn is_slot_hash(var: Var, sysvar: Seq<u8>, hash: Seq<u8>) -> bool {
    if var.slot_hash@ != zeros() {
        hash == var.slot_hash@
    } else if exists|i: int| is_first_entry(sysvar, var.end_at, i) {
        exists|i: int| #[trigger]
            is_first_entry(sysvar, var.end_at, i) && hash == entry_hash(sysvar, i)
    } else {
        hash == keccak(seq![le_bytes(var.end_at as nat, 8)])
    }
}

/// Whether the slot-hashes sysvar has to be read at all.
pub fn needs_slot_hashes(var: &Var) -> (needed: bool)
    ensures
        needed == (var.slot_hash@ == zeros()),
{
    is_zero(&var.slot_hash)
}

/// Reconstructs the slot hash that the entropy program will use. The sysvar
/// is looked at only where the variable carries no slot hash yet.
pub fn resolve_slot_hash(var: &Var, sysvar: &[u8]) -> (hash: Result<
    [u8; 32],
    MalformedSlotHashes,
>)
    ensures
        hash is Err <==> var.slot_hash@ == zeros() && !has_slot_hashes(sysvar@),
        hash matches Ok(hash) ==> is_slot_hash(*var, sysvar@, hash@),
{
    if !needs_slot_hashes(var) {
        return Ok(var.slot_hash);
    }
    let entries = match read_slot_hashes(sysvar) {
        Some(entries) => entries,
        None => return Err(MalformedSlotHashes),
    };
    let mut i: usize = 0;
    while i < entries.len()
        invariant
            i <= entries@.len(),
            var.slot_hash@ == zeros(),
            has_slot_hashes(sysvar@),
            entries@.len() == slot_hash_count(sysvar@),
            forall|k: int|
                0 <= k < entries@.len() ==> (#[trigger] entries@[k]).0 == entry_slot(sysvar@, k)
                    && entries@[k].1@ == entry_hash(sysvar@, k),
            forall|j: int| 0 <= j < i ==> #[trigger] entry_slot(sysvar@, j) != var.end_at,
        decreases entries@.len() - i,
    {
        let (slot, hash) = entries[i];
        if slot == var.end_at {
            assert(is_first_entry(sysvar@, var.end_at, i as int));
            return Ok(hash);
        }
        i = i + 1;
    }
    let end_at = u64_le_bytes(var.end_at);
    let parts: [&[u8]; 1] = [end_at.as_slice()];
    let hash = keccak_hashv(parts.as_slice());
    assert(Seq::new(parts@.len(), |i: int| parts@[i]@) =~= seq![le_bytes(var.end_at as nat, 8)]);
    Ok(hash)
}

/// Derives the value that the entropy variable will have once `seed` is
/// revealed.
pub fn derive_var_value(slot_hash: [u8; 32], seed: [u8; 32], samples: u64) -> (value: [u8; 32])
    ensures
        value@ == keccak(seq![slot_hash@, seed@, le_bytes(samples as nat, 8)]),
{
    let count = u64_le_bytes(samples);
    let parts: [&[u8]; 3] = [slot_hash.as_slice(), seed.as_slice(), count.as_slice()];
    let value = keccak_hashv(parts.as_slice());
    assert(Seq::new(parts@.len(), |i: int| parts@[i]@) =~= seq![
        slot_hash@,
        seed@,
        le_bytes(samples as nat, 8),
    ]);
    value
}

/// The little-endian number in bytes `8 * i` to `8 * i + 8` of `value`.
pub open spec fn word(value: Seq<u8>, i: int) -> u64 {
    le_u64_at(value, 8 * i) as u64
}

/// The random number of a round: the four words of `value`, xored.
pub open spec fn round_rng_of(value: Seq<u8>) -> u64 {
    word(value, 0) ^ word(value, 1) ^ word(value, 2) ^ word(value, 3)
}

/// Derives the random number of a round from the value of its variable.
pub fn derive_round_rng(value: [u8; 32]) -> (rng: u64)
    ensures
        rng == round_rng_of(value@),
{
    let bytes = value.as_slice();
    let r1 = read_le_u64(bytes, 0);
    let r2 = read_le_u64(bytes, 8);
    let r3 = read_le_u64(bytes, 16);
    let r4 = read_le_u64(bytes, 24);
    r1 ^ r2 ^ r3 ^ r4
}

/// The random number that a round draws with, given the slot hash of its
/// variable and the seed.
pub open spec fn drawn_rng(var: Var, slot_hash: Seq<u8>, seed: [u8; 32]) -> u64 {
    round_rng_of(keccak(seq![slot_hash, seed@, le_bytes(var.samples as nat, 8)]))
}

/// Derives the random number that a round will draw with, once `seed` is
/// revealed. The sysvar is looked at only where the variable carries no slot
/// hash yet.
pub fn draw_rng(var: &Var, sysvar: &[u8], seed: [u8; 32]) -> (rng: Result<
    u64,
    MalformedSlotHashes,
>)
    ensures
        rng is Err <==> var.slot_hash@ == zeros() && !has_slot_hashes(sysvar@),
        rng matches Ok(rng) ==> exists|hash: Seq<u8>| #[trigger]
            is_slot_hash(*var, sysvar@, hash) && rng == drawn_rng(*var, hash, seed) && rng
                == round_rng_of(keccak(seq![hash, seed@, le_bytes(var.samples as nat, 8)])),
{
    match resolve_slot_hash(var, sysvar) {
        Ok(hash) => {
            assert(is_slot_hash(*var, sysvar@, hash@));
            Ok(derive_round_rng(derive_var_value(hash, seed, var.samples)))
        },
        Err(malformed) => Err(malformed),
    }
}

/// Whether the program will look at the top miner: the winning square is not
/// empty, and the reward is not split.
pub open spec fn contested(round: RoundView, winning_square: int, split: bool) -> bool {
    round.deployed[winning_square] != 0 && !split
}

/// Whether the range of `miner` on `square` contains `sample`. It starts at
/// what was deployed there before the miner, and is as long as what the miner
/// deployed.
pub open spec fn covers(miner: Miner, square: int, sample: u64) -> bool {
    let lower = miner.cumulative@[square];
    let deployed = miner.deployed@[square];
    deployed != 0 && lower + deployed <= u64::MAX && lower <= sample < lower + deployed
}

/// Whether `miner` wins the round: it played it, and covers the sample.
pub open spec fn wins(miner: Miner, round_id: u64, square: int, sample: u64) -> bool {
    miner.round_id == round_id && covers(miner, square, sample)
}

/// Whether `miner` has an entry for `square`.
pub open spec fn has_square(miner: Miner, square: int) -> bool {
    square < miner.deployed@.len() && square < miner.cumulative@.len()
}

/// A contested square has lamports deployed, but no miner covers the sample:
/// the list of miners is not up to date.
#[derive(Clone, Copy, Debug, PartialEq, Eq)]
pub struct NoWinner {
    pub winning_square: usize,
    pub deployed: u64,
    pub sample: u64,
}

impl NoWinner {
    /// What to tell the operator.
    pub fn message(&self) -> (text: String)
        ensures
            text@ == "winning square "@ + decimal(self.winning_square as nat) + " has "@ + decimal(
                self.deployed as nat,
            ) + " lamports deployed but no miner range contained sample "@ + decimal(
                self.sample as nat,
            ),
    {
        let mut text = String::from_str("winning square ");
        text.append(decimal_text(self.winning_square as u64).as_str());
        text.append(" has ");
        text.append(decimal_text(self.deployed).as_str());
        text.append(" lamports deployed but no miner range contained sample ");
        text.append(decimal_text(self.sample).as_str());
        text
    }
}

/// Whether the miners of the round have to be looked through.
pub fn needs_top_miner(round: &Round, winning_square: usize, split: bool) -> (needed: bool)
    requires
        winning_square < round.deployed@.len(),
    ensures
        needed == contested(round@, winning_square as int, split),
        needed <==> round.deployed@[winning_square as int] != 0 && !split,
{
    round.deployed[winning_square] != 0 && !split
}

/// Decides which miner to pass to `reset_permissionless`: the first of
/// `miners` that wins, or none where the default address is the right one.
/// `sample` and `miners` matter only where the square is contested.
pub fn select_top_miner(
    round: &Round,
    winning_square: usize,
    split: bool,
    sample: u64,
    miners: &[Miner],
) -> (top: Result<Option<TopMiner>, NoWinner>)
    requires
        winning_square < round.deployed@.len(),
        forall|i: int|
            0 <= i < miners@.len() ==> has_square(#[trigger] miners@[i], winning_square as int),
    ensures
        match top {
            Ok(None) => !contested(round@, winning_square as int, split),
            Ok(Some(found)) => {
                &&& contested(round@, winning_square as int, split)
                &&& found.winning_square == winning_square
                &&& found.sample == sample
                &&& exists|i: int|
                    0 <= i < miners@.len() && #[trigger] wins(
                        miners@[i],
                        round.id,
                        winning_square as int,
                        sample,
                    ) && found.authority == miners@[i].authority && forall|j: int|
                        0 <= j < i ==> !#[trigger] wins(
                            miners@[j],
                            round.id,
                            winning_square as int,
                            sample,
                        )
            },
            Err(missing) => {
                &&& contested(round@, winning_square as int, split)
                &&& missing.winning_square == winning_square
                &&& missing.deployed == round.deployed@[winning_square as int]
                &&& missing.sample == sample
                &&& forall|i: int|
                    0 <= i < miners@.len() ==> !#[trigger] wins(
                        miners@[i],
                        round.id,
                        winning_square as int,
                        sample,
                    )
            },
        },
        top == Ok::<Option<TopMiner>, NoWinner>(None) <==> split
            || round.deployed@[winning_square as int] == 0,
        top is Err <==> !split && round.deployed@[winning_square as int] != 0 && forall|i: int|
            0 <= i < miners@.len() ==> !(#[trigger] miners@[i].round_id == round.id
                && miners@[i].cumulative@[winning_square as int] <= sample
                < miners@[i].cumulative@[winning_square as int]
                + miners@[i].deployed@[winning_square as int] <= u64::MAX),
        top matches Ok(Some(found)) ==> exists|i: int|
            0 <= i < miners@.len() && #[trigger] miners@[i].authority == found.authority
                && miners@[i].round_id == round.id
                && miners@[i].cumulative@[winning_square as int] <= sample
                < miners@[i].cumulative@[winning_square as int]
                + miners@[i].deployed@[winning_square as int] <= u64::MAX,
{
    if !needs_top_miner(round, winning_square, split) {
        return Ok(None);
    }
    let mut i: usize = 0;
    while i < miners.len()
        invariant
            i <= miners@.len(),
            winning_square < round.deployed@.len(),
            contested(round@, winning_square as int, split),
            forall|k: int|
                0 <= k < miners@.len() ==> has_square(#[trigger] miners@[k], winning_square as int),
            forall|j: int|
                0 <= j < i ==> !#[trigger] wins(
                    miners@[j],
                    round.id,
                    winning_square as int,
                    sample,
                ),
        decreases miners@.len() - i,
    {
        let miner = &miners[i];
        assert(has_square(miners@[i as int], winning_square as int));
        proof {
            lemma_wins(miners@[i as int], round.id, winning_square as int, sample);
        }
        if miner.round_id == round.id {
            let deployed = miner.deployed[winning_square];
            let lower = miner.cumulative[winning_square];
            if deployed != 0 {
                if let Some(upper) = lower.checked_add(deployed) {
                    if sample >= lower && sample < upper {
                        assert(wins(miners@[i as int], round.id, winning_square as int, sample));
                        return Ok(Some(TopMiner {
                            authority: miner.authority,
                            winning_square,
                            sample,
                        }));
                    }
                }
            }
        }
        i = i + 1;
    }
    assert forall|k: int| 0 <= k < miners@.len() implies !(#[trigger] miners@[k].round_id
        == round.id && miners@[k].cumulative@[winning_square as int] <= sample
        < miners@[k].cumulative@[winning_square as int]
        + miners@[k].deployed@[winning_square as int] <= u64::MAX) by {
        lemma_wins(miners@[k], round.id, winning_square as int, sample);
        assert(!wins(miners@[k], round.id, winning_square as int, sample));
    }
    Err(NoWinner { winning_square, deployed: round.deployed[winning_square], sample })
}

/// A miner wins by three of its fields alone: its last round, and what was
/// deployed on the square before it and by it.
pub proof fn lemma_wins(miner: Miner, round_id: u64, square: int, sample: u64)
    ensures
        wins(miner, round_id, square, sample) <==> miner.round_id == round_id
            && miner.cumulative@[square] <= sample < miner.cumulative@[square]
            + miner.deployed@[square] <= u64::MAX,
{
}

/// Whether `number` lies in the range of `miner` on `square`, which is empty
/// where the miner deployed nothing.
pub open spec fn in_range(miner: Miner, square: int, number: int) -> bool {
    miner.cumulative@[square] <= number < miner.cumulative@[square] + miner.deployed@[square]
}

/// Whether no number lies in the ranges of two miners of a round on `square`,
/// which is how the program lays them out.
pub open spec fn disjoint(miners: Seq<Miner>, round_id: u64, square: int) -> bool {
    forall|i: int, j: int, number: int|
        0 <= i < miners.len() && 0 <= j < miners.len() && miners[i].round_id == round_id
            && miners[j].round_id == round_id && #[trigger] in_range(miners[i], square, number)
            && #[trigger] in_range(miners[j], square, number) ==> i == j
}

/// The winner is unique: where the ranges do not overlap, the order of the
/// miners does not matter.
pub proof fn law_winner_is_unique(
    miners: Seq<Miner>,
    round_id: u64,
    square: int,
    sample: u64,
    i: int,
    j: int,
)
    requires
        disjoint(miners, round_id, square),
        0 <= i < miners.len(),
        0 <= j < miners.len(),
        wins(miners[i], round_id, square, sample),
        wins(miners[j], round_id, square, sample),
    ensures
        i == j,
{
    assert(in_range(miners[i], square, sample as int));
    assert(in_range(miners[j], square, sample as int));
}

/// The slot hash is unique: nothing but one hash can be reconstructed from a
/// variable and a sysvar.
pub proof fn law_slot_hash_is_unique(var: Var, sysvar: Seq<u8>, a: Seq<u8>, b: Seq<u8>)
    requires
        is_slot_hash(var, sysvar, a),
        is_slot_hash(var, sysvar, b),
    ensures
        a == b,
{
    if var.slot_hash@ == zeros() && exists|i: int| is_first_entry(sysvar, var.end_at, i) {
        let i = choose|i: int| #[trigger]
            is_first_entry(sysvar, var.end_at, i) && a == entry_hash(sysvar, i);
        let j = choose|j: int| #[trigger]
            is_first_entry(sysvar, var.end_at, j) && b == entry_hash(sysvar, j);
        if i < j {
            assert(entry_slot(sysvar, i) != var.end_at);
        }
        if j < i {
            assert(entry_slot(sysvar, j) != var.end_at);
        }
    }
}

} // verus!
