//! The draw of a round: its slot hash, its random number, and the miner that
//! wins it.
use crate::bytes::{byte_range, le_bytes, le_value, lemma_le_value_bound};
use crate::chain::{lemma_zeros, zeros, Miner, RoundView, Var};
use crate::laws::encoding::law_bytes_are_shifts;
use crate::selection::{
    entry_slot, has_slot_hashes, is_first_entry, is_slot_hash, keccak, law_slot_hash_is_unique,
    lemma_wins, round_rng_of, wins, word, NoWinner,
};
use crate::top_miner::{
    is_first_winner, slot_hash_of, SelectAction, SelectError, SelectModel, SelectPhase,
};
use vstd::prelude::*;

verus! {

proof fn lemma_word_byte(value: Seq<u8>, i: int, b: int)
    requires
        value.len() == 32,
        0 <= i < 4,
        0 <= b < 8,
    ensures
        (word(value, i) >> (8 * b) as u64) & 0xff == value[8 * i + b],
{
    let part = value.subrange(8 * i, 8 * i + 8);
    lemma_le_value_bound(part);
    reveal_with_fuel(byte_range, 9);
    law_bytes_are_shifts(part, word(value, i), b);
}

/// The random number of a round mixes all of its value: each of its eight
/// bytes is the exclusive or of the bytes at the same place in the four quarters
/// of the value.
pub proof fn law_random_number_mixes_the_quarters(value: Seq<u8>, b: int)
    requires
        value.len() == 32,
        0 <= b < 8,
    ensures
        (round_rng_of(value) >> (8 * b) as u64) & 0xff == (value[b] ^ value[8 + b] ^ value[16 + b]
            ^ value[24 + b]) as u64,
{
    lemma_word_byte(value, 0, b);
    lemma_word_byte(value, 1, b);
    lemma_word_byte(value, 2, b);
    lemma_word_byte(value, 3, b);
    let w0 = word(value, 0);
    let w1 = word(value, 1);
    let w2 = word(value, 2);
    let w3 = word(value, 3);
    let s = (8 * b) as u64;
    let b0 = value[b];
    let b1 = value[8 + b];
    let b2 = value[16 + b];
    let b3 = value[24 + b];
    assert(((w0 ^ w1 ^ w2 ^ w3) >> s) & 0xff == (b0 ^ b1 ^ b2 ^ b3) as u64) by (bit_vector)
        requires
            s < 64,
            (w0 >> s) & 0xff == b0,
            (w1 >> s) & 0xff == b1,
            (w2 >> s) & 0xff == b2,
            (w3 >> s) & 0xff == b3,
    ;
}

/// Quarter `q` of a value: eight bytes.
pub open spec fn quarter(value: Seq<u8>, q: int) -> Seq<u8> {
    value.subrange(8 * q, 8 * q + 8)
}

/// The quarter that stands at `q` once `i` and `j` are exchanged.
pub open spec fn exchanged(i: int, j: int, q: int) -> int {
    if q == i {
        j
    } else if q == j {
        i
    } else {
        q
    }
}

/// The order of the quarters of a value does not matter: with two of them
/// exchanged, the random number is the same.
pub proof fn law_quarters_can_be_exchanged(value: Seq<u8>, other: Seq<u8>, i: int, j: int)
    requires
        value.len() == 32,
        other.len() == 32,
        0 <= i < 4,
        0 <= j < 4,
        forall|q: int|
            0 <= q < 4 ==> #[trigger] quarter(other, q) == quarter(value, exchanged(i, j, q)),
    ensures
        round_rng_of(other) == round_rng_of(value),
{
    assert(quarter(other, 0) == quarter(value, exchanged(i, j, 0)));
    assert(quarter(other, 1) == quarter(value, exchanged(i, j, 1)));
    assert(quarter(other, 2) == quarter(value, exchanged(i, j, 2)));
    assert(quarter(other, 3) == quarter(value, exchanged(i, j, 3)));
    let w0 = word(value, 0);
    let w1 = word(value, 1);
    let w2 = word(value, 2);
    let w3 = word(value, 3);
    assert(w0 ^ w1 ^ w2 ^ w3 == w1 ^ w0 ^ w2 ^ w3) by (bit_vector);
    assert(w0 ^ w1 ^ w2 ^ w3 == w2 ^ w1 ^ w0 ^ w3) by (bit_vector);
    assert(w0 ^ w1 ^ w2 ^ w3 == w3 ^ w1 ^ w2 ^ w0) by (bit_vector);
    assert(w0 ^ w1 ^ w2 ^ w3 == w0 ^ w2 ^ w1 ^ w3) by (bit_vector);
    assert(w0 ^ w1 ^ w2 ^ w3 == w0 ^ w3 ^ w2 ^ w1) by (bit_vector);
    assert(w0 ^ w1 ^ w2 ^ w3 == w0 ^ w1 ^ w3 ^ w2) by (bit_vector);
}

/// A slot hash that the variable carries is the one that counts, whatever the
/// sysvar holds.
pub proof fn law_carried_slot_hash_counts(var: Var, sysvar: Seq<u8>, hash: Seq<u8>, b: int)
    requires
        0 <= b < 32,
        var.slot_hash@[b] != 0,
    ensures
        is_slot_hash(var, sysvar, hash) <==> hash == var.slot_hash@,
        slot_hash_of(var, sysvar) == var.slot_hash@,
{
    lemma_zeros(var.slot_hash@);
    assert(is_slot_hash(var, sysvar, var.slot_hash@));
}

/// Where the variable carries none, the hash counts that the sysvar lists
/// first for the slot of the variable: the slots stand 40 bytes apart behind
/// a count of eight, each before its hash.
pub proof fn law_listed_slot_hash_counts(var: Var, sysvar: Seq<u8>, hash: Seq<u8>, i: int)
    requires
        forall|b: int| 0 <= b < 32 ==> #[trigger] var.slot_hash@[b] == 0,
        0 <= i < le_value(sysvar.subrange(0, 8)),
        8 + 40 * le_value(sysvar.subrange(0, 8)) <= sysvar.len(),
        le_value(sysvar.subrange(8 + 40 * i, 16 + 40 * i)) == var.end_at,
        forall|j: int|
            0 <= j < i ==> le_value(#[trigger] sysvar.subrange(8 + 40 * j, 16 + 40 * j))
                != var.end_at,
    ensures
        is_slot_hash(var, sysvar, hash) <==> hash == sysvar.subrange(16 + 40 * i, 48 + 40 * i),
        slot_hash_of(var, sysvar) == sysvar.subrange(16 + 40 * i, 48 + 40 * i),
{
    lemma_zeros(var.slot_hash@);
    let listed = sysvar.subrange(16 + 40 * i, 48 + 40 * i);
    assert forall|j: int| 0 <= j < i implies #[trigger] entry_slot(sysvar, j) != var.end_at by {
        assert(le_value(sysvar.subrange(8 + 40 * j, 16 + 40 * j)) != var.end_at);
    }
    assert(is_first_entry(sysvar, var.end_at, i));
    assert(is_slot_hash(var, sysvar, listed));
    if is_slot_hash(var, sysvar, hash) {
        law_slot_hash_is_unique(var, sysvar, hash, listed);
    }
    law_slot_hash_is_unique(var, sysvar, slot_hash_of(var, sysvar), listed);
}

/// Where the sysvar does not list the slot of the variable either, the hash of
/// that slot counts, written as eight bytes.
pub proof fn law_unlisted_slot_is_hashed(var: Var, sysvar: Seq<u8>, hash: Seq<u8>)
    requires
        forall|b: int| 0 <= b < 32 ==> #[trigger] var.slot_hash@[b] == 0,
        forall|j: int|
            0 <= j < le_value(sysvar.subrange(0, 8)) ==> le_value(
                #[trigger] sysvar.subrange(8 + 40 * j, 16 + 40 * j),
            ) != var.end_at,
    ensures
        is_slot_hash(var, sysvar, hash) <==> hash == keccak(seq![le_bytes(var.end_at as nat, 8)]),
{
    lemma_zeros(var.slot_hash@);
    assert forall|i: int| !is_first_entry(sysvar, var.end_at, i) by {
        if is_first_entry(sysvar, var.end_at, i) {
            assert(le_value(sysvar.subrange(8 + 40 * i, 16 + 40 * i)) != var.end_at);
        }
    }
}

/// The slot-hashes sysvar can be read exactly where it holds as many entries of
/// 40 bytes as it says.
pub proof fn law_sysvar_holds_what_it_says(sysvar: Seq<u8>)
    ensures
        has_slot_hashes(sysvar) <==> sysvar.len() >= 8 && sysvar.len() >= 8 + 40 * le_value(
            sysvar.subrange(0, 8),
        ),
{
}

/// Whether `sample` lies in the range of `miner` on `square`: behind what was
/// deployed before it, within what it deployed itself.
pub open spec fn holds_sample(miner: Miner, square: int, sample: u64) -> bool {
    miner.cumulative@[square] <= sample < miner.cumulative@[square] + miner.deployed@[square]
        <= u64::MAX
}

/// Whoever holds the sample is found: where a miner of the round does, the
/// search names a miner of the round that does, and that very one where no
/// other does, whatever else the miners are.
pub proof fn law_holder_of_the_sample_is_named(
    state: SelectModel,
    winning_square: usize,
    sample: u64,
    miners: Seq<Miner>,
    i: int,
)
    requires
        state.phase == (SelectPhase::Miners { winning_square, sample }),
        0 <= i < miners.len(),
        miners[i].round_id == state.round.id,
        holds_sample(miners[i], winning_square as int, sample),
    ensures
        state.after_miners(Some(miners)).wants() matches SelectAction::Done(Ok(Some(top)))
            && top.winning_square == winning_square && top.sample == sample && (exists|k: int|
            0 <= k <= i && #[trigger] miners[k].authority == top.authority && miners[k].round_id
                == state.round.id && holds_sample(miners[k], winning_square as int, sample))
            && ((forall|k: int|
            0 <= k < miners.len() && k != i && #[trigger] miners[k].round_id == state.round.id
                ==> !holds_sample(miners[k], winning_square as int, sample)) ==> top.authority
            == miners[i].authority),
{
    let square = winning_square as int;
    let id = state.round.id;
    lemma_wins(miners[i], id, square, sample);
    let first = lemma_first_winner(miners, id, square, sample, i);
    let chosen = choose|k: int| is_first_winner(miners, id, square, sample, k);
    assert(chosen == first) by {
        if chosen < first {
            assert(!wins(miners[chosen], id, square, sample));
        }
        if first < chosen {
            assert(!wins(miners[first], id, square, sample));
        }
    }
    lemma_wins(miners[first], id, square, sample);
    assert(miners[first].authority == miners[chosen].authority);
    assert(miners[first].round_id == id);
}

proof fn lemma_first_winner(
    miners: Seq<Miner>,
    round_id: u64,
    square: int,
    sample: u64,
    i: int,
) -> (first: int)
    requires
        0 <= i < miners.len(),
        wins(miners[i], round_id, square, sample),
    ensures
        first <= i,
        is_first_winner(miners, round_id, square, sample, first),
    decreases i,
{
    if exists|j: int| 0 <= j < i && #[trigger] wins(miners[j], round_id, square, sample) {
        let j = choose|j: int| 0 <= j < i && #[trigger] wins(miners[j], round_id, square, sample);
        lemma_first_winner(miners, round_id, square, sample, j)
    } else {
        i
    }
}

/// Where no miner of the round holds the sample, the search fails, with the
/// square, what is deployed on it and the sample.
pub proof fn law_missing_holder_is_an_error(
    state: SelectModel,
    winning_square: usize,
    sample: u64,
    miners: Seq<Miner>,
)
    requires
        state.phase == (SelectPhase::Miners { winning_square, sample }),
        forall|k: int|
            0 <= k < miners.len() && #[trigger] miners[k].round_id == state.round.id
                ==> !holds_sample(miners[k], winning_square as int, sample),
    ensures
        state.after_miners(Some(miners)).wants() == SelectAction::Done(
            Err(
                SelectError::NoWinner(
                    NoWinner {
                        winning_square,
                        deployed: state.round.deployed[winning_square as int],
                        sample,
                    },
                ),
            ),
        ),
        state.after_miners(None).wants() == SelectAction::Done(Err(SelectError::NoMiners)),
{
    let square = winning_square as int;
    assert forall|k: int| !is_first_winner(miners, state.round.id, square, sample, k) by {
        if 0 <= k < miners.len() {
            lemma_wins(miners[k], state.round.id, square, sample);
            assert(miners[k].round_id == state.round.id ==> !holds_sample(
                miners[k],
                square,
                sample,
            ));
        }
    }
}

/// A search draws with the number that follows from the slot hash, the seed
/// and the samples of the variable: at once, where the variable carries its
/// slot hash, else with what the sysvar gives.
pub proof fn law_search_draws_with_the_right_number(
    round: RoundView,
    var: Var,
    seed: [u8; 32],
    sysvar: Seq<u8>,
    hash: Seq<u8>,
)
    ensures
        ({
            let start = SelectModel::start(round, var, seed);
            let rng = round_rng_of(keccak(seq![hash, seed@, le_bytes(var.samples as nat, 8)]));
            &&& start.round == round
            &&& (exists|b: int| 0 <= b < 32 && #[trigger] var.slot_hash@[b] != 0) && hash
                == var.slot_hash@ ==> start.wants() == (SelectAction::Draw { rng })
            &&& (forall|b: int| 0 <= b < 32 ==> #[trigger] var.slot_hash@[b] == 0) ==> {
                &&& start.wants() == SelectAction::ReadSlotHashes
                &&& start.after_slot_hashes(None).wants() == SelectAction::Done(
                    Err(SelectError::NoSlotHashes),
                )
                &&& !has_slot_hashes(sysvar) ==> start.after_slot_hashes(Some(sysvar)).wants()
                    == SelectAction::Done(Err(SelectError::MalformedSlotHashes))
                &&& has_slot_hashes(sysvar) && is_slot_hash(var, sysvar, hash)
                    ==> start.after_slot_hashes(Some(sysvar)).wants() == (SelectAction::Draw {
                    rng,
                })
                &&& start.after_slot_hashes(Some(sysvar)).round == round
            }
        }),
{
    lemma_zeros(var.slot_hash@);
    if var.slot_hash@ != zeros() {
        assert(is_slot_hash(var, Seq::empty(), var.slot_hash@));
        law_slot_hash_is_unique(
            var,
            Seq::empty(),
            slot_hash_of(var, Seq::empty()),
            var.slot_hash@,
        );
    } else if is_slot_hash(var, sysvar, hash) {
        law_slot_hash_is_unique(var, sysvar, slot_hash_of(var, sysvar), hash);
    }
}

/// A draw needs a top miner exactly where lamports are deployed on the winning
/// square and the reward is not split. Then the sample is drawn on that square
/// with the same number, and the miners of that round are read; else no one is
/// named.
pub proof fn law_contested_draw_goes_on(
    state: SelectModel,
    rng: u64,
    winning_square: usize,
    split: bool,
    sample: u64,
)
    requires
        state.phase == (SelectPhase::Drawing { rng }),
    ensures
        ({
            let drawn = state.after_draw(winning_square, split);
            let sampled = drawn.after_sample(sample);
            if split || state.round.deployed[winning_square as int] == 0 {
                drawn.wants() == SelectAction::Done(Ok(None))
            } else {
                &&& drawn.wants() == (SelectAction::Sample { rng, winning_square })
                &&& drawn.round == state.round
                &&& sampled.wants() == (SelectAction::ReadMiners { round_id: state.round.id })
                &&& sampled.round == state.round
                &&& sampled.phase == (SelectPhase::Miners { winning_square, sample })
            }
        }),
{
}

/// What was not asked for changes nothing.
pub proof fn law_unasked_answers_are_ignored(
    state: SelectModel,
    sysvar: Option<Seq<u8>>,
    winning_square: usize,
    split: bool,
    sample: u64,
    miners: Option<Seq<Miner>>,
)
    ensures
        !(state.wants() is ReadSlotHashes) ==> state.after_slot_hashes(sysvar) == state,
        !(state.wants() is Draw) ==> state.after_draw(winning_square, split) == state,
        !(state.wants() is Sample) ==> state.after_sample(sample) == state,
        !(state.wants() is ReadMiners) ==> state.after_miners(miners) == state,
{
}

} // verus!
