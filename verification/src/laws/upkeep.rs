//! Maintenance: which miners are checkpointed and which rounds are closed.
use crate::chain::{Address, Miner, Round};
use crate::maintenance::{
    checkpoint_due, checkpoint_of, close_due, due_checkpoints, due_closes, expiry, Checkpoint,
};
use vstd::prelude::*;

verus! {

/// Whether round `j` is the last one of its id.
pub open spec fn is_last_of_its_id(rounds: Seq<Round>, j: int) -> bool {
    &&& 0 <= j < rounds.len()
    &&& forall|k: int| j < k < rounds.len() ==> (#[trigger] rounds[k]).id != rounds[j].id
}

/// A round expires when the last of its id does, and only a round that is there
/// expires at all.
pub proof fn law_last_round_of_an_id_counts(rounds: Seq<Round>, id: u64, j: int)
    ensures
        is_last_of_its_id(rounds, j) && rounds[j].id == id ==> expiry(rounds, id) == Some(
            rounds[j].expires_at,
        ),
        (forall|k: int| 0 <= k < rounds.len() ==> (#[trigger] rounds[k]).id != id) ==> expiry(
            rounds,
            id,
        ) is None,
    decreases rounds.len(),
{
    if rounds.len() > 0 {
        let earlier = rounds.drop_last();
        assert(forall|k: int| 0 <= k < earlier.len() ==> #[trigger] earlier[k] == rounds[k]);
        law_last_round_of_an_id_counts(earlier, id, j);
        let last = rounds.len() - 1;
        if is_last_of_its_id(rounds, j) && rounds[j].id == id && j < last {
            assert(rounds[last].id != id);
            assert(is_last_of_its_id(earlier, j));
        }
        if forall|k: int| 0 <= k < rounds.len() ==> (#[trigger] rounds[k]).id != id {
            assert(rounds[last].id != id);
        }
    }
}

/// A single miner is checkpointed, for its last round, exactly where it has not
/// done so and the slot is within the last `fee_window` slots of that round, the
/// one it expires at included, whatever else the miner and the round are.
pub proof fn law_miner_is_checkpointed_in_its_window(
    miner: Miner,
    rounds: Seq<Round>,
    slot: u64,
    fee_window: u64,
    j: int,
)
    requires
        is_last_of_its_id(rounds, j),
        rounds[j].id == miner.round_id,
    ensures
        due_checkpoints(seq![miner], rounds, slot, fee_window) == if miner.checkpoint_id
            < miner.round_id && rounds[j].expires_at - fee_window <= slot <= rounds[j].expires_at {
            seq![Checkpoint { authority: miner.authority, round_id: miner.round_id }]
        } else {
            Seq::empty()
        },
{
    law_last_round_of_an_id_counts(rounds, miner.round_id, j);
    lemma_one_checkpoint(miner, rounds, slot, fee_window);
}

/// A miner whose last round is gone is not checkpointed.
pub proof fn law_miner_of_a_gone_round_is_skipped(
    miner: Miner,
    rounds: Seq<Round>,
    slot: u64,
    fee_window: u64,
)
    requires
        forall|k: int| 0 <= k < rounds.len() ==> (#[trigger] rounds[k]).id != miner.round_id,
    ensures
        due_checkpoints(seq![miner], rounds, slot, fee_window) == Seq::<Checkpoint>::empty(),
{
    law_last_round_of_an_id_counts(rounds, miner.round_id, -1);
    lemma_one_checkpoint(miner, rounds, slot, fee_window);
}

proof fn lemma_one_checkpoint(miner: Miner, rounds: Seq<Round>, slot: u64, fee_window: u64)
    ensures
        due_checkpoints(seq![miner], rounds, slot, fee_window) == if checkpoint_due(
            miner,
            rounds,
            slot,
            fee_window,
        ) {
            seq![checkpoint_of(miner)]
        } else {
            Seq::empty()
        },
{
    reveal(Seq::filter);
    let one = seq![miner];
    let due = |miner: Miner| checkpoint_due(miner, rounds, slot, fee_window);
    assert(one.drop_last() =~= Seq::<Miner>::empty());
    assert(one.drop_last().filter(due) =~= Seq::<Miner>::empty());
    assert(one.last() == miner);
    assert(due_checkpoints(one, rounds, slot, fee_window) =~= if checkpoint_due(
        miner,
        rounds,
        slot,
        fee_window,
    ) {
        seq![checkpoint_of(miner)]
    } else {
        Seq::empty()
    });
}

/// Each miner is decided on by itself, in order: the checkpoints of two lists of
/// miners are those of the first and then those of the second.
pub proof fn law_miners_are_decided_on_one_by_one(
    a: Seq<Miner>,
    b: Seq<Miner>,
    rounds: Seq<Round>,
    slot: u64,
    fee_window: u64,
)
    ensures
        due_checkpoints(a + b, rounds, slot, fee_window) == due_checkpoints(
            a,
            rounds,
            slot,
            fee_window,
        ) + due_checkpoints(b, rounds, slot, fee_window),
        due_checkpoints(Seq::empty(), rounds, slot, fee_window) == Seq::<Checkpoint>::empty(),
{
    let due = |miner: Miner| checkpoint_due(miner, rounds, slot, fee_window);
    Seq::filter_distributes_over_add(a, b, due);
    assert(due_checkpoints(a + b, rounds, slot, fee_window) =~= due_checkpoints(
        a,
        rounds,
        slot,
        fee_window,
    ) + due_checkpoints(b, rounds, slot, fee_window));
    reveal(Seq::filter);
    assert(Seq::<Miner>::empty().filter(due) =~= Seq::<Miner>::empty());
    assert(due_checkpoints(Seq::empty(), rounds, slot, fee_window) =~= Seq::<Checkpoint>::empty());
}

/// A single round is closed exactly where the payer owns its rent, it has
/// expired and the board is past it, whatever was deployed on it.
pub proof fn law_expired_round_of_the_payer_is_closed(
    round: Round,
    payer: Address,
    slot: u64,
    board_round_id: u64,
)
    ensures
        due_closes(seq![round], payer, slot, board_round_id) == if round.rent_payer == payer
            && round.expires_at < slot && round.id < board_round_id {
            seq![round.id]
        } else {
            Seq::empty()
        },
{
    reveal(Seq::filter);
    let one = seq![round];
    let due = |round: Round| close_due(round, payer, slot, board_round_id);
    assert(one.drop_last() =~= Seq::<Round>::empty());
    assert(one.drop_last().filter(due) =~= Seq::<Round>::empty());
    assert(one.last() == round);
    assert(due_closes(one, payer, slot, board_round_id) =~= if round.rent_payer == payer
        && round.expires_at < slot && round.id < board_round_id {
        seq![round.id]
    } else {
        Seq::empty()
    });
}

/// Each round is decided on by itself, in order: the closes of two lists of
/// rounds are those of the first and then those of the second.
pub proof fn law_rounds_are_decided_on_one_by_one(
    a: Seq<Round>,
    b: Seq<Round>,
    payer: Address,
    slot: u64,
    board_round_id: u64,
)
    ensures
        due_closes(a + b, payer, slot, board_round_id) == due_closes(
            a,
            payer,
            slot,
            board_round_id,
        ) + due_closes(b, payer, slot, board_round_id),
        due_closes(Seq::empty(), payer, slot, board_round_id) == Seq::<u64>::empty(),
{
    let due = |round: Round| close_due(round, payer, slot, board_round_id);
    Seq::filter_distributes_over_add(a, b, due);
    assert(due_closes(a + b, payer, slot, board_round_id) =~= due_closes(
        a,
        payer,
        slot,
        board_round_id,
    ) + due_closes(b, payer, slot, board_round_id));
    reveal(Seq::filter);
    assert(Seq::<Round>::empty().filter(due) =~= Seq::<Round>::empty());
    assert(due_closes(Seq::empty(), payer, slot, board_round_id) =~= Seq::<u64>::empty());
}

} // verus!
