//! Periodic maintenance: checkpoint eligible miners, then close expired rounds.
//!
//! Both phases produce many independent instructions, which go out through the
//! bisecting sender, so that a stale one cannot sink the rest of its batch.
use crate::batch::BatchOutcome;
use crate::chain::{same_bytes, Address, Miner, Round};
use crate::text::{decimal, decimal_text, info, warning, Line};
use std::collections::HashMap;
use vstd::prelude::*;

verus! {

/// Starting batch width for both phases.
pub const INITIAL_BATCH_SIZE: usize = 6;

/// Compute units that a checkpoint instruction is given.
pub const CHECKPOINT_CU_PER_IX: u32 = 60_000;

/// Compute units that a close instruction is given.
pub const CLOSE_CU_PER_IX: u32 = 40_000;

/// A miner to checkpoint, and the round to do it for.
#[derive(Clone, Copy, Debug, PartialEq, Eq)]
pub struct Checkpoint {
    pub authority: Address,
    pub round_id: u64,
}

/// When round `id` expires, if it is among `rounds`. Of several with the same
/// id the last one counts.
pub open spec fn expiry(rounds: Seq<Round>, id: u64) -> Option<u64>
    decreases rounds.len(),
{
    if rounds.len() == 0 {
        None
    } else if rounds.last().id == id {
        Some(rounds.last().expires_at)
    } else {
        expiry(rounds.drop_last(), id)
    }
}

/// Whether `miner` is to be checkpointed at `slot`: it has not checkpointed
/// its last round, that round is still there, and the slot is inside the
/// round's fee window, its last `fee_window` slots up to the one it expires at.
pub open spec fn checkpoint_due(
    miner: Miner,
    rounds: Seq<Round>,
    slot: u64,
    fee_window: u64,
) -> bool {
    &&& miner.checkpoint_id < miner.round_id
    &&& expiry(rounds, miner.round_id) matches Some(expires_at) && in_fee_window(
        expires_at,
        slot,
        fee_window,
    )
}

/// Whether at most `fee_window` slots are left at `slot` until `expires_at`.
pub open spec fn in_fee_window(expires_at: u64, slot: u64, fee_window: u64) -> bool {
    expires_at - fee_window <= slot <= expires_at
}

/// The checkpoint of a miner.
pub open spec fn checkpoint_of(miner: Miner) -> Checkpoint {
    Checkpoint { authority: miner.authority, round_id: miner.round_id }
}

/// The checkpoints to make, in the order of the miners.
pub open spec fn due_checkpoints(
    miners: Seq<Miner>,
    rounds: Seq<Round>,
    slot: u64,
    fee_window: u64,
) -> Seq<Checkpoint> {
    miners.filter(|miner: Miner| checkpoint_due(miner, rounds, slot, fee_window)).map_values(
        |miner: Miner| checkpoint_of(miner),
    )
}

spec fn lookup(map: Map<u64, u64>, key: u64) -> Option<u64> {
    if map.contains_key(key) {
        Some(map[key])
    } else {
        None
    }
}

fn expiries(rounds: &[Round]) -> (expiries: HashMap<u64, u64>)
    ensures
        forall|id: u64| #[trigger] lookup(expiries@, id) == expiry(rounds@, id),
{
    broadcast use vstd::std_specs::hash::group_hash_axioms;

    let mut expiries: HashMap<u64, u64> = HashMap::new();
    let mut i: usize = 0;
    while i < rounds.len()
        invariant
            i <= rounds@.len(),
            forall|id: u64| #[trigger]
                lookup(expiries@, id) == expiry(rounds@.take(i as int), id),
        decreases rounds@.len() - i,
    {
        let ghost before = expiries@;
        expiries.insert(rounds[i].id, rounds[i].expires_at);
        assert forall|id: u64| #[trigger] lookup(expiries@, id) == expiry(
            rounds@.take(i + 1),
            id,
        ) by {
            assert(rounds@.take(i + 1).drop_last() =~= rounds@.take(i as int));
            assert(rounds@.take(i + 1).last() == rounds@[i as int]);
            assert(lookup(before, id) == expiry(rounds@.take(i as int), id));
        }
        i = i + 1;
    }
    assert(rounds@.take(i as int) =~= rounds@);
    expiries
}

/// Selects every miner that has not checkpointed its last round and is inside
/// the last `fee_window` slots of that round, in which checkpointing earns a
/// fee.
pub fn checkpoint_eligible(slot: u64, miners: &[Miner], rounds: &[Round], fee_window: u64) -> (due:
    Vec<Checkpoint>)
    ensures
        due@ == due_checkpoints(miners@, rounds@, slot, fee_window),
{
    broadcast use vstd::std_specs::hash::group_hash_axioms;

    let expiries = expiries(rounds);
    let mut due: Vec<Checkpoint> = Vec::new();
    let mut i: usize = 0;
    while i < miners.len()
        invariant
            i <= miners@.len(),
            forall|id: u64| #[trigger] lookup(expiries@, id) == expiry(rounds@, id),
            due@ =~= due_checkpoints(miners@.take(i as int), rounds@, slot, fee_window),
        decreases miners@.len() - i,
    {
        let miner = &miners[i];
        proof {
            assert(lookup(expiries@, miner.round_id) == expiry(rounds@, miner.round_id));
            lemma_due_checkpoints_step(miners@, i as int, rounds@, slot, fee_window);
        }
        i = i + 1;
        if miner.checkpoint_id >= miner.round_id {
            continue ;
        }
        let expires_at: u64 = match expiries.get(&miner.round_id) {
            Some(expires_at) => *expires_at,
            None => continue ,
        };
        let fee_start: u64 = expires_at.saturating_sub(fee_window);
        if fee_start <= slot && slot <= expires_at {
            due.push(Checkpoint { authority: miner.authority, round_id: miner.round_id });
        }
    }
    assert(miners@.take(i as int) =~= miners@);
    due
}

proof fn lemma_due_checkpoints_step(
    miners: Seq<Miner>,
    i: int,
    rounds: Seq<Round>,
    slot: u64,
    fee_window: u64,
)
    requires
        0 <= i < miners.len(),
    ensures
        due_checkpoints(miners.take(i + 1), rounds, slot, fee_window) == if checkpoint_due(
            miners[i],
            rounds,
            slot,
            fee_window,
        ) {
            due_checkpoints(miners.take(i), rounds, slot, fee_window).push(
                checkpoint_of(miners[i]),
            )
        } else {
            due_checkpoints(miners.take(i), rounds, slot, fee_window)
        },
{
    reveal(Seq::filter);
    assert(miners.take(i + 1).drop_last() =~= miners.take(i));
    assert(miners.take(i + 1).last() == miners[i]);
    if checkpoint_due(miners[i], rounds, slot, fee_window) {
        assert(due_checkpoints(miners.take(i + 1), rounds, slot, fee_window) =~= due_checkpoints(
            miners.take(i),
            rounds,
            slot,
            fee_window,
        ).push(checkpoint_of(miners[i])));
    }
}

/// Whether `payer` is to close `round` at `slot`, while the board is at
/// `board_round_id`: it owns the rent, and the round is expired and behind.
pub open spec fn close_due(round: Round, payer: Address, slot: u64, board_round_id: u64) -> bool {
    &&& round.rent_payer == payer
    &&& round.expires_at < slot
    &&& round.id < board_round_id
}

/// The ids of the rounds to close, in the order of the rounds.
pub open spec fn due_closes(
    rounds: Seq<Round>,
    payer: Address,
    slot: u64,
    board_round_id: u64,
) -> Seq<u64> {
    rounds.filter(|round: Round| close_due(round, payer, slot, board_round_id)).map_values(
        |round: Round| round.id,
    )
}

/// Selects the expired rounds whose rent this payer owns.
pub fn close_eligible(payer: Address, slot: u64, board_round_id: u64, rounds: &[Round]) -> (due:
    Vec<u64>)
    ensures
        due@ == due_closes(rounds@, payer, slot, board_round_id),
        forall|id: u64| #[trigger]
            due@.contains(id) <==> exists|i: int|
                0 <= i < rounds@.len() && (#[trigger] rounds@[i]).id == id && rounds@[i].rent_payer
                    == payer && rounds@[i].expires_at < slot && id < board_round_id,
{
    let mut due: Vec<u64> = Vec::new();
    let mut i: usize = 0;
    while i < rounds.len()
        invariant
            i <= rounds@.len(),
            due@ =~= due_closes(rounds@.take(i as int), payer, slot, board_round_id),
        decreases rounds@.len() - i,
    {
        let round = &rounds[i];
        proof {
            reveal(Seq::filter);
            assert(rounds@.take(i + 1).drop_last() =~= rounds@.take(i as int));
            assert(rounds@.take(i + 1).last() == rounds@[i as int]);
        }
        if same_bytes(&round.rent_payer, &payer) && round.expires_at < slot && round.id
            < board_round_id {
            due.push(round.id);
        }
        i = i + 1;
    }
    assert(rounds@.take(i as int) =~= rounds@);
    assert forall|id: u64| #[trigger] due@.contains(id) <==> exists|i: int|
        0 <= i < rounds@.len() && (#[trigger] rounds@[i]).id == id && rounds@[i].rent_payer == payer
            && rounds@[i].expires_at < slot && id < board_round_id by {
        lemma_closes_by_fields(rounds@, payer, slot, board_round_id, id);
    }
    due
}

/// A round is to be closed by four of its fields alone, in whatever company.
pub proof fn lemma_closes_by_fields(
    rounds: Seq<Round>,
    payer: Address,
    slot: u64,
    board_round_id: u64,
    id: u64,
)
    ensures
        due_closes(rounds, payer, slot, board_round_id).contains(id) <==> exists|i: int|
            0 <= i < rounds.len() && (#[trigger] rounds[i]).id == id && rounds[i].rent_payer
                == payer && rounds[i].expires_at < slot && id < board_round_id,
{
    let pred = |round: Round| close_due(round, payer, slot, board_round_id);
    if due_closes(rounds, payer, slot, board_round_id).contains(id) {
        let j = lemma_due_close_is_a_round(rounds, payer, slot, board_round_id, id);
        assert(rounds[j].id == id);
    }
    if exists|i: int|
        0 <= i < rounds.len() && (#[trigger] rounds[i]).id == id && rounds[i].rent_payer == payer
            && rounds[i].expires_at < slot && id < board_round_id {
        let i = choose|i: int|
            0 <= i < rounds.len() && (#[trigger] rounds[i]).id == id && rounds[i].rent_payer
                == payer && rounds[i].expires_at < slot && id < board_round_id;
        rounds.lemma_filter_contains(pred, i);
        let kept = rounds.filter(pred);
        let k = choose|k: int| 0 <= k < kept.len() && kept[k] == rounds[i];
        assert(due_closes(rounds, payer, slot, board_round_id)[k] == id);
    }
}

/// A miner that is due stays due as the slots go by, until its round expires.
pub proof fn law_checkpoint_stays_due(
    miner: Miner,
    rounds: Seq<Round>,
    slot: u64,
    later: u64,
    fee_window: u64,
)
    requires
        slot <= later,
        expiry(rounds, miner.round_id) matches Some(expires_at) ==> later <= expires_at,
        checkpoint_due(miner, rounds, slot, fee_window),
    ensures
        checkpoint_due(miner, rounds, later, fee_window),
{
}

/// A round that is to be closed stays so as slots and rounds go by.
pub proof fn law_close_stays_due(
    round: Round,
    payer: Address,
    slot: u64,
    later: u64,
    board_round_id: u64,
    later_round_id: u64,
)
    requires
        slot <= later,
        board_round_id <= later_round_id,
        close_due(round, payer, slot, board_round_id),
    ensures
        close_due(round, payer, later, later_round_id),
{
}

/// A round is closed only behind its fee window: at a slot at which it is
/// closed, none of its miners is due any more, and every miner that has yet to
/// checkpoint it was due at each slot of the window, which lies before.
pub proof fn law_close_comes_behind_the_fee_window(
    rounds: Seq<Round>,
    payer: Address,
    slot: u64,
    board_round_id: u64,
    fee_window: u64,
    miner: Miner,
)
    requires
        forall|i: int, j: int|
            0 <= i < rounds.len() && 0 <= j < rounds.len() && (#[trigger] rounds[i]).id == (
            #[trigger] rounds[j]).id ==> i == j,
        miner.checkpoint_id < miner.round_id,
        due_closes(rounds, payer, slot, board_round_id).contains(miner.round_id),
    ensures
        !checkpoint_due(miner, rounds, slot, fee_window),
        expiry(rounds, miner.round_id) matches Some(expires_at) && expires_at < slot && forall|
            earlier: u64,
        |
            in_fee_window(expires_at, earlier, fee_window) ==> #[trigger] checkpoint_due(
                miner,
                rounds,
                earlier,
                fee_window,
            ),
{
    let j = lemma_due_close_is_a_round(rounds, payer, slot, board_round_id, miner.round_id);
    lemma_expiry_of_a_round(rounds, j);
}

proof fn lemma_due_close_is_a_round(
    rounds: Seq<Round>,
    payer: Address,
    slot: u64,
    board_round_id: u64,
    id: u64,
) -> (j: int)
    requires
        due_closes(rounds, payer, slot, board_round_id).contains(id),
    ensures
        0 <= j < rounds.len(),
        rounds[j].id == id,
        close_due(rounds[j], payer, slot, board_round_id),
    decreases rounds.len(),
{
    reveal(Seq::filter);
    let closes = due_closes(rounds, payer, slot, board_round_id);
    let k = choose|k: int| 0 <= k < closes.len() && closes[k] == id;
    let earlier = due_closes(rounds.drop_last(), payer, slot, board_round_id);
    let last = rounds.len() - 1;
    if k < earlier.len() {
        assert(earlier[k] == id);
        lemma_due_close_is_a_round(rounds.drop_last(), payer, slot, board_round_id, id)
    } else {
        last
    }
}

proof fn lemma_expiry_of_a_round(rounds: Seq<Round>, j: int)
    requires
        0 <= j < rounds.len(),
        forall|i: int, j: int|
            0 <= i < rounds.len() && 0 <= j < rounds.len() && (#[trigger] rounds[i]).id == (
            #[trigger] rounds[j]).id ==> i == j,
    ensures
        expiry(rounds, rounds[j].id) == Some(rounds[j].expires_at),
    decreases rounds.len(),
{
    let last = rounds.len() - 1;
    if j < last {
        assert(rounds[last].id != rounds[j].id);
        let earlier = rounds.drop_last();
        assert(forall|i: int| 0 <= i < earlier.len() ==> #[trigger] earlier[i] == rounds[i]);
        lemma_expiry_of_a_round(earlier, j);
    }
}

/// What a pass looks through for miners to checkpoint.
pub fn checkpoint_scan_line(miners: usize, rounds: usize) -> (line: Line)
    ensures
        line@ == info(
            "[checkpoint] scanning "@ + decimal(miners as nat) + " miners against "@ + decimal(
                rounds as nat,
            ) + " rounds"@,
        ),
{
    let mut text = String::from_str("[checkpoint] scanning ");
    text.append(decimal_text(miners as u64).as_str());
    text.append(" miners against ");
    text.append(decimal_text(rounds as u64).as_str());
    text.append(" rounds");
    Line { warning: false, text }
}

/// What a pass looks through for rounds to close.
pub fn close_scan_line(rounds: usize) -> (line: Line)
    ensures
        line@ == info("[close] scanning "@ + decimal(rounds as nat) + " rounds"@),
{
    let mut text = String::from_str("[close] scanning ");
    text.append(decimal_text(rounds as u64).as_str());
    text.append(" rounds");
    Line { warning: false, text }
}

/// How many miners there are to checkpoint.
pub fn checkpoint_line(due: usize) -> (line: Line)
    ensures
        line@ == info(
            if due == 0 {
                "[checkpoint] nothing eligible"@
            } else {
                "[checkpoint] "@ + decimal(due as nat) + " miner(s) to checkpoint"@
            },
        ),
{
    if due == 0 {
        return Line { warning: false, text: String::from_str("[checkpoint] nothing eligible") };
    }
    let mut text = String::from_str("[checkpoint] ");
    text.append(decimal_text(due as u64).as_str());
    text.append(" miner(s) to checkpoint");
    Line { warning: false, text }
}

/// How many rounds there are to close.
pub fn close_line(due: usize) -> (line: Line)
    ensures
        line@ == info(
            if due == 0 {
                "[close] nothing eligible"@
            } else {
                "[close] "@ + decimal(due as nat) + " round(s) to close"@
            },
        ),
{
    if due == 0 {
        return Line { warning: false, text: String::from_str("[close] nothing eligible") };
    }
    let mut text = String::from_str("[close] ");
    text.append(decimal_text(due as u64).as_str());
    text.append(" round(s) to close");
    Line { warning: false, text }
}

/// The warning that miners were left out of a pass, if any were.
pub fn checkpoint_warning(outcome: &BatchOutcome) -> (line: Option<Line>)
    ensures
        line is Some <==> outcome.dropped > 0,
        line matches Some(line) ==> line@ == warning(
            "[checkpoint] WARNING: "@ + decimal(outcome.dropped as nat)
                + " miner(s) could not be checkpointed this pass"@,
        ),
{
    if outcome.dropped == 0 {
        return None;
    }
    let mut text = String::from_str("[checkpoint] WARNING: ");
    text.append(decimal_text(outcome.dropped as u64).as_str());
    text.append(" miner(s) could not be checkpointed this pass");
    Some(Line { warning: true, text })
}

/// The warning that rounds were left out of a pass, if any were.
pub fn close_warning(outcome: &BatchOutcome) -> (line: Option<Line>)
    ensures
        line is Some <==> outcome.dropped > 0,
        line matches Some(line) ==> line@ == warning(
            "[close] WARNING: "@ + decimal(outcome.dropped as nat)
                + " round(s) could not be closed this pass (already closed / not yet expired?)"@,
        ),
{
    if outcome.dropped == 0 {
        return None;
    }
    let mut text = String::from_str("[close] WARNING: ");
    text.append(decimal_text(outcome.dropped as u64).as_str());
    text.append(" round(s) could not be closed this pass (already closed / not yet expired?)");
    Some(Line { warning: true, text })
}

} // verus!
