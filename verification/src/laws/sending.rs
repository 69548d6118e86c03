//! What is sent: batches, compute budgets and transactions.
use crate::batch::{
    failed, first_batch, landed_in, later_batches, split, BatchAction, BatchModel, BatchOutcome,
    BatchReply,
};
use crate::bytes::{byte_range, law_decode_of_encode, le_value, lemma_le_bytes_len};
use crate::chain::{AccountMeta, Address, InstructionView};
use crate::instructions::{reset_transaction, ENTROPY_ID, SLOT_HASHES_ID};
use crate::reset::ResetPlan;
use crate::tx::{
    batch_units, budgeted, mentioned_by, mentions, message_fits, onlookers, signed_by, signers,
    written_by, COMPUTE_BUDGET_ID,
};
use vstd::prelude::*;

verus! {

/// Batch `i` holds the instructions from `i * size` on, `size` of them or what
/// is left, and the batches go on until nothing is.
pub proof fn law_batches_are_cut_at_the_width<T>(pending: Seq<T>, size: nat, i: int)
    requires
        size > 0,
        0 <= i < split(pending, size).len(),
    ensures
        0 <= i * size < pending.len(),
        split(pending, size)[i] == pending.subrange(
            i * size,
            if (i + 1) * size < pending.len() {
                (i + 1) * size
            } else {
                pending.len() as int
            },
        ),
        i + 1 < split(pending, size).len() <==> (i + 1) * size < pending.len(),
    decreases pending.len(),
{
    let later = later_batches(pending, size);
    let batches = split(pending, size);
    assert(batches == seq![first_batch(pending, size)] + split(later, size));
    assert((i + 1) * size == i * size + size) by (nonlinear_arith);
    if i == 0 {
        assert(0 * size == 0) by (nonlinear_arith);
        assert(batches[0] =~= pending.subrange(
            0,
            if size < pending.len() {
                size as int
            } else {
                pending.len() as int
            },
        ));
        assert(split(later, size).len() > 0 <==> later.len() > 0);
    } else {
        law_batches_are_cut_at_the_width(later, size, i - 1);
        assert((i - 1) * size == i * size - size) by (nonlinear_arith);
        assert((i - 1 + 1) * size == i * size) by (nonlinear_arith);
        assert(batches[i] == split(later, size)[i - 1]);
        assert(size < pending.len());
        let end = if (i + 1) * size < pending.len() {
            (i + 1) * size
        } else {
            pending.len() as int
        };
        assert(pending.skip(size as int).subrange(i * size - size, end - size)
            =~= pending.subrange(i * size, end));
    }
}

/// The batches that did not land, with nothing in the place of the others.
pub open spec fn not_landed<T>(pending: Seq<T>, size: nat, results: Seq<bool>) -> Seq<Seq<T>> {
    Seq::new(
        split(pending, size).len(),
        |i: int|
            if i < results.len() && !results[i] {
                split(pending, size)[i]
            } else {
                Seq::empty()
            },
    )
}

/// The batches that landed, with nothing in the place of the others.
pub open spec fn did_land<T>(pending: Seq<T>, size: nat, results: Seq<bool>) -> Seq<Seq<T>> {
    Seq::new(
        split(pending, size).len(),
        |i: int|
            if i < results.len() && results[i] {
                split(pending, size)[i]
            } else {
                Seq::empty()
            },
    )
}

/// Just the instructions of the batches that did not land are tried again, in
/// order, and just those of the batches that did are counted.
pub proof fn law_failed_batches_are_tried_again<T>(
    pending: Seq<T>,
    size: nat,
    results: Seq<bool>,
)
    requires
        size > 0,
    ensures
        failed(pending, size, results) == not_landed(pending, size, results).flatten(),
        landed_in(pending, size, results) == did_land(pending, size, results).flatten().len(),
    decreases pending.len(),
{
    let none = Seq::<T>::empty();
    if pending.len() == 0 {
        assert(not_landed(pending, size, results).flatten() =~= none);
        assert(did_land(pending, size, results).flatten() =~= none);
    } else {
        let later = later_batches(pending, size);
        let rest = if results.len() > 0 {
            results.drop_first()
        } else {
            results
        };
        let batches = split(pending, size);
        assert(batches == seq![first_batch(pending, size)] + split(later, size));
        assert(forall|i: int|
            0 <= i < split(later, size).len() ==> #[trigger] split(later, size)[i] == batches[i
                + 1]);
        law_failed_batches_are_tried_again(later, size, rest);
        let out = not_landed(pending, size, results);
        let inn = did_land(pending, size, results);
        assert(out.drop_first() =~= not_landed(later, size, rest));
        assert(inn.drop_first() =~= did_land(later, size, rest));
        assert(out.first() == out[0]);
        assert(inn.first() == inn[0]);
        assert(none + failed(later, size, rest) =~= failed(later, size, rest));
        if results.len() == 0 {
            lemma_no_results(later, size);
        }
    }
}

proof fn lemma_no_results<T>(pending: Seq<T>, size: nat)
    requires
        size > 0,
    ensures
        failed(pending, size, Seq::empty()) == Seq::<T>::empty(),
        landed_in(pending, size, Seq::empty()) == 0,
{
}

/// A send starts with everything pending, in batches of the width that was
/// asked for, but of one at least; with nothing to send it is done at once.
pub proof fn law_send_starts_with_everything(instructions: Seq<InstructionView>, width: nat)
    ensures
        ({
            let start = BatchModel::start(instructions, width);
            &&& start.pending == instructions
            &&& start.batch_size >= 1
            &&& width >= 1 ==> start.batch_size == width
            &&& start.landed == 0
            &&& start.dropped == 0
            &&& start.total == instructions.len()
            &&& start.single_attempts == 0
            &&& start.wants() == if instructions.len() == 0 {
                BatchAction::Done(BatchOutcome { dropped: 0 })
            } else {
                BatchAction::Send
            }
        }),
{
}

/// What follows on the results of a pass. Where every batch landed the send is
/// done. Else what failed goes out again: at once and in batches half as wide,
/// or, of width one, after half a second, twice; at the third time it is
/// dropped, and that is how many are.
pub proof fn law_what_follows_on_results(state: BatchModel, results: Seq<bool>)
    requires
        state.wf(),
        state.total <= usize::MAX,
        state.wants() == BatchAction::Send,
    ensures
        ({
            let again = failed(state.pending, state.batch_size, results);
            let next = state.after(BatchReply::Results(results));
            &&& next.landed == state.landed + landed_in(state.pending, state.batch_size, results)
            &&& next.total == state.total
            &&& again.len() == 0 ==> next.wants() == BatchAction::Done(
                BatchOutcome { dropped: 0 },
            ) && next.dropped == 0
            &&& again.len() > 0 && state.batch_size > 1 ==> {
                &&& next.wants() == BatchAction::Send
                &&& next.pending == again
                &&& next.dropped == 0
                &&& next.batch_size >= 1
                &&& 2 * next.batch_size <= state.batch_size <= 2 * next.batch_size + 1
                &&& next.single_attempts == state.single_attempts
            }
            &&& again.len() > 0 && state.batch_size == 1 && state.single_attempts < 2 ==> {
                let rested = next.after(BatchReply::Rested);
                &&& next.wants() == BatchAction::Sleep(500)
                &&& rested.wants() == BatchAction::Send
                &&& rested.pending == again
                &&& rested.batch_size == 1
                &&& rested.dropped == 0
                &&& rested.landed == next.landed
                &&& rested.single_attempts == state.single_attempts + 1
            }
            &&& again.len() > 0 && state.batch_size == 1 && state.single_attempts == 2 ==> {
                &&& next.wants() == BatchAction::Done(
                    BatchOutcome { dropped: again.len() as usize },
                )
                &&& next.dropped == again.len()
                &&& next.pending.len() == 0
            }
        }),
{
    crate::batch::lemma_results_account(state.pending, state.batch_size, results);
}

/// A sender that fails as a whole ends the send, and what was not asked for
/// changes nothing.
pub proof fn law_broken_send_is_aborted(state: BatchModel, reply: BatchReply)
    ensures
        state.wants() == BatchAction::Send ==> state.after(BatchReply::SendFailed).wants()
            == BatchAction::Abort,
        (match state.wants() {
            BatchAction::Send => reply is Rested,
            BatchAction::Sleep(_) => !(reply is Rested),
            _ => true,
        }) ==> state.after(reply) == state,
{
}

/// The compute budget comes first, and nothing else is added or changed: the
/// limit under tag 2, in four bytes, and the price under tag 3, in eight, each
/// to the compute-budget program and without accounts, and then the
/// instructions as they are.
pub proof fn law_compute_budget_comes_first(
    instructions: Seq<InstructionView>,
    priority_fee: u64,
    cu_limit: u32,
    i: int,
)
    ensures
        ({
            let all = budgeted(instructions, priority_fee, cu_limit);
            &&& all.len() == instructions.len() + 2
            &&& all[0].program_id == COMPUTE_BUDGET_ID
            &&& all[0].accounts.len() == 0
            &&& all[0].data.len() == 5
            &&& all[0].data[0] == 2
            &&& le_value(all[0].data.subrange(1, 5)) == cu_limit
            &&& all[1].program_id == COMPUTE_BUDGET_ID
            &&& all[1].accounts.len() == 0
            &&& all[1].data.len() == 9
            &&& all[1].data[0] == 3
            &&& le_value(all[1].data.subrange(1, 9)) == priority_fee
            &&& 0 <= i < instructions.len() ==> all[i + 2] == instructions[i]
        }),
{
    reveal_with_fuel(byte_range, 9);
    lemma_le_bytes_len(cu_limit as nat, 4);
    lemma_le_bytes_len(priority_fee as nat, 8);
    law_decode_of_encode(cu_limit as nat, 4);
    law_decode_of_encode(priority_fee as nat, 8);
    let all = budgeted(instructions, priority_fee, cu_limit);
    assert(all[0].data.subrange(1, 5) =~= crate::bytes::le_bytes(cu_limit as nat, 4));
    assert(all[1].data.subrange(1, 9) =~= crate::bytes::le_bytes(priority_fee as nat, 8));
}

/// A batch is given compute units for each of its instructions and 10,000 on
/// top, up to 1,400,000.
pub proof fn law_batch_units_grow_up_to_the_cap(cu_per_ix: u32, len: nat)
    ensures
        cu_per_ix * len + 10_000 <= 1_400_000 ==> batch_units(cu_per_ix, len) == cu_per_ix * len
            + 10_000,
        cu_per_ix * len + 10_000 > 1_400_000 ==> batch_units(cu_per_ix, len) == 1_400_000,
{
    assert(cu_per_ix * len >= 0) by (nonlinear_arith)
        requires
            cu_per_ix >= 0,
            len >= 0,
    ;
}

/// A reset is one transaction of five instructions: its budget; the sample, by
/// the payer, of the variable and the slot hashes; the reveal, by the payer, of
/// the seed of the variable; and the reset as it is.
pub proof fn law_reset_is_one_transaction(
    payer: Address,
    plan: ResetPlan,
    reset: InstructionView,
    priority_fee: u64,
    cu_limit: u32,
)
    ensures
        ({
            let all = reset_transaction(payer, plan, reset, priority_fee, cu_limit);
            let signer = AccountMeta { pubkey: payer, is_signer: true, is_writable: true };
            let var = AccountMeta {
                pubkey: plan.var_address,
                is_signer: false,
                is_writable: true,
            };
            &&& all.len() == 5
            &&& all[0] == budgeted(Seq::empty(), priority_fee, cu_limit)[0]
            &&& all[1] == budgeted(Seq::empty(), priority_fee, cu_limit)[1]
            &&& all[2].program_id == ENTROPY_ID
            &&& all[2].data == seq![5u8]
            &&& all[2].accounts.len() == 3
            &&& all[2].accounts[0] == signer
            &&& all[2].accounts[1] == var
            &&& all[2].accounts[2].pubkey == SLOT_HASHES_ID
            &&& !all[2].accounts[2].is_signer
            &&& !all[2].accounts[2].is_writable
            &&& all[3].program_id == ENTROPY_ID
            &&& all[3].data.len() == 33
            &&& all[3].data[0] == 4
            &&& all[3].data.skip(1) == plan.seed@
            &&& all[3].accounts.len() == 2
            &&& all[3].accounts[0] == signer
            &&& all[3].accounts[1] == var
            &&& all[4] == reset
        }),
{
    let all = reset_transaction(payer, plan, reset, priority_fee, cu_limit);
    assert(all[3].data.skip(1) =~= plan.seed@);
}

/// All the addresses that instructions name, as often as they do.
pub open spec fn named_keys(instructions: Seq<InstructionView>) -> Seq<Address>
    decreases instructions.len(),
{
    if instructions.len() == 0 {
        Seq::empty()
    } else {
        named_keys(instructions.drop_last()).push(instructions.last().program_id)
            + instructions.last().accounts.map_values(|meta: AccountMeta| meta.pubkey)
    }
}

proof fn lemma_named_keys(instructions: Seq<InstructionView>, i: int, key: Address)
    requires
        0 <= i < instructions.len(),
        mentioned_by(instructions[i], key),
    ensures
        named_keys(instructions).contains(key),
    decreases instructions.len(),
{
    let earlier = instructions.drop_last();
    let last = instructions.last();
    let before = named_keys(earlier);
    let keys = last.accounts.map_values(|meta: AccountMeta| meta.pubkey);
    let all = named_keys(instructions);
    assert(all == before.push(last.program_id) + keys);
    if i < earlier.len() {
        assert(earlier[i] == instructions[i]);
        lemma_named_keys(earlier, i, key);
        let k = choose|k: int| 0 <= k < before.len() && before[k] == key;
        assert(all[k] == key);
    } else if last.program_id == key {
        assert(all[before.len() as int] == key);
    } else {
        let j = choose|j: int|
            0 <= j < last.accounts.len() && (#[trigger] last.accounts[j]).pubkey == key;
        assert(keys[j] == key);
        assert(all[before.len() + 1 + j] == key);
    }
}

/// A message can be compiled wherever its instructions and the payer name no
/// more than 255 addresses, counted as often as they are named.
pub proof fn law_ordinary_messages_fit(instructions: Seq<InstructionView>, payer: Address)
    requires
        named_keys(instructions).len() < 255,
    ensures
        message_fits(instructions, payer),
{
    let keys = named_keys(instructions).push(payer);
    assert(keys[named_keys(instructions).len() as int] == payer);
    assert forall|key: Address| named_keys(instructions).contains(key) implies keys.contains(
        key,
    ) by {
        let k = choose|k: int|
            0 <= k < named_keys(instructions).len() && named_keys(instructions)[k] == key;
        assert(keys[k] == key);
    }
    let set = keys.to_set();
    keys.lemma_cardinality_of_set();
    vstd::seq_lib::seq_to_set_is_finite(keys);
    assert forall|key: Address| signers(instructions, payer).contains(key) implies set.contains(
        key,
    ) by {
        if key != payer {
            let i = choose|i: int|
                0 <= i < instructions.len() && #[trigger] signed_by(instructions[i], key);
            assert(mentioned_by(instructions[i], key));
            lemma_named_keys(instructions, i, key);
        }
    }
    assert forall|key: Address| onlookers(instructions, payer).contains(key) implies set.contains(
        key,
    ) by {
        assert(mentions(instructions, key));
        let i = choose|i: int|
            0 <= i < instructions.len() && #[trigger] mentioned_by(instructions[i], key);
        lemma_named_keys(instructions, i, key);
    }
    vstd::set_lib::lemma_len_subset(signers(instructions, payer), set);
    vstd::set_lib::lemma_len_subset(onlookers(instructions, payer), set);
}

/// Whether an instruction names `key` as an account that signs.
pub open spec fn is_asked_to_sign(instructions: Seq<InstructionView>, key: Address) -> bool {
    exists|i: int, j: int|
        0 <= i < instructions.len() && 0 <= j < instructions[i].accounts.len()
            && #[trigger] instructions[i].accounts[j].pubkey == key
            && instructions[i].accounts[j].is_signer
}

/// Whether an instruction names `key` as an account that it writes to.
pub open spec fn is_asked_to_be_written(instructions: Seq<InstructionView>, key: Address) -> bool {
    exists|i: int, j: int|
        0 <= i < instructions.len() && 0 <= j < instructions[i].accounts.len()
            && #[trigger] instructions[i].accounts[j].pubkey == key
            && instructions[i].accounts[j].is_writable
}

/// A message cannot be compiled where more than 255 addresses have to sign it,
/// or where it only reads more than 255 that do not.
pub proof fn law_crowded_messages_do_not_fit(
    instructions: Seq<InstructionView>,
    payer: Address,
    keys: Seq<Address>,
)
    requires
        keys.no_duplicates(),
        keys.len() > 255,
        (forall|k: int|
            0 <= k < keys.len() ==> is_asked_to_sign(instructions, #[trigger] keys[k])) || (forall|
            k: int,
        |
            0 <= k < keys.len() ==> named_keys(instructions).contains(#[trigger] keys[k]) && keys[k]
                != payer && !is_asked_to_sign(instructions, keys[k]) && !is_asked_to_be_written(
                instructions,
                keys[k],
            )),
    ensures
        !message_fits(instructions, payer),
{
    lemma_roles_are_finite(instructions, payer);
    keys.unique_seq_to_set();
    if forall|k: int| 0 <= k < keys.len() ==> is_asked_to_sign(instructions, #[trigger] keys[k]) {
        assert forall|key: Address| keys.to_set().contains(key) implies signers(
            instructions,
            payer,
        ).contains(key) by {
            let k = choose|k: int| 0 <= k < keys.len() && keys[k] == key;
            assert(is_asked_to_sign(instructions, keys[k]));
            let (i, j) = choose|i: int, j: int|
                0 <= i < instructions.len() && 0 <= j < instructions[i].accounts.len()
                    && #[trigger] instructions[i].accounts[j].pubkey == key
                    && instructions[i].accounts[j].is_signer;
            assert(signed_by(instructions[i], key));
        }
        vstd::set_lib::lemma_len_subset(keys.to_set(), signers(instructions, payer));
    } else {
        assert forall|key: Address| keys.to_set().contains(key) implies onlookers(
            instructions,
            payer,
        ).contains(key) by {
            let k = choose|k: int| 0 <= k < keys.len() && keys[k] == key;
            assert(named_keys(instructions).contains(keys[k]));
            lemma_named_key_is_mentioned(instructions, key);
            lemma_roles_by_fields(instructions, key);
        }
        vstd::set_lib::lemma_len_subset(keys.to_set(), onlookers(instructions, payer));
    }
}

proof fn lemma_roles_by_fields(instructions: Seq<InstructionView>, key: Address)
    ensures
        (exists|i: int| 0 <= i < instructions.len() && #[trigger] signed_by(instructions[i], key))
            ==> is_asked_to_sign(instructions, key),
        (exists|i: int| 0 <= i < instructions.len() && #[trigger] written_by(instructions[i], key))
            ==> is_asked_to_be_written(instructions, key),
{
    if exists|i: int| 0 <= i < instructions.len() && #[trigger] signed_by(instructions[i], key) {
        let i = choose|i: int|
            0 <= i < instructions.len() && #[trigger] signed_by(instructions[i], key);
        let j = choose|j: int|
            0 <= j < instructions[i].accounts.len() && (
            #[trigger] instructions[i].accounts[j]).pubkey == key
                && instructions[i].accounts[j].is_signer;
        assert(instructions[i].accounts[j].pubkey == key);
    }
    if exists|i: int| 0 <= i < instructions.len() && #[trigger] written_by(instructions[i], key) {
        let i = choose|i: int|
            0 <= i < instructions.len() && #[trigger] written_by(instructions[i], key);
        let j = choose|j: int|
            0 <= j < instructions[i].accounts.len() && (
            #[trigger] instructions[i].accounts[j]).pubkey == key
                && instructions[i].accounts[j].is_writable;
        assert(instructions[i].accounts[j].pubkey == key);
    }
}

proof fn lemma_named_key_is_mentioned(instructions: Seq<InstructionView>, key: Address)
    requires
        named_keys(instructions).contains(key),
    ensures
        mentions(instructions, key),
    decreases instructions.len(),
{
    if instructions.len() > 0 {
        let earlier = instructions.drop_last();
        let last = instructions.last();
        let before = named_keys(earlier);
        let keys = last.accounts.map_values(|meta: AccountMeta| meta.pubkey);
        let all = named_keys(instructions);
        let end = instructions.len() - 1;
        assert(all == before.push(last.program_id) + keys);
        assert(instructions[end] == last);
        let k = choose|k: int| 0 <= k < all.len() && all[k] == key;
        if k < before.len() {
            assert(before[k] == key);
            lemma_named_key_is_mentioned(earlier, key);
            let i = choose|i: int|
                0 <= i < earlier.len() && #[trigger] mentioned_by(earlier[i], key);
            assert(earlier[i] == instructions[i]);
            assert(mentioned_by(instructions[i], key));
        } else if k == before.len() {
            assert(mentioned_by(instructions[end], key));
        } else {
            let j = k - before.len() - 1;
            assert(keys[j] == key);
            assert(last.accounts[j].pubkey == key);
            assert(mentioned_by(instructions[end], key));
        }
    }
}

proof fn lemma_roles_are_finite(instructions: Seq<InstructionView>, payer: Address)
    ensures
        signers(instructions, payer).finite(),
        onlookers(instructions, payer).finite(),
{
    let keys = named_keys(instructions).push(payer);
    let set = keys.to_set();
    vstd::seq_lib::seq_to_set_is_finite(keys);
    assert(keys[named_keys(instructions).len() as int] == payer);
    assert forall|key: Address| named_keys(instructions).contains(key) implies keys.contains(
        key,
    ) by {
        let k = choose|k: int|
            0 <= k < named_keys(instructions).len() && named_keys(instructions)[k] == key;
        assert(keys[k] == key);
    }
    assert forall|key: Address| signers(instructions, payer).contains(key) implies set.contains(
        key,
    ) by {
        if key != payer {
            let i = choose|i: int|
                0 <= i < instructions.len() && #[trigger] signed_by(instructions[i], key);
            assert(mentioned_by(instructions[i], key));
            lemma_named_keys(instructions, i, key);
        }
    }
    assert forall|key: Address| onlookers(instructions, payer).contains(key) implies set.contains(
        key,
    ) by {
        assert(mentions(instructions, key));
        let i = choose|i: int|
            0 <= i < instructions.len() && #[trigger] mentioned_by(instructions[i], key);
        lemma_named_keys(instructions, i, key);
    }
    vstd::set_lib::lemma_len_subset(signers(instructions, payer), set);
    vstd::set_lib::lemma_len_subset(onlookers(instructions, payer), set);
}

} // verus!
