//! Transactions: the compute budget in front of their instructions, the
//! messages they carry, and the sender that isolates failing instructions.
use crate::bytes::le_bytes;
use crate::chain::{lemma_views_push, same_bytes, views, AccountMeta, Address, Instruction, InstructionView};
use solana_sdk::instruction::{AccountMeta as SolanaMeta, Instruction as SolanaInstruction};
use solana_sdk::message::Message as SolanaMessage;
use vstd::prelude::*;

verus! {

/// The compute-budget program.
pub const COMPUTE_BUDGET_ID: Address = [
    3, 6, 70, 111, 229, 33, 23, 50, 255, 236, 173, 186, 114, 195, 155, 231, 188, 140, 229, 187,
    197, 247, 18, 107, 44, 67, 155, 58, 64, 0, 0, 0,
];

/// Solana's hard cap on compute units per transaction.
pub const MAX_CU_PER_TX: u32 = 1_400_000;

/// Compute units that a batch is given on top of those of its instructions.
pub const BATCH_CU_HEADROOM: u32 = 10_000;

/// Passes that a lone failing instruction is given before it is dropped.
pub const MAX_SINGLE_ATTEMPTS: u32 = 3;

/// Milliseconds between two passes over lone failing instructions.
pub const SINGLE_RETRY_PAUSE_MS: u64 = 500;

/// The instruction that limits a transaction to `units` compute units.
pub open spec fn unit_limit(units: u32) -> InstructionView {
    InstructionView {
        program_id: COMPUTE_BUDGET_ID,
        accounts: Seq::empty(),
        data: seq![2u8] + le_bytes(units as nat, 4),
    }
}

/// The instruction that offers `micro_lamports` per compute unit.
pub open spec fn unit_price(micro_lamports: u64) -> InstructionView {
    InstructionView {
        program_id: COMPUTE_BUDGET_ID,
        accounts: Seq::empty(),
        data: seq![3u8] + le_bytes(micro_lamports as nat, 8),
    }
}

/// `instructions` behind their compute limit and their price.
pub open spec fn budgeted(
    instructions: Seq<InstructionView>,
    priority_fee: u64,
    cu_limit: u32,
) -> Seq<InstructionView> {
    seq![unit_limit(cu_limit), unit_price(priority_fee)] + instructions
}

/// Calls `ComputeBudgetInstruction::set_compute_unit_limit`, which names no
/// account and writes the tag 2 and then the limit, little-endian.
#[verifier::external_body]
fn set_compute_unit_limit(units: u32) -> (instruction: Instruction)
    ensures
        instruction@ == unit_limit(units),
{
    let made =
        solana_sdk::compute_budget::ComputeBudgetInstruction::set_compute_unit_limit(units);
    Instruction {
        program_id: made.program_id.to_bytes(),
        accounts: made.accounts.iter().map(|meta| AccountMeta {
            pubkey: meta.pubkey.to_bytes(),
            is_signer: meta.is_signer,
            is_writable: meta.is_writable,
        }).collect(),
        data: made.data,
    }
}

/// Calls `ComputeBudgetInstruction::set_compute_unit_price`, which names no
/// account and writes the tag 3 and then the price, little-endian.
#[verifier::external_body]
fn set_compute_unit_price(micro_lamports: u64) -> (instruction: Instruction)
    ensures
        instruction@ == unit_price(micro_lamports),
{
    let made = solana_sdk::compute_budget::ComputeBudgetInstruction::set_compute_unit_price(
        micro_lamports,
    );
    Instruction {
        program_id: made.program_id.to_bytes(),
        accounts: made.accounts.iter().map(|meta| AccountMeta {
            pubkey: meta.pubkey.to_bytes(),
            is_signer: meta.is_signer,
            is_writable: meta.is_writable,
        }).collect(),
        data: made.data,
    }
}

/// Puts the compute-unit limit and the priority fee in front of `instructions`.
pub fn with_compute_budget(
    instructions: &[Instruction],
    priority_fee: u64,
    cu_limit: u32,
) -> (all: Vec<Instruction>)
    ensures
        views(all@) == budgeted(views(instructions@), priority_fee, cu_limit),
        all@.len() == instructions@.len() + 2,
        forall|i: int|
            0 <= i < instructions@.len() ==> views(all@)[i + 2] == (#[trigger] instructions@[i])@,
{
    let mut all: Vec<Instruction> = Vec::new();
    all.push(set_compute_unit_limit(cu_limit));
    all.push(set_compute_unit_price(priority_fee));
    let mut i: usize = 0;
    while i < instructions.len()
        invariant
            i <= instructions@.len(),
            views(all@) =~= budgeted(views(instructions@.take(i as int)), priority_fee, cu_limit),
        decreases instructions@.len() - i,
    {
        let next = instructions[i].duplicate();
        proof {
            lemma_views_push(all@, next);
            lemma_views_push(instructions@.take(i as int), instructions@[i as int]);
            assert(instructions@.take(i + 1) =~= instructions@.take(i as int).push(
                instructions@[i as int],
            ));
        }
        all.push(next);
        i = i + 1;
    }
    assert(instructions@.take(i as int) =~= instructions@);
    all
}

/// Whether some instruction names `key`, as its program or as an account.
pub open spec fn mentions(instructions: Seq<InstructionView>, key: Address) -> bool {
    exists|i: int|
        0 <= i < instructions.len() && #[trigger] mentioned_by(instructions[i], key)
}

pub open spec fn mentioned_by(instruction: InstructionView, key: Address) -> bool {
    ||| instruction.program_id == key
    ||| exists|j: int|
        0 <= j < instruction.accounts.len() && (#[trigger] instruction.accounts[j]).pubkey == key
}

/// Whether `key` has to sign: it pays, or an instruction wants its signature.
pub open spec fn signs(instructions: Seq<InstructionView>, payer: Address, key: Address) -> bool {
    ||| key == payer
    ||| exists|i: int|
        0 <= i < instructions.len() && #[trigger] signed_by(instructions[i], key)
}

pub open spec fn signed_by(instruction: InstructionView, key: Address) -> bool {
    exists|j: int|
        0 <= j < instruction.accounts.len() && (#[trigger] instruction.accounts[j]).pubkey == key
            && instruction.accounts[j].is_signer
}

/// Whether `key` may be written: it pays, or an instruction writes to it.
pub open spec fn writes(instructions: Seq<InstructionView>, payer: Address, key: Address) -> bool {
    ||| key == payer
    ||| exists|i: int|
        0 <= i < instructions.len() && #[trigger] written_by(instructions[i], key)
}

pub open spec fn written_by(instruction: InstructionView, key: Address) -> bool {
    exists|j: int|
        0 <= j < instruction.accounts.len() && (#[trigger] instruction.accounts[j]).pubkey == key
            && instruction.accounts[j].is_writable
}

/// The accounts that have to sign a message.
pub open spec fn signers(instructions: Seq<InstructionView>, payer: Address) -> Set<Address> {
    Set::new(|key: Address| signs(instructions, payer, key))
}

/// The accounts that a message only reads and that do not sign it.
pub open spec fn onlookers(instructions: Seq<InstructionView>, payer: Address) -> Set<Address> {
    Set::new(
        |key: Address|
            mentions(instructions, key) && !signs(instructions, payer, key) && !writes(
                instructions,
                payer,
                key,
            ),
    )
}

/// Whether the header of a message, which counts in single bytes, can hold
/// the accounts of these instructions.
pub open spec fn message_fits(instructions: Seq<InstructionView>, payer: Address) -> bool {
    &&& signers(instructions, payer).len() <= u8::MAX
    &&& onlookers(instructions, payer).len() <= u8::MAX
}

/// An instruction of a message, with indices in place of addresses.
#[derive(Debug, PartialEq, Eq)]
pub struct CompiledInstruction {
    pub program_id_index: u8,
    pub accounts: Vec<u8>,
    pub data: Vec<u8>,
}

/// A message that waits for its blockhash and its signatures.
#[derive(Debug, PartialEq, Eq)]
pub struct Message {
    /// Required signatures, read-only accounts among those that sign, and
    /// read-only accounts among those that do not.
    pub header: [u8; 3],
    pub account_keys: Vec<Address>,
    pub instructions: Vec<CompiledInstruction>,
}

/// What a [`CompiledInstruction`] says, apart from where it is stored.
#[verifier::ext_equal]
pub struct CompiledInstructionView {
    pub program_id_index: u8,
    pub accounts: Seq<u8>,
    pub data: Seq<u8>,
}

/// What a [`Message`] says, apart from where it is stored.
#[verifier::ext_equal]
pub struct MessageView {
    pub header: [u8; 3],
    pub account_keys: Seq<Address>,
    pub instructions: Seq<CompiledInstructionView>,
}

impl View for CompiledInstruction {
    type V = CompiledInstructionView;

    open spec fn view(&self) -> CompiledInstructionView {
        CompiledInstructionView {
            program_id_index: self.program_id_index,
            accounts: self.accounts@,
            data: self.data@,
        }
    }
}

impl View for Message {
    type V = MessageView;

    open spec fn view(&self) -> MessageView {
        MessageView {
            header: self.header,
            account_keys: self.account_keys@,
            instructions: Seq::new(
                self.instructions@.len(),
                |i: int| self.instructions@[i]@,
            ),
        }
    }
}

/// The message that `Message::new` compiles `instructions` into for `payer`.
pub uninterp spec fn compiled_message(
    instructions: Seq<InstructionView>,
    payer: Address,
) -> MessageView;

/// Calls `Message::new` on `instructions` and `payer` and hands its fields out.
/// The result is named: it depends on nothing but the two arguments. The call
/// panics where the header cannot count the accounts, which is left out.
#[verifier::external_body]
fn new_message(instructions: Vec<Instruction>, payer: Address) -> (message: Message)
    requires
        message_fits(views(instructions@), payer),
    ensures
        message@ == compiled_message(views(instructions@), payer),
{
    let all: Vec<SolanaInstruction> = instructions.into_iter().map(|ix| SolanaInstruction {
        program_id: ix.program_id.into(),
        accounts: ix.accounts.iter().map(|meta| SolanaMeta {
            pubkey: meta.pubkey.into(), is_signer: meta.is_signer, is_writable: meta.is_writable
        }).collect(),
        data: ix.data
    }).collect();
    let made = SolanaMessage::new(&all, Some(&payer.into()));
    Message {
        header: [made.header.num_required_signatures, made.header.num_readonly_signed_accounts,
            made.header.num_readonly_unsigned_accounts],
        account_keys: made.account_keys.iter().map(|key| key.to_bytes()).collect(),
        instructions: made.instructions.into_iter().map(|ix| CompiledInstruction {
            program_id_index: ix.program_id_index, accounts: ix.accounts, data: ix.data }).collect()
    }
}

/// Every address that the instructions name, possibly several times.
fn mentioned_keys(instructions: &Vec<Instruction>) -> (keys: Vec<Address>)
    ensures
        forall|key: Address| #[trigger]
            keys@.contains(key) <==> mentions(views(instructions@), key),
{
    let ghost all = views(instructions@);
    let mut keys: Vec<Address> = Vec::new();
    let mut i: usize = 0;
    while i < instructions.len()
        invariant
            i <= instructions@.len(),
            all == views(instructions@),
            forall|key: Address| #[trigger]
                keys@.contains(key) <==> mentions(all.take(i as int), key),
        decreases instructions@.len() - i,
    {
        let ghost before = keys@;
        let ghost current = all[i as int];
        let instruction = &instructions[i];
        keys.push(instruction.program_id);
        proof {
            lemma_push_contains(before, current.program_id);
        }
        let mut j: usize = 0;
        while j < instruction.accounts.len()
            invariant
                j <= instruction.accounts@.len(),
                instruction@ == current,
                forall|key: Address| #[trigger]
                    keys@.contains(key) <==> (before.contains(key) || current.program_id == key
                        || exists|k: int|
                        0 <= k < j && (#[trigger] current.accounts[k]).pubkey == key),
            decreases instruction.accounts@.len() - j,
        {
            let ghost so_far = keys@;
            keys.push(instruction.accounts[j].pubkey);
            proof {
                lemma_push_contains(so_far, current.accounts[j as int].pubkey);
            }
            j = j + 1;
        }
        assert forall|key: Address| #[trigger] keys@.contains(key) <==> mentions(
            all.take(i + 1),
            key,
        ) by {
            if mentions(all.take(i as int), key) {
                let k = choose|k: int|
                    0 <= k < i && #[trigger] mentioned_by(all.take(i as int)[k], key);
                assert(mentioned_by(all.take(i + 1)[k], key));
            }
            if mentioned_by(current, key) {
                assert(mentioned_by(all.take(i + 1)[i as int], key));
            }
            if mentions(all.take(i + 1), key) {
                let k = choose|k: int|
                    0 <= k < i + 1 && #[trigger] mentioned_by(all.take(i + 1)[k], key);
                if k < i {
                    assert(mentioned_by(all.take(i as int)[k], key));
                }
            }
            assert(before.contains(key) <==> mentions(all.take(i as int), key));
        }
        i = i + 1;
    }
    assert(all.take(i as int) =~= all);
    keys
}

proof fn lemma_push_contains(list: Seq<Address>, key: Address)
    ensures
        forall|other: Address| #[trigger]
            list.push(key).contains(other) <==> (list.contains(other) || key == other),
{
    assert forall|other: Address| #[trigger] list.push(key).contains(other) <==> (list.contains(
        other,
    ) || key == other) by {
        if list.contains(other) {
            let k = choose|k: int| 0 <= k < list.len() && list[k] == other;
            assert(list.push(key)[k] == other);
        }
        assert(list.push(key)[list.len() as int] == key);
    }
}

fn has_to_sign(instructions: &Vec<Instruction>, payer: Address, key: Address) -> (yes: bool)
    ensures
        yes == signs(views(instructions@), payer, key),
{
    if same_bytes(&key, &payer) {
        return true;
    }
    let ghost all = views(instructions@);
    let mut i: usize = 0;
    while i < instructions.len()
        invariant
            i <= instructions@.len(),
            all == views(instructions@),
            forall|k: int| 0 <= k < i ==> !signed_by(#[trigger] all[k], key),
        decreases instructions@.len() - i,
    {
        let instruction = &instructions[i];
        let mut j: usize = 0;
        while j < instruction.accounts.len()
            invariant
                i < instructions@.len(),
                j <= instruction.accounts@.len(),
                all == views(instructions@),
                instruction@ == all[i as int],
                forall|k: int|
                    0 <= k < j ==> !((#[trigger] all[i as int].accounts[k]).pubkey == key
                        && all[i as int].accounts[k].is_signer),
            decreases instruction.accounts@.len() - j,
        {
            let meta = instruction.accounts[j];
            if meta.is_signer && same_bytes(&meta.pubkey, &key) {
                assert(all[i as int].accounts[j as int].pubkey == key);
                assert(signed_by(all[i as int], key));
                return true;
            }
            j = j + 1;
        }
        i = i + 1;
    }
    false
}

fn may_be_written(instructions: &Vec<Instruction>, payer: Address, key: Address) -> (yes: bool)
    ensures
        yes == writes(views(instructions@), payer, key),
{
    if same_bytes(&key, &payer) {
        return true;
    }
    let ghost all = views(instructions@);
    let mut i: usize = 0;
    while i < instructions.len()
        invariant
            i <= instructions@.len(),
            all == views(instructions@),
            forall|k: int| 0 <= k < i ==> !written_by(#[trigger] all[k], key),
        decreases instructions@.len() - i,
    {
        let instruction = &instructions[i];
        let mut j: usize = 0;
        while j < instruction.accounts.len()
            invariant
                i < instructions@.len(),
                j <= instruction.accounts@.len(),
                all == views(instructions@),
                instruction@ == all[i as int],
                forall|k: int|
                    0 <= k < j ==> !((#[trigger] all[i as int].accounts[k]).pubkey == key
                        && all[i as int].accounts[k].is_writable),
            decreases instruction.accounts@.len() - j,
        {
            let meta = instruction.accounts[j];
            if meta.is_writable && same_bytes(&meta.pubkey, &key) {
                assert(all[i as int].accounts[j as int].pubkey == key);
                assert(written_by(all[i as int], key));
                return true;
            }
            j = j + 1;
        }
        i = i + 1;
    }
    false
}

/// Adds `key` to a list without repetitions.
fn note(list: &mut Vec<Address>, key: Address)
    requires
        old(list)@.no_duplicates(),
    ensures
        final(list)@.no_duplicates(),
        forall|other: Address| #[trigger]
            final(list)@.contains(other) <==> (old(list)@.contains(other) || other == key),
{
    let mut i: usize = 0;
    while i < list.len()
        invariant
            i <= list@.len(),
            list@ == old(list)@,
            list@.no_duplicates(),
            forall|k: int| 0 <= k < i ==> list@[k] != key,
        decreases list@.len() - i,
    {
        if same_bytes(&list[i], &key) {
            assert(list@[i as int] == key);
            return;
        }
        i = i + 1;
    }
    list.push(key);
    proof {
        lemma_push_contains(old(list)@, key);
    }
}

/// Whether a message of these instructions can be compiled.
pub fn can_compile(instructions: &Vec<Instruction>, payer: Address) -> (fits: bool)
    ensures
        fits == message_fits(views(instructions@), payer),
{
    let ghost all = views(instructions@);
    let keys = mentioned_keys(instructions);
    let mut signing: Vec<Address> = Vec::new();
    signing.push(payer);
    let mut reading: Vec<Address> = Vec::new();
    let mut i: usize = 0;
    assert(signing@[0] == payer);
    while i < keys.len()
        invariant
            i <= keys@.len(),
            all == views(instructions@),
            signing@.no_duplicates(),
            reading@.no_duplicates(),
            forall|key: Address| #[trigger]
                signing@.contains(key) <==> (key == payer || keys@.take(i as int).contains(key)
                    && signs(all, payer, key)),
            forall|key: Address| #[trigger]
                reading@.contains(key) <==> (keys@.take(i as int).contains(key) && !signs(
                    all,
                    payer,
                    key,
                ) && !writes(all, payer, key)),
        decreases keys@.len() - i,
    {
        let key = keys[i];
        proof {
            lemma_push_contains(keys@.take(i as int), key);
            assert(keys@.take(i + 1) =~= keys@.take(i as int).push(key));
        }
        if has_to_sign(instructions, payer, key) {
            note(&mut signing, key);
        } else if !may_be_written(instructions, payer, key) {
            note(&mut reading, key);
        }
        i = i + 1;
    }
    proof {
        assert(keys@.take(i as int) =~= keys@);
        assert forall|key: Address| signs(all, payer, key) && key != payer implies mentions(
            all,
            key,
        ) by {
            let k = choose|k: int| 0 <= k < all.len() && #[trigger] signed_by(all[k], key);
            assert(mentioned_by(all[k], key));
        }
        assert(signing@.to_set() =~= signers(all, payer));
        assert(reading@.to_set() =~= onlookers(all, payer));
        signing@.unique_seq_to_set();
        reading@.unique_seq_to_set();
    }
    signing.len() <= 255 && reading.len() <= 255
}

/// Compiles the message of a reset transaction: the instructions behind their
/// compute budget. There is none where the accounts are too many to count.
pub fn fire_message(
    instructions: &[Instruction],
    payer: Address,
    priority_fee: u64,
    cu_limit: u32,
) -> (message: Option<Message>)
    ensures
        ({
            let all = budgeted(views(instructions@), priority_fee, cu_limit);
            match message {
                Some(message) => message_fits(all, payer) && message@ == compiled_message(
                    all,
                    payer,
                ),
                None => !message_fits(all, payer),
            }
        }),
{
    let all = with_compute_budget(instructions, priority_fee, cu_limit);
    if can_compile(&all, payer) {
        Some(new_message(all, payer))
    } else {
        None
    }
}

/// Why a transaction could not be fired.
pub fn fire_failed_text(error: &str) -> (text: String)
    ensures
        text@ == "send failed: "@ + error@,
{
    let mut text = String::from_str("send failed: ");
    text.append(error);
    text
}

/// The compute units that a batch of `len` instructions is given.
pub open spec fn batch_units(cu_per_ix: u32, len: nat) -> nat {
    let wanted = cu_per_ix * len + BATCH_CU_HEADROOM;
    if wanted < MAX_CU_PER_TX {
        wanted as nat
    } else {
        MAX_CU_PER_TX as nat
    }
}

/// Sizes the compute-unit limit of a batch of `len` instructions.
pub fn batch_cu_limit(cu_per_ix: u32, len: usize) -> (units: u32)
    ensures
        units == batch_units(cu_per_ix, len as nat),
        units <= 1_400_000,
        units < 1_400_000 ==> units == cu_per_ix * len + 10_000,
        units == 1_400_000 ==> cu_per_ix * len + 10_000 >= 1_400_000,
{
    assert(0 <= cu_per_ix * len <= u32::MAX * usize::MAX) by (nonlinear_arith)
        requires
            0 <= cu_per_ix <= u32::MAX,
            0 <= len <= usize::MAX,
    ;
    let wanted: u128 = cu_per_ix as u128 * len as u128 + BATCH_CU_HEADROOM as u128;
    if wanted < MAX_CU_PER_TX as u128 {
        wanted as u32
    } else {
        MAX_CU_PER_TX
    }
}

/// Compiles the message of one batch: its instructions behind a compute
/// budget that grows with them. There is none where the accounts are too many
/// to count.
pub fn batch_message(
    instructions: &[Instruction],
    payer: Address,
    priority_fee: u64,
    cu_per_ix: u32,
) -> (message: Option<Message>)
    ensures
        ({
            let units = batch_units(cu_per_ix, instructions@.len());
            let all = budgeted(views(instructions@), priority_fee, units as u32);
            match message {
                Some(message) => message_fits(all, payer) && message@ == compiled_message(
                    all,
                    payer,
                ),
                None => !message_fits(all, payer),
            }
        }),
{
    let cu_limit = batch_cu_limit(cu_per_ix, instructions.len());
    fire_message(instructions, payer, priority_fee, cu_limit)
}

} // verus!
