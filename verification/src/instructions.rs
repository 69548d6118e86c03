//! The instructions of a reset: sample, reveal, reset, in one transaction.
use crate::chain::{views, AccountMeta, Address, Instruction, InstructionView};
use crate::reset::ResetPlan;
use crate::tx::{compiled_message, fire_message, message_fits, unit_limit, unit_price, Message};
use vstd::prelude::*;

verus! {

/// The entropy program.
pub const ENTROPY_ID: Address = [
    40, 150, 226, 17, 201, 107, 37, 53, 135, 49, 103, 71, 127, 211, 18, 146, 241, 245, 190, 168,
    198, 182, 143, 66, 85, 143, 182, 122, 40, 136, 225, 80,
];

/// The sysvar that holds the recent slot hashes.
pub const SLOT_HASHES_ID: Address = [
    6, 167, 213, 23, 25, 47, 10, 175, 198, 242, 101, 227, 251, 119, 204, 122, 218, 130, 197, 41,
    208, 190, 59, 19, 110, 45, 0, 85, 32, 0, 0, 0,
];

/// The instruction that samples the slot hash of `var`.
pub open spec fn sample_instruction(signer: Address, var: Address) -> InstructionView {
    InstructionView {
        program_id: ENTROPY_ID,
        accounts: seq![
            AccountMeta { pubkey: signer, is_signer: true, is_writable: true },
            AccountMeta { pubkey: var, is_signer: false, is_writable: true },
            AccountMeta { pubkey: SLOT_HASHES_ID, is_signer: false, is_writable: false },
        ],
        data: seq![5u8],
    }
}

/// The instruction that reveals the seed of `var`.
pub open spec fn reveal_instruction(
    signer: Address,
    var: Address,
    seed: [u8; 32],
) -> InstructionView {
    InstructionView {
        program_id: ENTROPY_ID,
        accounts: seq![
            AccountMeta { pubkey: signer, is_signer: true, is_writable: true },
            AccountMeta { pubkey: var, is_signer: false, is_writable: true },
        ],
        data: seq![4u8] + seed@,
    }
}

/// Calls `entropy_api::sdk::sample`, whose data is the tag 5 alone. Its
/// accounts are the signer, which pays, the variable, which is written, and
/// the sysvar of the slot hashes, which is read.
#[verifier::external_body]
fn sample(signer: Address, var: Address) -> (instruction: Instruction)
    ensures
        instruction@ == sample_instruction(signer, var),
{
    let made = entropy_api::sdk::sample(signer.into(), var.into());
    Instruction {
        program_id: made.program_id.to_bytes(),
        accounts: made.accounts.iter().map(|meta| AccountMeta {
            pubkey: meta.pubkey.to_bytes(),
            is_signer: meta.is_signer,
            is_writable: meta.is_writable,
        }).collect(),
        data: made.data,
    }
}

/// Calls `entropy_api::sdk::reveal`, whose data is the tag 4 and then the
/// seed. Its accounts are the signer, which pays, and the variable, which is
/// written.
#[verifier::external_body]
fn reveal_seed(signer: Address, var: Address, seed: [u8; 32]) -> (instruction: Instruction)
    ensures
        instruction@ == reveal_instruction(signer, var, seed),
{
    let made = entropy_api::sdk::reveal(signer.into(), var.into(), seed);
    Instruction {
        program_id: made.program_id.to_bytes(),
        accounts: made.accounts.iter().map(|meta| AccountMeta {
            pubkey: meta.pubkey.to_bytes(),
            is_signer: meta.is_signer,
            is_writable: meta.is_writable,
        }).collect(),
        data: made.data,
    }
}

/// The three instructions of a reset, in order: the slot hash is sampled, the
/// seed revealed, and then the board reset by `reset`.
pub fn reset_instructions(payer: Address, plan: &ResetPlan, reset: Instruction) -> (all: Vec<
    Instruction,
>)
    ensures
        views(all@) == seq![
            sample_instruction(payer, plan.var_address),
            reveal_instruction(payer, plan.var_address, plan.seed),
            reset@,
        ],
{
    let mut all: Vec<Instruction> = Vec::new();
    all.push(sample(payer, plan.var_address));
    all.push(reveal_seed(payer, plan.var_address, plan.seed));
    all.push(reset);
    assert(views(all@) =~= seq![
        sample_instruction(payer, plan.var_address),
        reveal_instruction(payer, plan.var_address, plan.seed),
        reset@,
    ]);
    all
}

/// The instructions of a reset transaction: its compute budget, and then the
/// three of the reset.
pub open spec fn reset_transaction(
    payer: Address,
    plan: ResetPlan,
    reset: InstructionView,
    priority_fee: u64,
    cu_limit: u32,
) -> Seq<InstructionView> {
    seq![
        unit_limit(cu_limit),
        unit_price(priority_fee),
        sample_instruction(payer, plan.var_address),
        reveal_instruction(payer, plan.var_address, plan.seed),
        reset,
    ]
}

/// Compiles the one message that holds a whole reset. There is none where the
/// accounts are too many to count.
pub fn reset_message(
    payer: Address,
    plan: &ResetPlan,
    reset: Instruction,
    priority_fee: u64,
    cu_limit: u32,
) -> (message: Option<Message>)
    ensures
        ({
            let all = reset_transaction(payer, *plan, reset@, priority_fee, cu_limit);
            match message {
                Some(message) => message_fits(all, payer) && message@ == compiled_message(
                    all,
                    payer,
                ),
                None => !message_fits(all, payer),
            }
        }),
{
    let ghost wanted = reset_transaction(payer, *plan, reset@, priority_fee, cu_limit);
    let instructions = reset_instructions(payer, plan, reset);
    assert(crate::tx::budgeted(views(instructions@), priority_fee, cu_limit) =~= wanted);
    fire_message(&instructions, payer, priority_fee, cu_limit)
}

} // verus!
