use godl_crank::chain::{AccountMeta, Instruction};
use godl_crank::instructions::{reset_instructions, reset_message, ENTROPY_ID, SLOT_HASHES_ID};
use godl_crank::reset::ResetPlan;
use godl_crank::tx::{
    batch_cu_limit, batch_message, can_compile, fire_failed_text, fire_message,
    with_compute_budget,
    COMPUTE_BUDGET_ID, MAX_CU_PER_TX,
};

fn transfer(tag: u8) -> Instruction {
    Instruction {
        program_id: [200; 32],
        accounts: vec![
            AccountMeta { pubkey: [1; 32], is_signer: true, is_writable: true },
            AccountMeta { pubkey: [tag; 32], is_signer: false, is_writable: true },
            AccountMeta { pubkey: [90; 32], is_signer: false, is_writable: false },
        ],
        data: vec![tag, 7],
    }
}

/// An instruction that only names accounts, each once.
fn crowd(from: u16, to: u16, is_signer: bool) -> Instruction {
    let mut accounts = Vec::new();
    for n in from..to {
        let mut pubkey = [77; 32];
        pubkey[0] = (n % 256) as u8;
        pubkey[1] = (n / 256) as u8;
        accounts.push(AccountMeta { pubkey, is_signer, is_writable: false });
    }
    Instruction { program_id: [200; 32], accounts, data: vec![] }
}

fn plan() -> ResetPlan {
    ResetPlan {
        round_id: 12,
        var_address: [2; 32],
        fee_collector: [3; 32],
        seed: [4; 32],
        top_miner: [5; 32],
        blockhash: [6; 32],
    }
}

#[test]
fn program_ids_are_those_of_the_programs() {
    assert_eq!(COMPUTE_BUDGET_ID, solana_sdk::compute_budget::id().to_bytes());
    assert_eq!(ENTROPY_ID, entropy_api::ID.to_bytes());
    assert_eq!(SLOT_HASHES_ID, solana_sdk::sysvar::slot_hashes::ID.to_bytes());
}

#[test]
fn compute_budget_comes_first() {
    let all = with_compute_budget(&[transfer(9)], 10_000, 257);
    assert_eq!(all.len(), 3);
    assert_eq!(
        all[0],
        Instruction {
            program_id: COMPUTE_BUDGET_ID,
            accounts: vec![],
            data: vec![2, 1, 1, 0, 0],
        }
    );
    assert_eq!(
        all[1],
        Instruction {
            program_id: COMPUTE_BUDGET_ID,
            accounts: vec![],
            data: vec![3, 16, 39, 0, 0, 0, 0, 0, 0],
        }
    );
    assert_eq!(all[2], transfer(9));
}

#[test]
fn compute_budget_of_nothing() {
    assert_eq!(with_compute_budget(&[], 1, 1).len(), 2);
}

#[test]
fn fired_message_is_the_compiled_one() {
    let message = fire_message(&[transfer(9), transfer(8)], [1; 32], 10_000, 350_000).unwrap();
    let mut all = vec![
        solana_sdk::compute_budget::ComputeBudgetInstruction::set_compute_unit_limit(350_000),
        solana_sdk::compute_budget::ComputeBudgetInstruction::set_compute_unit_price(10_000),
    ];
    for tag in [9, 8] {
        all.push(solana_sdk::instruction::Instruction {
            program_id: [200; 32].into(),
            accounts: vec![
                solana_sdk::instruction::AccountMeta::new([1; 32].into(), true),
                solana_sdk::instruction::AccountMeta::new([tag; 32].into(), false),
                solana_sdk::instruction::AccountMeta::new_readonly([90; 32].into(), false),
            ],
            data: vec![tag, 7],
        });
    }
    let wanted = solana_sdk::message::Message::new(&all, Some(&[1; 32].into()));
    assert_eq!(
        message.header,
        [
            wanted.header.num_required_signatures,
            wanted.header.num_readonly_signed_accounts,
            wanted.header.num_readonly_unsigned_accounts,
        ]
    );
    assert_eq!(message.header, [1, 0, 3]);
    let keys: Vec<[u8; 32]> = wanted.account_keys.iter().map(|key| key.to_bytes()).collect();
    assert_eq!(message.account_keys, keys);
    assert_eq!(message.account_keys[0], [1; 32]);
    assert_eq!(message.instructions.len(), 4);
    for i in 0..4 {
        assert_eq!(
            message.instructions[i].program_id_index,
            wanted.instructions[i].program_id_index
        );
        assert_eq!(message.instructions[i].accounts, wanted.instructions[i].accounts);
        assert_eq!(message.instructions[i].data, wanted.instructions[i].data);
    }
}

#[test]
fn messages_with_too_many_accounts_are_refused() {
    // The compute budget and the program itself are read too.
    assert!(fire_message(&[crowd(0, 253, false)], [1; 32], 1, 1).is_some());
    assert!(fire_message(&[crowd(0, 254, false)], [1; 32], 1, 1).is_none());
    // The payer signs too.
    assert!(fire_message(&[crowd(0, 254, true)], [1; 32], 1, 1).is_some());
    assert!(fire_message(&[crowd(0, 255, true)], [1; 32], 1, 1).is_none());
    // Naming the same accounts again costs nothing.
    assert!(can_compile(&vec![crowd(0, 200, false), crowd(0, 200, false)], [1; 32]));
    assert!(!can_compile(&vec![crowd(0, 200, false), crowd(200, 300, false)], [1; 32]));
}

#[test]
fn batch_units_grow_up_to_the_cap() {
    assert_eq!(batch_cu_limit(60_000, 6), 370_000);
    assert_eq!(batch_cu_limit(40_000, 1), 50_000);
    assert_eq!(batch_cu_limit(40_000, 0), 10_000);
    assert_eq!(batch_cu_limit(60_000, 23), 1_390_000);
    assert_eq!(batch_cu_limit(60_000, 24), MAX_CU_PER_TX);
    assert_eq!(batch_cu_limit(u32::MAX, usize::MAX), MAX_CU_PER_TX);
}

#[test]
fn batch_message_is_sized_by_its_instructions() {
    let message = batch_message(&[transfer(9), transfer(8)], [1; 32], 5, 60_000).unwrap();
    // 130_000 compute units.
    assert_eq!(message.instructions[0].data, vec![2, 208, 251, 1, 0]);
    assert_eq!(message.instructions[1].data, vec![3, 5, 0, 0, 0, 0, 0, 0, 0]);
    assert_eq!(message.instructions[3].data, vec![8, 7]);
}

#[test]
fn reset_holds_sample_reveal_reset() {
    let all = reset_instructions([1; 32], &plan(), transfer(9));
    assert_eq!(all.len(), 3);
    assert_eq!(
        all[0],
        Instruction {
            program_id: ENTROPY_ID,
            accounts: vec![
                AccountMeta { pubkey: [1; 32], is_signer: true, is_writable: true },
                AccountMeta { pubkey: [2; 32], is_signer: false, is_writable: true },
                AccountMeta { pubkey: SLOT_HASHES_ID, is_signer: false, is_writable: false },
            ],
            data: vec![5],
        }
    );
    let mut data = vec![4];
    data.extend([4; 32]);
    assert_eq!(
        all[1],
        Instruction {
            program_id: ENTROPY_ID,
            accounts: vec![
                AccountMeta { pubkey: [1; 32], is_signer: true, is_writable: true },
                AccountMeta { pubkey: [2; 32], is_signer: false, is_writable: true },
            ],
            data,
        }
    );
    assert_eq!(all[2], transfer(9));
}

#[test]
fn reset_message_is_one_transaction() {
    let message = reset_message([1; 32], &plan(), transfer(9), 10_000, 350_000).unwrap();
    let same = fire_message(
        &reset_instructions([1; 32], &plan(), transfer(9)),
        [1; 32],
        10_000,
        350_000,
    );
    assert_eq!(Some(&message), same.as_ref());
    assert_eq!(message.instructions.len(), 5);
    assert_eq!(message.header[0], 1);
    assert!(reset_message([1; 32], &plan(), crowd(0, 300, false), 1, 1).is_none());
}

#[test]
fn failed_fire_is_explained() {
    assert_eq!(fire_failed_text("timed out"), "send failed: timed out");
}

#[test]
fn duplicate_says_the_same() {
    assert_eq!(transfer(3).duplicate(), transfer(3));
}
