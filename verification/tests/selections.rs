use godl_crank::chain::{Miner, Round, Var};
use godl_crank::selection::{
    derive_round_rng, derive_var_value, draw_rng, needs_slot_hashes, needs_top_miner,
    resolve_slot_hash, select_top_miner, MalformedSlotHashes, NoWinner, TopMiner,
};

fn var(slot_hash: [u8; 32]) -> Var {
    Var { slot_hash, samples: 3, end_at: 500 }
}

fn sysvar(entries: &[(u64, [u8; 32])]) -> Vec<u8> {
    let mut bytes = (entries.len() as u64).to_le_bytes().to_vec();
    for (slot, hash) in entries {
        bytes.extend(slot.to_le_bytes());
        bytes.extend(hash);
    }
    bytes
}

fn round(deployed: Vec<u64>) -> Round {
    Round { id: 4, expires_at: 0, rent_payer: [0; 32], deployed }
}

fn miner(tag: u8, round_id: u64, cumulative: u64, deployed: u64) -> Miner {
    Miner {
        authority: [tag; 32],
        round_id,
        checkpoint_id: 0,
        deployed: vec![0, deployed],
        cumulative: vec![0, cumulative],
    }
}

#[test]
fn carried_slot_hash_is_used_as_it_is() {
    assert!(!needs_slot_hashes(&var([7; 32])));
    assert_eq!(resolve_slot_hash(&var([7; 32]), &[]), Ok([7; 32]));
}

#[test]
fn slot_hash_is_looked_up_in_the_sysvar() {
    let data = sysvar(&[(501, [1; 32]), (500, [2; 32]), (499, [3; 32])]);
    assert!(needs_slot_hashes(&var([0; 32])));
    assert_eq!(resolve_slot_hash(&var([0; 32]), &data), Ok([2; 32]));
}

#[test]
fn first_entry_of_a_slot_counts() {
    let data = sysvar(&[(500, [2; 32]), (500, [3; 32])]);
    assert_eq!(resolve_slot_hash(&var([0; 32]), &data), Ok([2; 32]));
}

#[test]
fn aged_out_slot_is_hashed_itself() {
    let wanted = solana_program::keccak::hash(&500u64.to_le_bytes()).to_bytes();
    let data = sysvar(&[(501, [1; 32])]);
    assert_eq!(resolve_slot_hash(&var([0; 32]), &data), Ok(wanted));
    assert_eq!(resolve_slot_hash(&var([0; 32]), &sysvar(&[])), Ok(wanted));
}

#[test]
fn slot_hashes_may_be_followed_by_other_bytes() {
    let mut data = sysvar(&[(500, [2; 32])]);
    data.extend([0; 40]);
    assert_eq!(resolve_slot_hash(&var([0; 32]), &data), Ok([2; 32]));
}

#[test]
fn short_slot_hashes_are_malformed() {
    let data = sysvar(&[(500, [2; 32])]);
    assert_eq!(
        resolve_slot_hash(&var([0; 32]), &data[..data.len() - 1]),
        Err(MalformedSlotHashes)
    );
    assert_eq!(resolve_slot_hash(&var([0; 32]), &[0; 7]), Err(MalformedSlotHashes));
    assert_eq!(resolve_slot_hash(&var([0; 32]), &[]), Err(MalformedSlotHashes));
}

#[test]
fn var_value_hashes_the_three_parts() {
    let mut joined = vec![1; 32];
    joined.extend([2; 32]);
    joined.extend([3, 0, 0, 0, 0, 0, 0, 0]);
    let wanted = solana_program::keccak::hash(&joined).to_bytes();
    assert_eq!(derive_var_value([1; 32], [2; 32], 3), wanted);
    assert_eq!(draw_rng(&var([1; 32]), &[], [2; 32]), Ok(derive_round_rng(wanted)));
    let data = sysvar(&[(500, [1; 32])]);
    assert_eq!(draw_rng(&var([0; 32]), &data, [2; 32]), Ok(derive_round_rng(wanted)));
    assert_eq!(draw_rng(&var([0; 32]), &[], [2; 32]), Err(MalformedSlotHashes));
}

#[test]
fn round_rng_xors_four_words() {
    let mut value = [0; 32];
    value[0] = 0b0011;
    value[8] = 0b0101;
    value[17] = 1;
    value[31] = 128;
    assert_eq!(derive_round_rng(value), 0b0110 + 256 + (128 << 56));
    assert_eq!(derive_round_rng([255; 32]), 0);
}

#[test]
fn empty_square_needs_no_top_miner() {
    let round = round(vec![5, 0]);
    assert!(!needs_top_miner(&round, 1, false));
    assert_eq!(select_top_miner(&round, 1, false, 3, &[]), Ok(None));
}

#[test]
fn split_reward_needs_no_top_miner() {
    let round = round(vec![0, 10]);
    assert!(!needs_top_miner(&round, 1, true));
    assert_eq!(select_top_miner(&round, 1, true, 3, &[miner(1, 4, 0, 10)]), Ok(None));
}

#[test]
fn top_miner_covers_the_sample() {
    let round = round(vec![0, 10]);
    let miners = [miner(1, 4, 0, 4), miner(2, 4, 4, 6)];
    for (sample, tag) in [(0, 1), (3, 1), (4, 2), (9, 2)] {
        assert_eq!(
            select_top_miner(&round, 1, false, sample, &miners),
            Ok(Some(TopMiner { authority: [tag; 32], winning_square: 1, sample }))
        );
    }
}

#[test]
fn order_of_disjoint_miners_does_not_matter() {
    let round = round(vec![0, 10]);
    let there = [miner(1, 4, 0, 4), miner(2, 4, 4, 6)];
    let back = [miner(2, 4, 4, 6), miner(1, 4, 0, 4)];
    for sample in 0..10 {
        assert_eq!(
            select_top_miner(&round, 1, false, sample, &there),
            select_top_miner(&round, 1, false, sample, &back)
        );
    }
}

#[test]
fn miner_without_deploys_inside_a_range_does_not_matter() {
    let round = round(vec![0, 10]);
    let winner = Ok(Some(TopMiner { authority: [2; 32], winning_square: 1, sample: 5 }));
    let there = [miner(1, 4, 5, 0), miner(2, 4, 0, 10)];
    let back = [miner(2, 4, 0, 10), miner(1, 4, 5, 0)];
    assert_eq!(select_top_miner(&round, 1, false, 5, &there), winner);
    assert_eq!(select_top_miner(&round, 1, false, 5, &back), winner);
}

#[test]
fn miners_of_other_rounds_and_overflowing_ranges_are_skipped() {
    let round = round(vec![0, 10]);
    let miners = [
        miner(1, 3, 0, 10),
        miner(2, 4, 0, 0),
        miner(3, 4, u64::MAX, 1),
        miner(4, 4, 0, 10),
    ];
    assert_eq!(
        select_top_miner(&round, 1, false, 5, &miners),
        Ok(Some(TopMiner { authority: [4; 32], winning_square: 1, sample: 5 }))
    );
}

#[test]
fn missing_winner_is_an_error() {
    let round = round(vec![0, 10]);
    let missing = select_top_miner(&round, 1, false, 10, &[miner(1, 4, 0, 10)]).unwrap_err();
    assert_eq!(missing, NoWinner { winning_square: 1, deployed: 10, sample: 10 });
    assert_eq!(
        missing.message(),
        "winning square 1 has 10 lamports deployed but no miner range contained sample 10"
    );
}
