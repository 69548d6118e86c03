use godl_crank::chain::{Miner, Round, Var};
use godl_crank::selection::{draw_rng, NoWinner, TopMiner};
use godl_crank::top_miner::{search_top_miner, SelectAction, SelectError, TopMinerSearch};

fn round() -> Round {
    Round { id: 4, expires_at: 0, rent_payer: [0; 32], deployed: vec![0, 10] }
}

fn var(slot_hash: [u8; 32]) -> Var {
    Var { slot_hash, samples: 3, end_at: 500 }
}

fn miner(tag: u8, cumulative: u64, deployed: u64) -> Miner {
    Miner {
        authority: [tag; 32],
        round_id: 4,
        checkpoint_id: 0,
        deployed: vec![0, deployed],
        cumulative: vec![0, cumulative],
    }
}

fn search() -> TopMinerSearch {
    search_top_miner(round(), var([7; 32]), [2; 32])
}

#[test]
fn carried_slot_hash_goes_straight_to_the_draw() {
    let rng = draw_rng(&var([7; 32]), &[], [2; 32]).unwrap();
    assert_eq!(search().action(), SelectAction::Draw { rng });
}

#[test]
fn missing_slot_hash_is_read_from_the_sysvar() {
    let mut sysvar = vec![1, 0, 0, 0, 0, 0, 0, 0];
    sysvar.extend(500u64.to_le_bytes());
    sysvar.extend([7; 32]);
    let search = search_top_miner(round(), var([0; 32]), [2; 32]);
    assert_eq!(search.action(), SelectAction::ReadSlotHashes);
    // The same hash, whether it was carried or looked up.
    let rng = draw_rng(&var([7; 32]), &[], [2; 32]).unwrap();
    assert_eq!(search.on_slot_hashes(Some(&sysvar)).action(), SelectAction::Draw { rng });
}

#[test]
fn slot_hashes_can_fail() {
    let failed = search_top_miner(round(), var([0; 32]), [2; 32]).on_slot_hashes(None);
    assert_eq!(failed.action(), SelectAction::Done(Err(SelectError::NoSlotHashes)));
    let failed = search_top_miner(round(), var([0; 32]), [2; 32]).on_slot_hashes(Some(&[1; 9]));
    assert_eq!(failed.action(), SelectAction::Done(Err(SelectError::MalformedSlotHashes)));
}

#[test]
fn uncontested_squares_name_nobody() {
    assert_eq!(search().on_draw(0, false).action(), SelectAction::Done(Ok(None)));
    assert_eq!(search().on_draw(1, true).action(), SelectAction::Done(Ok(None)));
}

#[test]
fn contested_square_names_its_winner() {
    let rng = draw_rng(&var([7; 32]), &[], [2; 32]).unwrap();
    let drawn = search().on_draw(1, false);
    assert_eq!(drawn.action(), SelectAction::Sample { rng, winning_square: 1 });
    let sampled = drawn.on_sample(6);
    assert_eq!(sampled.action(), SelectAction::ReadMiners { round_id: 4 });
    let done = sampled.on_miners(Some(&[miner(1, 0, 5), miner(2, 5, 5)]));
    assert_eq!(
        done.action(),
        SelectAction::Done(Ok(Some(TopMiner {
            authority: [2; 32],
            winning_square: 1,
            sample: 6,
        })))
    );
}

#[test]
fn contested_square_without_winner_fails() {
    let done = search().on_draw(1, false).on_sample(6).on_miners(Some(&[miner(1, 0, 5)]));
    assert_eq!(
        done.action(),
        SelectAction::Done(Err(SelectError::NoWinner(NoWinner {
            winning_square: 1,
            deployed: 10,
            sample: 6,
        })))
    );
    let done = search().on_draw(1, false).on_sample(6).on_miners(None);
    assert_eq!(done.action(), SelectAction::Done(Err(SelectError::NoMiners)));
}

#[test]
fn unasked_answers_do_nothing() {
    let rng = draw_rng(&var([7; 32]), &[], [2; 32]).unwrap();
    let search = search().on_slot_hashes(None).on_sample(3).on_miners(None);
    assert_eq!(search.action(), SelectAction::Draw { rng });
}
