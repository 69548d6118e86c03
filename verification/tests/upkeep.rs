use godl_crank::batch::BatchOutcome;
use godl_crank::chain::{Miner, Round};
use godl_crank::maintenance::{
    checkpoint_eligible, checkpoint_line, checkpoint_scan_line, checkpoint_warning,
    close_eligible, close_line, close_scan_line, close_warning, Checkpoint, CHECKPOINT_CU_PER_IX, CLOSE_CU_PER_IX, INITIAL_BATCH_SIZE,
};
use godl_crank::text::Line;

const WINDOW: u64 = 100;

fn miner(tag: u8, round_id: u64, checkpoint_id: u64) -> Miner {
    Miner { authority: [tag; 32], round_id, checkpoint_id, deployed: vec![], cumulative: vec![] }
}

fn round(id: u64, expires_at: u64, tag: u8) -> Round {
    Round { id, expires_at, rent_payer: [tag; 32], deployed: vec![] }
}

fn info(text: &str) -> Line {
    Line { warning: false, text: String::from(text) }
}

fn warning(text: &str) -> Line {
    Line { warning: true, text: String::from(text) }
}

fn checkpoint(tag: u8, round_id: u64) -> Checkpoint {
    Checkpoint { authority: [tag; 32], round_id }
}

#[test]
fn checkpoints_wait_for_the_fee_window() {
    let rounds = [round(5, 1_000, 1)];
    let miners = [miner(1, 5, 4)];
    assert_eq!(checkpoint_eligible(899, &miners, &rounds, WINDOW), vec![]);
    assert_eq!(checkpoint_eligible(900, &miners, &rounds, WINDOW), vec![checkpoint(1, 5)]);
    assert_eq!(checkpoint_eligible(1_000, &miners, &rounds, WINDOW), vec![checkpoint(1, 5)]);
    // The window ends with the round.
    assert_eq!(checkpoint_eligible(1_001, &miners, &rounds, WINDOW), vec![]);
}

#[test]
fn fee_window_before_the_first_slot_is_open() {
    let rounds = [round(5, 50, 1)];
    assert_eq!(
        checkpoint_eligible(0, &[miner(1, 5, 4)], &rounds, WINDOW),
        vec![checkpoint(1, 5)]
    );
}

#[test]
fn done_and_unknown_miners_are_skipped() {
    let rounds = [round(5, 1_000, 1), round(6, 1_100, 1)];
    let miners = [miner(1, 5, 5), miner(2, 6, 5), miner(3, 7, 0), miner(4, 5, 3), miner(5, 4, 9)];
    assert_eq!(
        checkpoint_eligible(1_000, &miners, &rounds, WINDOW),
        vec![checkpoint(2, 6), checkpoint(4, 5)]
    );
}

#[test]
fn last_round_of_an_id_counts() {
    let rounds = [round(5, 0, 1), round(5, 1_000, 1)];
    assert_eq!(checkpoint_eligible(500, &[miner(1, 5, 4)], &rounds, WINDOW), vec![]);
    let rounds = [round(5, 1_000, 1), round(5, 550, 1)];
    assert_eq!(
        checkpoint_eligible(500, &[miner(1, 5, 4)], &rounds, WINDOW),
        vec![checkpoint(1, 5)]
    );
}

#[test]
fn closes_are_own_expired_and_behind() {
    let rounds = [
        round(1, 99, 1),
        round(2, 100, 1),
        round(3, 99, 2),
        round(8, 99, 1),
        round(7, 0, 1),
        round(9, 0, 1),
    ];
    assert_eq!(close_eligible([1; 32], 100, 8, &rounds), vec![1, 7]);
    assert_eq!(close_eligible([1; 32], 101, 10, &rounds), vec![1, 2, 8, 7, 9]);
    assert!(close_eligible([3; 32], 101, 10, &rounds).is_empty());
}

#[test]
fn round_is_closed_behind_its_fee_window() {
    let rounds = [round(1, 99, 1)];
    let miners = [miner(1, 1, 0)];
    assert!(close_eligible([1; 32], 99, 8, &rounds).is_empty());
    assert_eq!(checkpoint_eligible(99, &miners, &rounds, 0), vec![checkpoint(1, 1)]);
    assert_eq!(close_eligible([1; 32], 100, 8, &rounds), vec![1]);
    assert_eq!(checkpoint_eligible(100, &miners, &rounds, 0), vec![]);
}

#[test]
fn pass_says_what_it_found() {
    assert_eq!(
        checkpoint_scan_line(3, 4),
        info("[checkpoint] scanning 3 miners against 4 rounds")
    );
    assert_eq!(close_scan_line(4), info("[close] scanning 4 rounds"));
    assert_eq!(checkpoint_line(0), info("[checkpoint] nothing eligible"));
    assert_eq!(checkpoint_line(3), info("[checkpoint] 3 miner(s) to checkpoint"));
    assert_eq!(close_line(0), info("[close] nothing eligible"));
    assert_eq!(close_line(12), info("[close] 12 round(s) to close"));
}

#[test]
fn pass_warns_of_what_was_dropped() {
    assert_eq!(checkpoint_warning(&BatchOutcome { dropped: 0 }), None);
    assert_eq!(close_warning(&BatchOutcome { dropped: 0 }), None);
    assert_eq!(
        checkpoint_warning(&BatchOutcome { dropped: 2 }),
        Some(warning("[checkpoint] WARNING: 2 miner(s) could not be checkpointed this pass"))
    );
    assert_eq!(
        close_warning(&BatchOutcome { dropped: 1 }),
        Some(warning(
            "[close] WARNING: 1 round(s) could not be closed this pass (already closed / not yet expired?)"
        ))
    );
}

#[test]
fn batches_start_six_wide() {
    assert_eq!(INITIAL_BATCH_SIZE, 6);
    assert_eq!(CHECKPOINT_CU_PER_IX, 60_000);
    assert_eq!(CLOSE_CU_PER_IX, 40_000);
}
