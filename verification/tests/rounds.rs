use godl_crank::chain::{Board, Config, Round, Var};
use godl_crank::lifecycle::{
    abandoned_line, end_line, end_line_with, error_line, fired_line, fired_line_with,
    misfire_line, opening_lines, prepared_line, top_miner_line, top_miner_line_with,
};
use godl_crank::reset::{reset_iteration, AwaitedSlot, IterationEnd, ResetEvent, ResetIteration};
use godl_crank::selection::TopMiner;
use godl_crank::text::Line;

fn info(text: &str) -> Line {
    Line { warning: false, text: String::from(text) }
}

fn warning(text: &str) -> Line {
    Line { warning: true, text: String::from(text) }
}

fn at_board(end_slot: u64) -> ResetIteration {
    let board = Board { round_id: 7, start_slot: 1, end_slot };
    reset_iteration(35).on_event(ResetEvent::Board(Some(board)))
}

fn at_submit() -> ResetIteration {
    let mut iteration = at_board(100);
    let board = Board { round_id: 7, start_slot: 1, end_slot: 100 };
    for event in [
        ResetEvent::Slot(Some(101)),
        ResetEvent::Config(Some(Config { var_address: [2; 32], fee_collector: [3; 32] })),
        ResetEvent::Board(Some(board)),
        ResetEvent::Round(Some(Round {
            id: 7,
            expires_at: 900,
            rent_payer: [8; 32],
            deployed: vec![0],
        })),
        ResetEvent::Var(Some(Var { slot_hash: [9; 32], samples: 3, end_at: 100 })),
        ResetEvent::Seed(Some([4; 32])),
        ResetEvent::TopMiner(Some(None)),
        ResetEvent::Blockhash(Some([6; 32])),
    ] {
        iteration = iteration.on_event(event);
    }
    iteration
}

#[test]
fn opening_shows_the_slots() {
    assert_eq!(
        opening_lines(&at_board(100)),
        vec![
            info("[reset] round 7 — mining ends @ slot 100, reset target @ slot 135"),
            info("[reset] waiting for mining to end at slot 101"),
        ]
    );
    assert_eq!(
        opening_lines(&at_board(u64::MAX)),
        vec![info("[reset] round 7 open, no deploys yet (end_slot unset); idling")]
    );
}

#[test]
fn iteration_tells_what_it_waits_for() {
    assert_eq!(at_board(100).awaited_slot(), Some(AwaitedSlot::MiningEnd(101)));
    assert_eq!(at_submit().awaited_slot(), Some(AwaitedSlot::Submit(135)));
    assert_eq!(at_board(u64::MAX).awaited_slot(), None);
    assert_eq!(at_submit().target_slot(), 135);
    assert_eq!(at_submit().board().round_id, 7);
}

#[test]
fn abandoned_waits_are_shown() {
    assert_eq!(abandoned_line(&at_board(1_000_000), 900_001), None);
    assert_eq!(
        abandoned_line(&at_board(1_000_000), 0),
        Some(info("[reset:mining-end] slot gap 1000001 > 100000; abandoning wait"))
    );
    assert_eq!(abandoned_line(&at_submit(), 134), None);
    assert_eq!(abandoned_line(&reset_iteration(35), 0), None);
}

#[test]
fn top_miner_is_shown_in_base_58() {
    let top = Some(TopMiner { authority: [9; 32], winning_square: 3, sample: 12 });
    let authority = solana_sdk::pubkey::Pubkey::new_from_array([9; 32]);
    assert_eq!(
        top_miner_line(&top),
        info(&format!("[reset] top miner {authority} on square 3 (sample 12)"))
    );
    assert_eq!(
        top_miner_line_with(&top, "X"),
        info("[reset] top miner X on square 3 (sample 12)")
    );
    assert_eq!(
        top_miner_line(&None),
        info("[reset] split / empty winning square — passing default top miner")
    );
}

#[test]
fn preparation_is_shown() {
    assert_eq!(
        prepared_line(&at_submit(), "1.5s"),
        info("[reset] prepared in 1.5s; waiting for target slot 135")
    );
}

#[test]
fn shots_are_numbered() {
    let iteration = at_submit().on_event(ResetEvent::Slot(Some(135)));
    assert_eq!(iteration.attempts(), 0);
    let signature = solana_sdk::signature::Signature::from([5; 64]);
    assert_eq!(
        fired_line(&iteration, &[5; 64]),
        info(&format!("[reset] round 7 attempt 1/4: fired {signature}"))
    );
    let iteration =
        iteration.on_event(ResetEvent::Fired(None)).on_event(ResetEvent::Polled(None));
    assert_eq!(iteration.attempts(), 1);
    assert_eq!(
        fired_line_with(&iteration, "S"),
        info("[reset] round 7 attempt 2/4: fired S")
    );
    assert_eq!(
        misfire_line(&iteration, "send failed: oops"),
        warning("[reset] round 7 attempt 2/4: send failed: oops")
    );
}

#[test]
fn each_end_is_shown() {
    let signature = solana_sdk::signature::Signature::from([5; 64]);
    assert_eq!(
        end_line(7, IterationEnd::Won([5; 64]), "none"),
        Some(info(&format!("[reset] round 7 WON ✓ ({signature}). [stats] none")))
    );
    assert_eq!(
        end_line_with(7, IterationEnd::Won([5; 64]), "S", "none"),
        Some(info("[reset] round 7 WON ✓ (S). [stats] none"))
    );
    assert_eq!(
        end_line(7, IterationEnd::Lost(9), "none"),
        Some(info("[reset] round 7 LOST — beaten to it (board now 9). [stats] none"))
    );
    assert_eq!(
        end_line(7, IterationEnd::NotAdvanced, "none"),
        Some(info("[reset] round 7 FAILED — did not advance. [stats] none"))
    );
    assert_eq!(
        end_line(7, IterationEnd::Unprepared, "none"),
        Some(info("[reset] round 7 FAILED — not prepared. [stats] none"))
    );
    assert_eq!(
        end_line(7, IterationEnd::Superseded(8), "none"),
        Some(info("[reset] round advanced 7 -> 8 before prep; restarting"))
    );
    assert_eq!(end_line(7, IterationEnd::Idled, "none"), None);
    assert_eq!(end_line(7, IterationEnd::Failed, "none"), None);
    assert_eq!(error_line("oops"), warning("[reset] iteration error: oops"));
}
