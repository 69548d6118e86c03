use godl_crank::chain::{Board, Config, Round, Var, DEFAULT_ADDRESS};
use godl_crank::outcome::{Outcome, PollAction, PollEvent};
use godl_crank::reset::{
    finish, not_advanced, reset_iteration, rest_after, wait_until_slot, IterationEnd,
    IterationError, ResetAction, ResetEvent, ResetIteration, ResetPlan, SlotWait,
};
use godl_crank::selection::TopMiner;
use godl_crank::stats::ResetStats;
use godl_crank::top_miner::{search_top_miner, SelectAction};

fn board(round_id: u64, end_slot: u64) -> Board {
    Board { round_id, start_slot: 10, end_slot }
}

fn config() -> Config {
    Config { var_address: [2; 32], fee_collector: [3; 32] }
}

fn round() -> Round {
    Round { id: 7, expires_at: 900, rent_payer: [8; 32], deployed: vec![0, 10] }
}

fn var() -> Var {
    Var { slot_hash: [9; 32], samples: 3, end_at: 100 }
}

fn feed(iteration: ResetIteration, events: &[ResetEvent]) -> ResetIteration {
    let mut iteration = iteration;
    for event in events {
        iteration = iteration.on_event(event.clone());
    }
    iteration
}

/// The answers that lead up to the first shot at round 7.
fn preparation() -> Vec<ResetEvent> {
    let top = TopMiner { authority: [5; 32], winning_square: 1, sample: 0 };
    vec![
        ResetEvent::Board(Some(board(7, 100))),
        ResetEvent::Slot(Some(101)),
        ResetEvent::Config(Some(config())),
        ResetEvent::Board(Some(board(7, 100))),
        ResetEvent::Round(Some(round())),
        ResetEvent::Var(Some(var())),
        ResetEvent::Seed(Some([4; 32])),
        ResetEvent::TopMiner(Some(Some(top))),
        ResetEvent::Blockhash(Some([6; 32])),
        ResetEvent::Slot(Some(135)),
    ]
}

fn plan() -> ResetPlan {
    ResetPlan {
        round_id: 7,
        var_address: [2; 32],
        fee_collector: [3; 32],
        seed: [4; 32],
        top_miner: [5; 32],
        blockhash: [6; 32],
    }
}

#[test]
fn wait_is_over_at_the_target() {
    assert_eq!(wait_until_slot(100, 100), SlotWait::Reached);
    assert_eq!(wait_until_slot(101, 100), SlotWait::Reached);
}

#[test]
fn wait_tightens_on_the_final_approach() {
    assert_eq!(wait_until_slot(99, 100), SlotWait::Poll { ms: 50 });
    assert_eq!(wait_until_slot(97, 100), SlotWait::Poll { ms: 50 });
    assert_eq!(wait_until_slot(96, 100), SlotWait::Poll { ms: 400 });
    assert_eq!(wait_until_slot(0, 100_000), SlotWait::Poll { ms: 400 });
}

#[test]
fn wait_for_an_implausible_target_is_abandoned() {
    assert_eq!(wait_until_slot(0, 100_001), SlotWait::Abandoned { gap: 100_001 });
    assert_eq!(wait_until_slot(0, u64::MAX), SlotWait::Abandoned { gap: u64::MAX });
}

#[test]
fn round_without_deploys_idles() {
    let iteration = reset_iteration(35).on_event(ResetEvent::Board(Some(board(7, u64::MAX))));
    assert_eq!(iteration.action(), ResetAction::Sleep(2_000));
    let iteration = iteration.on_event(ResetEvent::Slept);
    assert_eq!(iteration.action(), ResetAction::Done(IterationEnd::Idled));
}

#[test]
fn mining_is_waited_out() {
    let iteration = reset_iteration(35);
    assert_eq!(iteration.action(), ResetAction::ReadBoard);
    let iteration = iteration.on_event(ResetEvent::Board(Some(board(7, 100))));
    assert_eq!(iteration.action(), ResetAction::ReadSlot);
    let iteration = iteration.on_event(ResetEvent::Slot(Some(90)));
    assert_eq!(iteration.action(), ResetAction::Sleep(400));
    let iteration = feed(iteration, &[ResetEvent::Slept, ResetEvent::Slot(Some(100))]);
    assert_eq!(iteration.action(), ResetAction::Sleep(50));
    let iteration = feed(iteration, &[ResetEvent::Slept, ResetEvent::Slot(Some(101))]);
    assert_eq!(iteration.action(), ResetAction::ReadConfig);
}

#[test]
fn preparation_asks_in_order() {
    let wanted = [
        ResetAction::ReadBoard,
        ResetAction::ReadSlot,
        ResetAction::ReadConfig,
        ResetAction::ReadBoard,
        ResetAction::ReadRound(7),
        ResetAction::ReadVar([2; 32]),
        ResetAction::FetchSeed([2; 32]),
        ResetAction::SelectTopMiner,
        ResetAction::FetchBlockhash,
        ResetAction::ReadSlot,
    ];
    let mut iteration = reset_iteration(35);
    for (action, event) in wanted.iter().zip(preparation()) {
        assert_eq!(iteration.action(), *action);
        iteration = iteration.on_event(event);
    }
    assert_eq!(iteration.action(), ResetAction::Fire(plan()));
}

#[test]
fn intermission_is_waited_out() {
    let mut events = preparation();
    events.pop();
    let iteration = feed(reset_iteration(35), &events).on_event(ResetEvent::Slot(Some(134)));
    assert_eq!(iteration.action(), ResetAction::Sleep(50));
    let iteration = feed(iteration, &[ResetEvent::Slept, ResetEvent::Slot(Some(135))]);
    assert_eq!(iteration.action(), ResetAction::Fire(plan()));
}

#[test]
fn target_slot_saturates() {
    let mut events = preparation();
    events[0] = ResetEvent::Board(Some(board(7, u64::MAX - 1)));
    events[1] = ResetEvent::Slot(Some(u64::MAX));
    events[9] = ResetEvent::Slot(Some(u64::MAX));
    assert_eq!(feed(reset_iteration(35), &events).action(), ResetAction::Fire(plan()));
}

#[test]
fn no_top_miner_means_the_default_address() {
    let mut events = preparation();
    events[7] = ResetEvent::TopMiner(Some(None));
    assert_eq!(
        feed(reset_iteration(35), &events).action(),
        ResetAction::Fire(ResetPlan { top_miner: DEFAULT_ADDRESS, ..plan() })
    );
    assert_eq!(DEFAULT_ADDRESS, solana_sdk::pubkey::Pubkey::default().to_bytes());
}

#[test]
fn advanced_round_is_given_up() {
    let mut events = preparation();
    events.truncate(3);
    events.push(ResetEvent::Board(Some(board(8, 100))));
    assert_eq!(
        feed(reset_iteration(35), &events).action(),
        ResetAction::Done(IterationEnd::Superseded(8))
    );
}

#[test]
fn failed_reads_end_the_iteration() {
    let failures = [
        ResetEvent::Board(None),
        ResetEvent::Slot(None),
        ResetEvent::Config(None),
        ResetEvent::Board(None),
        ResetEvent::Round(None),
        ResetEvent::Var(None),
        ResetEvent::Seed(None),
        ResetEvent::TopMiner(None),
        ResetEvent::Blockhash(None),
        ResetEvent::Slot(None),
    ];
    for (done, failure) in failures.iter().enumerate() {
        let iteration = feed(reset_iteration(35), &preparation()[..done]).on_event(failure.clone());
        // Once the round was seen to stand still, a failure is one of the round.
        let end = if done < 4 { IterationEnd::Failed } else { IterationEnd::Unprepared };
        assert_eq!(iteration.action(), ResetAction::Done(end));
    }
}

#[test]
fn seed_failure_on_a_standing_round_counts_as_failed() {
    let mut events = preparation();
    events.truncate(6);
    events.push(ResetEvent::Seed(None));
    let mut stats = ResetStats::new();
    // As often as the round fails, in an iteration each.
    for count in 1..4 {
        match feed(reset_iteration(35), &events).action() {
            ResetAction::Done(end) => {
                assert_eq!(finish(&mut stats, 7, end), Err(IterationError::Failed));
            }
            other => panic!("{other:?}"),
        }
        assert_eq!(stats.snapshot(), (0, 0, count));
    }
}

#[test]
fn implausible_slots_are_neither_prepared_nor_fired_at() {
    let far = [ResetEvent::Board(Some(board(7, 1_000_000))), ResetEvent::Slot(Some(0))];
    let iteration = feed(reset_iteration(35), &far);
    assert_eq!(iteration.action(), ResetAction::Sleep(2_000));
    let iteration = iteration.on_event(ResetEvent::Slept);
    assert_eq!(iteration.action(), ResetAction::Done(IterationEnd::Idled));

    let mut events = preparation();
    events[9] = ResetEvent::Slot(Some(101));
    let iteration = feed(reset_iteration(200_000), &events);
    assert_eq!(iteration.action(), ResetAction::Sleep(2_000));
    let iteration = iteration.on_event(ResetEvent::Slept);
    assert_eq!(iteration.action(), ResetAction::Done(IterationEnd::Idled));
}

#[test]
fn top_miner_is_selected_from_what_was_read() {
    let iteration = feed(reset_iteration(35), &preparation()[..7]);
    assert_eq!(iteration.action(), ResetAction::SelectTopMiner);
    let wanted = search_top_miner(round(), var(), [4; 32]);
    assert_eq!(iteration.select().action(), wanted.action());
    assert!(matches!(wanted.action(), SelectAction::Draw { .. }));
    // The round that is drawn from is the one that was read.
    let drawn = iteration.select().on_draw(1, false).on_sample(3);
    assert_eq!(drawn.action(), SelectAction::ReadMiners { round_id: 7 });
    assert_eq!(iteration.select().on_draw(0, false).action(), SelectAction::Done(Ok(None)));
}

#[test]
fn shots_are_watched_and_repeated() {
    let mut iteration = feed(reset_iteration(35), &preparation());
    for shot in 1..5u8 {
        assert_eq!(iteration.action(), ResetAction::Fire(plan()));
        // The second shot does not go out.
        let sent = if shot == 2 { None } else { Some([shot; 64]) };
        iteration = iteration.on_event(ResetEvent::Fired(sent));
        assert_eq!(iteration.action(), ResetAction::Poll);
        if shot < 4 {
            iteration = iteration.on_event(ResetEvent::Polled(None));
        }
    }
    let mut watched = Vec::new();
    let mut poll = iteration.watch().on_event(PollEvent::Slept);
    while let PollAction::ReadStatus(signature) = poll.action() {
        watched.push(signature);
        poll = poll.on_event(PollEvent::Status(false));
    }
    assert_eq!(watched, vec![[1; 64], [3; 64], [4; 64]]);
    // The watch is for the round behind this one.
    assert_eq!(poll.action(), PollAction::ReadBoard);
    let still = poll.on_event(PollEvent::Board(Some(7)));
    assert_eq!(still.action(), PollAction::Sleep(400));

    let iteration = iteration.on_event(ResetEvent::Polled(None));
    assert_eq!(iteration.action(), ResetAction::Poll);
    let iteration = iteration.on_event(ResetEvent::Polled(None));
    assert_eq!(iteration.action(), ResetAction::Done(IterationEnd::NotAdvanced));
}

#[test]
fn outcome_of_any_watch_ends_the_iteration() {
    let fired = feed(reset_iteration(35), &preparation()).on_event(ResetEvent::Fired(Some([1; 64])));
    let won = fired.on_event(ResetEvent::Polled(Some(Outcome::Won([1; 64]))));
    assert_eq!(won.action(), ResetAction::Done(IterationEnd::Won([1; 64])));

    let mut last = feed(reset_iteration(35), &preparation());
    for _ in 0..4 {
        last = feed(last, &[ResetEvent::Fired(None), ResetEvent::Polled(None)]);
    }
    let lost = last.on_event(ResetEvent::Polled(Some(Outcome::Lost(9))));
    assert_eq!(lost.action(), ResetAction::Done(IterationEnd::Lost(9)));
    // The end is final.
    let still = feed(lost, &[ResetEvent::Fired(None), ResetEvent::Board(None), ResetEvent::Slept]);
    assert_eq!(still.action(), ResetAction::Done(IterationEnd::Lost(9)));
}

#[test]
fn unasked_events_are_ignored() {
    let iteration = feed(
        reset_iteration(35),
        &[ResetEvent::Slept, ResetEvent::Fired(Some([1; 64])), ResetEvent::Slot(None)],
    );
    assert_eq!(iteration.action(), ResetAction::ReadBoard);
}

#[test]
fn finish_counts_each_verdict_once() {
    let mut stats = ResetStats::new();
    assert_eq!(finish(&mut stats, 7, IterationEnd::Won([1; 64])), Ok(()));
    assert_eq!(stats.snapshot(), (1, 0, 0));
    assert_eq!(finish(&mut stats, 7, IterationEnd::Lost(8)), Ok(()));
    assert_eq!(stats.snapshot(), (1, 1, 0));
    assert_eq!(
        finish(&mut stats, 7, IterationEnd::NotAdvanced),
        Err(IterationError::NotAdvanced { round_id: 7 })
    );
    assert_eq!(stats.snapshot(), (1, 1, 1));
    assert_eq!(finish(&mut stats, 7, IterationEnd::Unprepared), Err(IterationError::Failed));
    assert_eq!(stats.snapshot(), (1, 1, 2));
    assert_eq!(finish(&mut stats, 7, IterationEnd::Failed), Err(IterationError::Failed));
    assert_eq!(finish(&mut stats, 7, IterationEnd::Idled), Ok(()));
    assert_eq!(finish(&mut stats, 7, IterationEnd::Superseded(8)), Ok(()));
    assert_eq!(stats.snapshot(), (1, 1, 2));
}

#[test]
fn loop_rests_after_an_error_only() {
    assert_eq!(rest_after(&Ok(())), None);
    assert_eq!(rest_after(&Err(IterationError::Failed)), Some(400));
    assert_eq!(rest_after(&Err(IterationError::NotAdvanced { round_id: 7 })), Some(400));
    assert_eq!(not_advanced(7), "round 7 did not advance after 4 attempts");
}
