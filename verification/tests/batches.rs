use godl_crank::batch::{
    send_failed_text, send_instructions_bisecting, BatchAction, BatchOutcome, BatchSend,
};
use godl_crank::chain::Instruction;
use godl_crank::text::Line;

fn instruction(tag: u8) -> Instruction {
    Instruction { program_id: [9; 32], accounts: vec![], data: vec![tag] }
}

fn instructions(count: u8) -> Vec<Instruction> {
    (0..count).map(instruction).collect()
}

fn tags(send: &BatchSend) -> Vec<Vec<u8>> {
    send.batches().iter().map(|batch| batch.iter().map(|one| one.data[0]).collect()).collect()
}

/// Runs a send in which exactly the batches with a bad instruction fail.
/// Returns the outcome, the landed instructions, and how often something was
/// sent.
fn run(count: u8, size: usize, bad: &[u8]) -> (usize, usize, u32) {
    let mut send = send_instructions_bisecting(instructions(count), size);
    let mut sends = 0;
    loop {
        match send.action() {
            BatchAction::Send => {
                sends += 1;
                let results: Vec<bool> = tags(&send)
                    .iter()
                    .map(|batch| !batch.iter().any(|tag| bad.contains(tag)))
                    .collect();
                send = send.on_results(&results);
            }
            BatchAction::Sleep(ms) => {
                assert_eq!(ms, 500);
                send = send.on_rested();
            }
            BatchAction::Done(outcome) => return (outcome.dropped, send.progress().0, sends),
            BatchAction::Abort => panic!("the sender never fails"),
        }
    }
}

#[test]
fn nothing_to_send_is_done_at_once() {
    let send = send_instructions_bisecting(vec![], 6);
    assert_eq!(send.action(), BatchAction::Done(BatchOutcome { dropped: 0 }));
    assert!(send.batches().is_empty());
    assert_eq!(send.progress(), (0, 0));
}

#[test]
fn batches_hold_the_instructions_in_order() {
    let send = send_instructions_bisecting(instructions(8), 3);
    assert_eq!(send.action(), BatchAction::Send);
    assert_eq!(tags(&send), vec![vec![0, 1, 2], vec![3, 4, 5], vec![6, 7]]);
}

#[test]
fn batch_size_is_at_least_one() {
    let send = send_instructions_bisecting(instructions(2), 0);
    assert_eq!(tags(&send), vec![vec![0], vec![1]]);
}

#[test]
fn all_good_lands_in_one_pass() {
    assert_eq!(run(20, 6, &[]), (0, 20, 1));
}

#[test]
fn failed_batches_are_halved() {
    let send = send_instructions_bisecting(instructions(12), 6).on_results(&[false, true]);
    assert_eq!(send.progress(), (6, 12));
    assert_eq!(send.action(), BatchAction::Send);
    assert_eq!(tags(&send), vec![vec![0, 1, 2], vec![3, 4, 5]]);
    let send = send.on_results(&[true, false]);
    assert_eq!(tags(&send), vec![vec![3], vec![4], vec![5]]);
}

#[test]
fn bad_instructions_are_isolated() {
    // Only the two bad ones are dropped, whatever batch they sit in.
    assert_eq!(run(20, 6, &[3, 17]), (2, 18, 5));
    assert_eq!(run(7, 6, &[6]), (1, 6, 5));
    assert_eq!(run(6, 6, &[0, 1, 2, 3, 4, 5]), (6, 0, 5));
}

#[test]
fn lone_failures_get_three_passes() {
    let send = send_instructions_bisecting(instructions(1), 1).on_results(&[false]);
    assert_eq!(send.action(), BatchAction::Sleep(500));
    let send = send.on_rested().on_results(&[false]);
    assert_eq!(send.action(), BatchAction::Sleep(500));
    let send = send.on_rested().on_results(&[false]);
    assert_eq!(send.action(), BatchAction::Done(BatchOutcome { dropped: 1 }));
    assert_eq!(send.progress(), (0, 1));
}

#[test]
fn transient_failure_still_lands() {
    let send = send_instructions_bisecting(instructions(2), 1).on_results(&[true, false]);
    let send = send.on_rested();
    assert_eq!(tags(&send), vec![vec![1]]);
    let send = send.on_results(&[true]);
    assert_eq!(send.action(), BatchAction::Done(BatchOutcome { dropped: 0 }));
    assert_eq!(send.progress(), (2, 2));
}

#[test]
fn failing_sender_aborts() {
    let send = send_instructions_bisecting(instructions(2), 1).on_send_failed();
    assert_eq!(send.action(), BatchAction::Abort);
    assert_eq!(send.on_results(&[true, true]).action(), BatchAction::Abort);
}

#[test]
fn batches_go_out_a_bounded_number_of_times() {
    // Two halvings of six, and three passes over single instructions.
    assert_eq!(run(13, 6, &[0, 5, 12]).2, 5);
    assert_eq!(run(13, 1, &[0, 5, 12]).2, 3);
    assert_eq!(run(13, 0, &[0, 5, 12]).2, 3);
    assert_eq!(run(40, 32, &[1]).2, 8);
}

#[test]
fn send_says_what_goes_out() {
    let send = send_instructions_bisecting(instructions(8), 3);
    assert_eq!((send.width(), send.pending(), send.batch_count()), (3, 8, 3));
    assert_eq!(
        send.sending_line("close").text,
        "[close] sending 3 tx(s) of up to 3 ix each (8 ix pending)"
    );
    assert_eq!(send.failure_warning("close", "oops"), None);
    let send = send.on_results(&[true, true, false]);
    assert_eq!((send.width(), send.pending(), send.batch_count()), (1, 2, 2));
    assert_eq!(
        send.failure_warning("close", "oops"),
        Some(Line {
            warning: true,
            text: String::from("[close] tx failed (will retry/drop): oops"),
        })
    );
}

#[test]
fn send_says_what_came_of_it() {
    let send = send_instructions_bisecting(instructions(2), 1).on_results(&[true, false]);
    assert_eq!(send.dropped_warning("close"), None);
    let send = send.on_rested().on_results(&[false]).on_rested().on_results(&[false]);
    assert_eq!(
        send.done_line("close"),
        Line { warning: false, text: String::from("[close] done: 1/2 landed, 1 dropped") }
    );
    assert_eq!(
        send.dropped_warning("close"),
        Some(Line {
            warning: true,
            text: String::from("[close] dropping 1 instruction(s) that keep failing alone"),
        })
    );
    assert_eq!(send_failed_text("close", "oops"), "[close] parallel send failed: oops");
}

#[test]
fn unasked_replies_change_nothing() {
    let send = send_instructions_bisecting(instructions(2), 1).on_rested();
    assert_eq!(send.action(), BatchAction::Send);
    assert_eq!(tags(&send), vec![vec![0], vec![1]]);
}
