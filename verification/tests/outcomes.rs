use godl_crank::outcome::{poll_outcome, Outcome, OutcomePoll, PollAction, PollEvent};

const A: [u8; 64] = [1; 64];
const B: [u8; 64] = [2; 64];

fn feed(poll: OutcomePoll, events: &[PollEvent]) -> OutcomePoll {
    let mut poll = poll;
    for event in events {
        poll = poll.on_event(*event);
    }
    poll
}

/// Answers whatever is asked, and returns the result and the answers it took.
fn run(signatures: Vec<[u8; 64]>, confirmed: &[[u8; 64]], board: Option<u64>) -> (Option<Outcome>, u32) {
    let mut poll = poll_outcome(signatures, 8);
    let mut answers = 0;
    loop {
        let event = match poll.action() {
            PollAction::Sleep(ms) => {
                assert_eq!(ms, 400);
                PollEvent::Slept
            }
            PollAction::ReadStatus(signature) => PollEvent::Status(confirmed.contains(&signature)),
            PollAction::ReadBoard => PollEvent::Board(board),
            PollAction::Done(outcome) => return (outcome, answers),
        };
        poll = poll.on_event(event);
        answers += 1;
    }
}

#[test]
fn watch_pauses_then_looks_at_signatures_then_at_the_board() {
    let poll = poll_outcome(vec![A, B], 8);
    assert_eq!(poll.action(), PollAction::Sleep(400));
    let poll = poll.on_event(PollEvent::Slept);
    assert_eq!(poll.action(), PollAction::ReadStatus(A));
    let poll = poll.on_event(PollEvent::Status(false));
    assert_eq!(poll.action(), PollAction::ReadStatus(B));
    let poll = poll.on_event(PollEvent::Status(false));
    assert_eq!(poll.action(), PollAction::ReadBoard);
    let poll = poll.on_event(PollEvent::Board(Some(7)));
    assert_eq!(poll.action(), PollAction::Sleep(400));
}

#[test]
fn confirmation_is_a_win() {
    assert_eq!(run(vec![A, B], &[B], Some(7)), (Some(Outcome::Won(B)), 3));
}

#[test]
fn first_confirmed_signature_is_named() {
    assert_eq!(run(vec![A, B], &[A, B], Some(7)), (Some(Outcome::Won(A)), 2));
}

#[test]
fn confirmation_wins_over_a_board_advance() {
    let late = feed(
        poll_outcome(vec![A], 8),
        &[PollEvent::Slept, PollEvent::Status(false), PollEvent::Board(Some(8))],
    );
    assert_eq!(late.action(), PollAction::ReadStatus(A));
    let won = feed(
        late,
        &[
            PollEvent::Status(false),
            PollEvent::Slept,
            PollEvent::Status(false),
            PollEvent::Slept,
            PollEvent::Status(true),
        ],
    );
    assert_eq!(won.action(), PollAction::Done(Some(Outcome::Won(A))));
}

#[test]
fn advance_without_us_is_a_loss_after_three_looks() {
    // One tick of four answers, then three laps of two looks and a pause.
    assert_eq!(run(vec![A, B], &[], Some(9)), (Some(Outcome::Lost(9)), 4 + 3 * 3));
}

#[test]
fn nothing_known_after_twelve_ticks() {
    assert_eq!(run(vec![A, B], &[], Some(7)), (None, 12 * 4));
    assert_eq!(run(vec![A, B], &[], None), (None, 12 * 4));
}

#[test]
fn watch_without_signatures_still_sees_the_board() {
    assert_eq!(run(vec![], &[], Some(8)), (Some(Outcome::Lost(8)), 2 + 3));
    assert_eq!(run(vec![], &[], Some(7)), (None, 12 * 2));
}

#[test]
fn ended_watch_stays_ended() {
    let poll = feed(
        poll_outcome(vec![A], 8),
        &[PollEvent::Slept, PollEvent::Status(true), PollEvent::Board(Some(9)), PollEvent::Slept],
    );
    assert_eq!(poll.action(), PollAction::Done(Some(Outcome::Won(A))));
}

#[test]
fn unasked_events_change_nothing() {
    let poll = poll_outcome(vec![A], 8).on_event(PollEvent::Status(true));
    assert_eq!(poll.action(), PollAction::Sleep(400));
}
