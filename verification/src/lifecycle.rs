//! The lines that show the life of a round: what is waited for, what was
//! prepared, what was fired, and what came of it.
use crate::chain::{Board, Signature};
use crate::entropy::{address_text, show_address};
use crate::reset::{
    slot_wait, wait_until_slot, AwaitedSlot, IterationEnd, ResetIteration, SlotWait,
    MAX_WAIT_SLOTS, NUM_RETRIES,
};
use crate::selection::TopMiner;
use crate::text::{decimal, decimal_text, info, line_views, warning, Line, LineView};
use vstd::prelude::*;

verus! {

/// The text of a signature: the base-58 form that `Signature` is displayed in.
pub uninterp spec fn signature_text(signature: Seq<u8>) -> Seq<char>;

/// Calls `Signature::to_string`, which writes the 64 bytes of the signature in
/// base 58. The text is named: it depends on nothing but those bytes.
#[verifier::external_body]
fn show_signature(signature: &Signature) -> (text: String)
    ensures
        text@ == signature_text(signature@),
{
    solana_sdk::signature::Signature::from(*signature).to_string()
}

/// What is shown of the board that an iteration starts from: that there is
/// nothing to reset yet, or which slots its mining and its intermission end at.
pub open spec fn opening(board: Board, target_slot: u64) -> Seq<LineView> {
    if board.end_slot == u64::MAX {
        seq![
            info(
                "[reset] round "@ + decimal(board.round_id as nat)
                    + " open, no deploys yet (end_slot unset); idling"@,
            ),
        ]
    } else {
        seq![
            info(
                "[reset] round "@ + decimal(board.round_id as nat) + " — mining ends @ slot "@
                    + decimal(board.end_slot as nat) + ", reset target @ slot "@ + decimal(
                    target_slot as nat,
                ),
            ),
            info(
                "[reset] waiting for mining to end at slot "@ + decimal(
                    (board.end_slot + 1) as nat,
                ),
            ),
        ]
    }
}

/// Shows the board that an iteration starts from, once it was read.
pub fn opening_lines(iteration: &ResetIteration) -> (lines: Vec<Line>)
    ensures
        line_views(lines@) == opening(
            iteration@.board,
            iteration@.target_slot(),
        ),
{
    let board = iteration.board();
    let mut lines: Vec<Line> = Vec::new();
    let mut text = String::from_str("[reset] round ");
    text.append(decimal_text(board.round_id).as_str());
    if board.end_slot == u64::MAX {
        text.append(" open, no deploys yet (end_slot unset); idling");
        lines.push(Line { warning: false, text });
    } else {
        text.append(" — mining ends @ slot ");
        text.append(decimal_text(board.end_slot).as_str());
        text.append(", reset target @ slot ");
        text.append(decimal_text(iteration.target_slot()).as_str());
        lines.push(Line { warning: false, text });
        let mut text = String::from_str("[reset] waiting for mining to end at slot ");
        text.append(decimal_text(board.end_slot + 1).as_str());
        lines.push(Line { warning: false, text });
    }
    assert(line_views(lines@) =~= opening(
        iteration@.board,
        iteration@.target_slot(),
    ));
    lines
}

/// What is shown of a wait for `target` that is abandoned at slot `current`.
pub open spec fn abandonment(label: Seq<char>, current: u64, target: u64) -> Option<LineView> {
    match slot_wait(current, target) {
        SlotWait::Abandoned { gap } => Some(
            info(
                "["@ + label + "] slot gap "@ + decimal(gap as nat) + " > "@ + decimal(
                    MAX_WAIT_SLOTS as nat,
                ) + "; abandoning wait"@,
            ),
        ),
        _ => None,
    }
}

fn abandonment_line(label: &str, current: u64, target: u64) -> (line: Option<Line>)
    ensures
        match line {
            Some(line) => abandonment(label@, current, target) == Some(line@),
            None => abandonment(label@, current, target) is None,
        },
{
    match wait_until_slot(current, target) {
        SlotWait::Abandoned { gap } => {
            let mut text = String::from_str("[");
            text.append(label);
            text.append("] slot gap ");
            text.append(decimal_text(gap).as_str());
            text.append(" > ");
            text.append(decimal_text(MAX_WAIT_SLOTS).as_str());
            text.append("; abandoning wait");
            Some(Line { warning: false, text })
        },
        _ => None,
    }
}

/// Shows that the wait of an iteration is abandoned at slot `current`, if it
/// is: the slot that it waits for is implausibly far off.
pub fn abandoned_line(iteration: &ResetIteration, current: u64) -> (line: Option<Line>)
    ensures
        ({
            let shown = match iteration@.awaited_slot() {
                Some(AwaitedSlot::MiningEnd(target)) => abandonment(
                    "reset:mining-end"@,
                    current,
                    target,
                ),
                Some(AwaitedSlot::Submit(target)) => abandonment(
                    "reset:submit"@,
                    current,
                    target,
                ),
                None => None,
            };
            match line {
                Some(line) => shown == Some(line@),
                None => shown is None,
            }
        }),
{
    match iteration.awaited_slot() {
        Some(AwaitedSlot::MiningEnd(target)) => abandonment_line(
            "reset:mining-end",
            current,
            target,
        ),
        Some(AwaitedSlot::Submit(target)) => abandonment_line("reset:submit", current, target),
        None => None,
    }
}

/// What is shown of the top miner, given the text of its address.
pub open spec fn top_miner_shown(top: Option<TopMiner>, authority: Seq<char>) -> LineView {
    info(
        match top {
            Some(top) => "[reset] top miner "@ + authority + " on square "@ + decimal(
                top.winning_square as nat,
            ) + " (sample "@ + decimal(top.sample as nat) + ")"@,
            None => "[reset] split / empty winning square — passing default top miner"@,
        },
    )
}

/// Shows the top miner that was selected, or that there is none to name.
pub fn top_miner_line(top: &Option<TopMiner>) -> (line: Line)
    ensures
        line@ == top_miner_shown(
            *top,
            match top {
                Some(top) => address_text(top.authority@),
                None => Seq::empty(),
            },
        ),
{
    match top {
        Some(found) => top_miner_line_with(top, show_address(&found.authority).as_str()),
        None => top_miner_line_with(top, ""),
    }
}

/// Shows the top miner that was selected, given the text of its address.
pub fn top_miner_line_with(top: &Option<TopMiner>, authority: &str) -> (line: Line)
    ensures
        line@ == top_miner_shown(*top, authority@),
{
    match top {
        Some(top) => {
            let mut text = String::from_str("[reset] top miner ");
            text.append(authority);
            text.append(" on square ");
            text.append(decimal_text(top.winning_square as u64).as_str());
            text.append(" (sample ");
            text.append(decimal_text(top.sample).as_str());
            text.append(")");
            Line { warning: false, text }
        },
        None => Line {
            warning: false,
            text: String::from_str(
                "[reset] split / empty winning square — passing default top miner",
            ),
        },
    }
}

/// Shows that the reset is prepared, how long that took, and which slot it
/// waits for.
pub fn prepared_line(iteration: &ResetIteration, elapsed: &str) -> (line: Line)
    ensures
        line@ == info(
            "[reset] prepared in "@ + elapsed@ + "; waiting for target slot "@ + decimal(
                iteration@.target_slot() as nat,
            ),
        ),
{
    let mut text = String::from_str("[reset] prepared in ");
    text.append(elapsed);
    text.append("; waiting for target slot ");
    text.append(decimal_text(iteration.target_slot()).as_str());
    Line { warning: false, text }
}

/// How the lines of shot `attempt` at a round begin.
pub open spec fn shot_prefix(round_id: u64, attempt: int) -> Seq<char> {
    "[reset] round "@ + decimal(round_id as nat) + " attempt "@ + decimal(attempt as nat) + "/"@
        + decimal(NUM_RETRIES as nat) + ": "@
}

fn shot_text(iteration: &ResetIteration) -> (text: String)
    ensures
        text@ == shot_prefix(iteration@.board.round_id, iteration@.attempts + 1),
{
    let mut text = String::from_str("[reset] round ");
    text.append(decimal_text(iteration.board().round_id).as_str());
    text.append(" attempt ");
    text.append(decimal_text(iteration.attempts() + 1).as_str());
    text.append("/");
    text.append(decimal_text(NUM_RETRIES).as_str());
    text.append(": ");
    text
}

/// Shows that the next shot of an iteration went out, with this signature.
pub fn fired_line(iteration: &ResetIteration, signature: &Signature) -> (line: Line)
    ensures
        line@ == info(
            shot_prefix(iteration@.board.round_id, iteration@.attempts + 1) + "fired "@
                + signature_text(signature@),
        ),
{
    fired_line_with(iteration, show_signature(signature).as_str())
}

/// Shows that the next shot went out, given the text of its signature.
pub fn fired_line_with(iteration: &ResetIteration, signature: &str) -> (line: Line)
    ensures
        line@ == info(
            shot_prefix(iteration@.board.round_id, iteration@.attempts + 1) + "fired "@
                + signature@,
        ),
{
    let mut text = shot_text(iteration);
    text.append("fired ");
    text.append(signature);
    Line { warning: false, text }
}

/// Warns that the next shot of an iteration did not go out, and why.
pub fn misfire_line(iteration: &ResetIteration, error: &str) -> (line: Line)
    ensures
        line@ == warning(
            shot_prefix(iteration@.board.round_id, iteration@.attempts + 1) + error@,
        ),
{
    let mut text = shot_text(iteration);
    text.append(error);
    Line { warning: true, text }
}

/// What is shown of the end of an iteration on round `round_id`, given the
/// text of the signature that won and the summary of the tallies. An iteration
/// that idled has said so before it paused; one that failed before the round
/// was seen to stand still shows its error alone.
pub open spec fn ending(
    round_id: u64,
    end: IterationEnd,
    signature: Seq<char>,
    summary: Seq<char>,
) -> Option<LineView> {
    let round = decimal(round_id as nat);
    match end {
        IterationEnd::Won(_) => Some(
            info(
                "[reset] round "@ + round + " WON ✓ ("@ + signature + "). [stats] "@ + summary,
            ),
        ),
        IterationEnd::Lost(now) => Some(
            info(
                "[reset] round "@ + round + " LOST — beaten to it (board now "@ + decimal(
                    now as nat,
                ) + "). [stats] "@ + summary,
            ),
        ),
        IterationEnd::NotAdvanced => Some(
            info("[reset] round "@ + round + " FAILED — did not advance. [stats] "@ + summary),
        ),
        IterationEnd::Unprepared => Some(
            info("[reset] round "@ + round + " FAILED — not prepared. [stats] "@ + summary),
        ),
        IterationEnd::Superseded(now) => Some(
            info(
                "[reset] round advanced "@ + round + " -> "@ + decimal(now as nat)
                    + " before prep; restarting"@,
            ),
        ),
        _ => None,
    }
}

/// Shows how an iteration on round `round_id` ended, with the summary of the
/// tallies.
pub fn end_line(round_id: u64, end: IterationEnd, summary: &str) -> (line: Option<Line>)
    ensures
        ({
            let signature = match end {
                IterationEnd::Won(signature) => signature_text(signature@),
                _ => Seq::empty(),
            };
            match line {
                Some(line) => ending(round_id, end, signature, summary@) == Some(line@),
                None => ending(round_id, end, signature, summary@) is None,
            }
        }),
{
    match end {
        IterationEnd::Won(signature) => end_line_with(
            round_id,
            end,
            show_signature(&signature).as_str(),
            summary,
        ),
        _ => end_line_with(round_id, end, "", summary),
    }
}

/// Shows how an iteration ended, given the text of the signature that won.
pub fn end_line_with(round_id: u64, end: IterationEnd, signature: &str, summary: &str) -> (line:
    Option<Line>)
    ensures
        match line {
            Some(line) => ending(round_id, end, signature@, summary@) == Some(line@),
            None => ending(round_id, end, signature@, summary@) is None,
        },
{
    let mut text = String::from_str("[reset] round ");
    match end {
        IterationEnd::Won(_) => {
            text.append(decimal_text(round_id).as_str());
            text.append(" WON ✓ (");
            text.append(signature);
            text.append("). [stats] ");
            text.append(summary);
        },
        IterationEnd::Lost(now) => {
            text.append(decimal_text(round_id).as_str());
            text.append(" LOST — beaten to it (board now ");
            text.append(decimal_text(now).as_str());
            text.append("). [stats] ");
            text.append(summary);
        },
        IterationEnd::NotAdvanced => {
            text.append(decimal_text(round_id).as_str());
            text.append(" FAILED — did not advance. [stats] ");
            text.append(summary);
        },
        IterationEnd::Unprepared => {
            text.append(decimal_text(round_id).as_str());
            text.append(" FAILED — not prepared. [stats] ");
            text.append(summary);
        },
        IterationEnd::Superseded(now) => {
            text = String::from_str("[reset] round advanced ");
            text.append(decimal_text(round_id).as_str());
            text.append(" -> ");
            text.append(decimal_text(now).as_str());
            text.append(" before prep; restarting");
        },
        _ => {
            return None;
        },
    }
    Some(Line { warning: false, text })
}

/// Warns that an iteration ended with this error.
pub fn error_line(error: &str) -> (line: Line)
    ensures
        line@ == warning("[reset] iteration error: "@ + error@),
{
    let mut text = String::from_str("[reset] iteration error: ");
    text.append(error);
    Line { warning: true, text }
}

} // verus!
