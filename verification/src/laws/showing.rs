//! What the operator gets to see, word by word.
use crate::chain::Board;
use crate::health::{joined, runs_low, settings_report, Vitals};
use crate::lifecycle::{abandonment, ending, opening, shot_prefix, top_miner_shown};
use crate::reset::IterationEnd;
use crate::selection::TopMiner;
use crate::text::{decimal, LineView};
use vstd::prelude::*;

verus! {

/// A line of plain information.
pub open spec fn said(text: Seq<char>) -> LineView {
    LineView { warning: false, text }
}

/// A balance is low below 50,000,000 lamports.
pub proof fn law_low_balance_is_below_the_mark(balance: u64)
    ensures
        runs_low(balance) <==> balance < 50_000_000,
{
}

/// A joined list is its texts with the separator between each two: a single
/// text stands alone, and two lists are joined by joining each and putting the
/// separator between.
pub proof fn law_join_separates(
    a: Seq<Seq<char>>,
    b: Seq<Seq<char>>,
    text: Seq<char>,
    separator: Seq<char>,
)
    requires
        a.len() > 0,
        b.len() > 0,
    ensures
        joined(seq![text], separator) == text,
        joined(Seq::empty(), separator).len() == 0,
        joined(a + b, separator) == joined(a, separator) + separator + joined(b, separator),
    decreases b.len(),
{
    assert(seq![text][0] == text);
    let earlier = b.drop_last();
    assert((a + b).drop_last() =~= a + earlier);
    assert((a + b).last() == b.last());
    if b.len() == 1 {
        assert(a + earlier =~= a);
        assert(b.last() == b[0]);
    } else {
        law_join_separates(a, earlier, text, separator);
        let x = joined(a, separator);
        let y = joined(earlier, separator);
        assert((x + separator + y) + separator + b.last() =~= x + separator + (y + separator
            + b.last()));
    }
}

/// The banner confirms each setting in a line of its own.
pub proof fn law_banner_confirms_the_settings(
    rpc: Seq<char>,
    payer: Seq<char>,
    priority_fee: u64,
    compute_unit_limit: u32,
    close_interval: Option<Seq<char>>,
    hosts: Seq<Seq<char>>,
)
    ensures
        ({
            let lines = settings_report(
                rpc,
                payer,
                priority_fee,
                compute_unit_limit,
                close_interval,
                hosts,
            );
            &&& lines.len() == 6
            &&& forall|i: int| 0 <= i < 6 ==> !(#[trigger] lines[i]).warning
            &&& lines[1].text == "[setup] RPC: "@ + rpc
            &&& lines[2].text == "[setup] payer: "@ + payer
            &&& lines[3].text == "[setup] priority fee: "@ + decimal(priority_fee as nat)
                + " µLamports/CU, reset CU limit: "@ + decimal(compute_unit_limit as nat)
            &&& close_interval matches Some(hours) ==> lines[4].text
                == "[setup] maintenance: every "@ + hours + "h"@
            &&& close_interval is None ==> lines[4].text == "[setup] maintenance: disabled"@
            &&& lines[5].text == "[setup] entropy hosts: "@ + joined(hosts, ", "@)
        }),
{
}

/// A heartbeat shows the slot, the round and the balance, or why they could not
/// be read, and the resets; before it stands a warning exactly where the
/// balance is known to be below the mark.
pub proof fn law_heartbeat_shows_the_vitals(vitals: Vitals, resets: Seq<char>)
    ensures
        ({
            let lines = vitals.report(resets);
            let slot = match vitals.slot {
                Ok(slot) => decimal(slot as nat),
                Err(error) => "ERR("@ + error@ + ")"@,
            };
            let board = match vitals.board {
                Ok(board) => "round="@ + decimal(board.round_id as nat) + " end_slot="@ + decimal(
                    board.end_slot as nat,
                ),
                Err(error) => "board="@ + ("ERR("@ + error@ + ")"@),
            };
            let balance = match vitals.balance {
                Ok(balance) => balance.sol@ + " SOL"@,
                Err(error) => "ERR("@ + error@ + ")"@,
            };
            let beat = said(
                "[health] slot="@ + slot + " "@ + board + " balance="@ + balance + " | resets "@
                    + resets,
            );
            match vitals.balance {
                Ok(known) if known.lamports < 50_000_000 => lines == seq![
                    LineView {
                        warning: true,
                        text: "[health] WARNING: low payer balance ("@ + known.sol@ + " SOL)"@,
                    },
                    beat,
                ],
                _ => lines == seq![beat],
            }
        }),
{
}

/// An iteration opens with the round, the end of its mining and the slot that
/// its reset aims at, or with the round alone where there is no deploy yet.
pub proof fn law_opening_shows_the_slots(board: Board, target_slot: u64)
    ensures
        board.end_slot == u64::MAX ==> opening(board, target_slot) == seq![
            said(
                "[reset] round "@ + decimal(board.round_id as nat)
                    + " open, no deploys yet (end_slot unset); idling"@,
            ),
        ],
        board.end_slot < u64::MAX ==> opening(board, target_slot) == seq![
            said(
                "[reset] round "@ + decimal(board.round_id as nat) + " — mining ends @ slot "@
                    + decimal(board.end_slot as nat) + ", reset target @ slot "@ + decimal(
                    target_slot as nat,
                ),
            ),
            said(
                "[reset] waiting for mining to end at slot "@ + decimal(
                    (board.end_slot + 1) as nat,
                ),
            ),
        ],
{
}

/// A wait is said to be abandoned exactly where more than 100,000 slots are
/// missing, and by how many.
pub proof fn law_abandoned_wait_is_shown(label: Seq<char>, current: u64, target: u64)
    ensures
        target - current <= 100_000 ==> abandonment(label, current, target) is None,
        target - current > 100_000 ==> abandonment(label, current, target) == Some(
            said(
                "["@ + label + "] slot gap "@ + decimal((target - current) as nat) + " > "@
                    + decimal(100_000) + "; abandoning wait"@,
            ),
        ),
{
}

/// The top miner is shown with its square and its sample.
pub proof fn law_top_miner_is_shown(top: TopMiner, authority: Seq<char>)
    ensures
        top_miner_shown(Some(top), authority) == said(
            "[reset] top miner "@ + authority + " on square "@ + decimal(
                top.winning_square as nat,
            ) + " (sample "@ + decimal(top.sample as nat) + ")"@,
        ),
        top_miner_shown(None, authority) == said(
            "[reset] split / empty winning square — passing default top miner"@,
        ),
{
}

/// A shot is shown with its round and its number, out of four.
pub proof fn law_shot_is_numbered(round_id: u64, attempt: nat)
    ensures
        shot_prefix(round_id, attempt as int) == "[reset] round "@ + decimal(round_id as nat)
            + " attempt "@ + decimal(attempt) + "/"@ + decimal(4) + ": "@,
{
}

/// The end of an iteration is shown with its round and what decided it.
pub proof fn law_end_is_shown(
    round_id: u64,
    end: IterationEnd,
    signature: Seq<char>,
    summary: Seq<char>,
)
    ensures
        ({
            let shown = ending(round_id, end, signature, summary);
            let round = decimal(round_id as nat);
            match end {
                IterationEnd::Won(_) => shown == Some(
                    said(
                        "[reset] round "@ + round + " WON ✓ ("@ + signature + "). [stats] "@
                            + summary,
                    ),
                ),
                IterationEnd::Lost(now) => shown == Some(
                    said(
                        "[reset] round "@ + round + " LOST — beaten to it (board now "@ + decimal(
                            now as nat,
                        ) + "). [stats] "@ + summary,
                    ),
                ),
                IterationEnd::NotAdvanced => shown == Some(
                    said(
                        "[reset] round "@ + round + " FAILED — did not advance. [stats] "@
                            + summary,
                    ),
                ),
                IterationEnd::Unprepared => shown == Some(
                    said(
                        "[reset] round "@ + round + " FAILED — not prepared. [stats] "@ + summary,
                    ),
                ),
                IterationEnd::Superseded(now) => shown == Some(
                    said(
                        "[reset] round advanced "@ + round + " -> "@ + decimal(now as nat)
                            + " before prep; restarting"@,
                    ),
                ),
                _ => shown is None,
            }
        }),
{
}

} // verus!
