//! What the operator gets to see: the banner at the start, and the heartbeat.
use crate::chain::{Address, Board};
use crate::entropy::{address_text, show_address, texts, EntropyClient};
use crate::text::{decimal, decimal_text, info, line_views, warning, Line, LineView};
use vstd::prelude::*;

verus! {

/// Below this balance of the payer, in lamports, there is a warning.
pub const LOW_BALANCE_LAMPORTS: u64 = 50_000_000;

/// The heartbeat comes no more often than this, in seconds.
pub const MIN_HEALTH_INTERVAL_SECS: u64 = 5;

/// The texts one behind the other, with `separator` in between.
pub open spec fn joined(list: Seq<Seq<char>>, separator: Seq<char>) -> Seq<char>
    decreases list.len(),
{
    if list.len() == 0 {
        Seq::empty()
    } else if list.len() == 1 {
        list[0]
    } else {
        joined(list.drop_last(), separator) + separator + list.last()
    }
}

/// Puts the texts one behind the other, with `separator` in between.
pub fn join(list: &[String], separator: &str) -> (text: String)
    ensures
        text@ == joined(texts(list@), separator@),
{
    let ghost all = texts(list@);
    let mut text = String::from_str("");
    proof {
        reveal_strlit("");
    }
    let mut i: usize = 0;
    while i < list.len()
        invariant
            i <= list@.len(),
            all == texts(list@),
            text@ =~= joined(all.take(i as int), separator@),
        decreases list@.len() - i,
    {
        if i > 0 {
            text.append(separator);
        }
        text.append(list[i].as_str());
        i = i + 1;
        assert(all.take(i as int).drop_last() =~= all.take(i - 1));
        assert(all.take(i as int).last() == list@[i - 1]@);
    }
    assert(all.take(i as int) =~= all);
    text
}

/// The settings of the crank, as the banner shows them. `payer` is its address
/// as text, and `close_interval` the hours between two maintenance passes, if
/// there are any.
pub open spec fn settings_report(
    rpc: Seq<char>,
    payer: Seq<char>,
    priority_fee: u64,
    compute_unit_limit: u32,
    close_interval: Option<Seq<char>>,
    hosts: Seq<Seq<char>>,
) -> Seq<LineView> {
    seq![
        info("=== godl-crank starting ==="@),
        info("[setup] RPC: "@ + rpc),
        info("[setup] payer: "@ + payer),
        info(
            "[setup] priority fee: "@ + decimal(priority_fee as nat)
                + " µLamports/CU, reset CU limit: "@ + decimal(compute_unit_limit as nat),
        ),
        info(
            match close_interval {
                Some(hours) => "[setup] maintenance: every "@ + hours + "h"@,
                None => "[setup] maintenance: disabled"@,
            },
        ),
        info("[setup] entropy hosts: "@ + joined(hosts, ", "@)),
    ]
}

/// Begins the banner: confirms the settings.
pub fn startup_report(
    rpc: &str,
    payer: &Address,
    priority_fee: u64,
    compute_unit_limit: u32,
    close_interval: Option<&str>,
    entropy: &EntropyClient,
) -> (lines: Vec<Line>)
    ensures
        line_views(lines@) == settings_report(
            rpc@,
            address_text(payer@),
            priority_fee,
            compute_unit_limit,
            match close_interval {
                Some(hours) => Some(hours@),
                None => None,
            },
            entropy@,
        ),
{
    settings_lines(
        rpc,
        show_address(payer).as_str(),
        priority_fee,
        compute_unit_limit,
        close_interval,
        entropy.hosts(),
    )
}

/// Shows the settings, given the text of the payer's address.
pub fn settings_lines(
    rpc: &str,
    payer: &str,
    priority_fee: u64,
    compute_unit_limit: u32,
    close_interval: Option<&str>,
    hosts: &[String],
) -> (lines: Vec<Line>)
    ensures
        line_views(lines@) == settings_report(
            rpc@,
            payer@,
            priority_fee,
            compute_unit_limit,
            match close_interval {
                Some(hours) => Some(hours@),
                None => None,
            },
            texts(hosts@),
        ),
{
    let mut lines: Vec<Line> = Vec::new();
    lines.push(Line { warning: false, text: String::from_str("=== godl-crank starting ===") });

    let mut text = String::from_str("[setup] RPC: ");
    text.append(rpc);
    lines.push(Line { warning: false, text });

    let mut text = String::from_str("[setup] payer: ");
    text.append(payer);
    lines.push(Line { warning: false, text });

    let mut text = String::from_str("[setup] priority fee: ");
    text.append(decimal_text(priority_fee).as_str());
    text.append(" µLamports/CU, reset CU limit: ");
    text.append(decimal_text(compute_unit_limit as u64).as_str());
    lines.push(Line { warning: false, text });

    let text = match close_interval {
        Some(hours) => {
            let mut text = String::from_str("[setup] maintenance: every ");
            text.append(hours);
            text.append("h");
            text
        },
        None => String::from_str("[setup] maintenance: disabled"),
    };
    lines.push(Line { warning: false, text });

    let mut text = String::from_str("[setup] entropy hosts: ");
    text.append(join(hosts, ", ").as_str());
    lines.push(Line { warning: false, text });

    assert(line_views(lines@) =~= settings_report(
        rpc@,
        payer@,
        priority_fee,
        compute_unit_limit,
        match close_interval {
            Some(hours) => Some(hours@),
            None => None,
        },
        texts(hosts@),
    ));
    lines
}

/// Goes on with the banner: the endpoint answers, with this version.
pub fn version_line(version: &str) -> (line: Line)
    ensures
        line@ == info("[setup] RPC reachable, solana-core "@ + version@),
{
    let mut text = String::from_str("[setup] RPC reachable, solana-core ");
    text.append(version);
    Line { warning: false, text }
}

/// Whether the payer is running out of lamports.
pub open spec fn runs_low(balance: u64) -> bool {
    balance < LOW_BALANCE_LAMPORTS
}

/// Goes on with the banner: the balance of the payer, with a warning where it
/// is low. `sol` is the balance in SOL, as text.
pub fn balance_lines(balance: u64, sol: &str) -> (lines: Vec<Line>)
    ensures
        line_views(lines@) == if runs_low(balance) {
            seq![
                info("[setup] payer balance: "@ + sol@ + " SOL"@),
                warning(
                    "[setup] WARNING: low balance ("@ + sol@
                        + " SOL) — fund the payer to keep cranking"@,
                ),
            ]
        } else {
            seq![info("[setup] payer balance: "@ + sol@ + " SOL"@)]
        },
{
    let mut text = String::from_str("[setup] payer balance: ");
    text.append(sol);
    text.append(" SOL");
    let mut lines: Vec<Line> = Vec::new();
    lines.push(Line { warning: false, text });
    assert(line_views(lines@) =~= seq![info("[setup] payer balance: "@ + sol@ + " SOL"@)]);
    if balance < LOW_BALANCE_LAMPORTS {
        let mut text = String::from_str("[setup] WARNING: low balance (");
        text.append(sol);
        text.append(" SOL) — fund the payer to keep cranking");
        lines.push(Line { warning: true, text });
        assert(line_views(lines@) =~= seq![
            info("[setup] payer balance: "@ + sol@ + " SOL"@),
            warning(
                "[setup] WARNING: low balance ("@ + sol@
                    + " SOL) — fund the payer to keep cranking"@,
            ),
        ]);
    }
    lines
}

/// Ends the banner: the board, or a warning why it could not be read.
pub fn board_line(board: &Result<Board, String>) -> (line: Line)
    ensures
        line@ == match board {
            Ok(board) => info(
                "[setup] board: round "@ + decimal(board.round_id as nat) + ", start_slot "@
                    + decimal(board.start_slot as nat) + ", end_slot "@ + decimal(
                    board.end_slot as nat,
                ),
            ),
            Err(error) => warning("[setup] WARNING: could not read board: "@ + error@),
        },
{
    match board {
        Ok(board) => {
            let mut text = String::from_str("[setup] board: round ");
            text.append(decimal_text(board.round_id).as_str());
            text.append(", start_slot ");
            text.append(decimal_text(board.start_slot).as_str());
            text.append(", end_slot ");
            text.append(decimal_text(board.end_slot).as_str());
            Line { warning: false, text }
        },
        Err(error) => {
            let mut text = String::from_str("[setup] WARNING: could not read board: ");
            text.append(error.as_str());
            Line { warning: true, text }
        },
    }
}

/// Seconds between two heartbeats, given those that were asked for.
pub fn health_interval(asked: u64) -> (secs: u64)
    ensures
        secs == if asked < MIN_HEALTH_INTERVAL_SECS {
            MIN_HEALTH_INTERVAL_SECS
        } else {
            asked
        },
{
    if asked < MIN_HEALTH_INTERVAL_SECS {
        MIN_HEALTH_INTERVAL_SECS
    } else {
        asked
    }
}

/// A balance, in lamports and as text in SOL.
#[derive(Debug, PartialEq, Eq)]
pub struct Balance {
    pub lamports: u64,
    pub sol: String,
}

/// What was read for a heartbeat, or why it could not be.
#[derive(Debug, PartialEq, Eq)]
pub struct Vitals {
    pub slot: Result<u64, String>,
    pub board: Result<Board, String>,
    pub balance: Result<Balance, String>,
}

/// How a failed read shows in the heartbeat.
pub open spec fn failure_text(error: Seq<char>) -> Seq<char> {
    "ERR("@ + error + ")"@
}

impl Vitals {
    pub open spec fn slot_text(self) -> Seq<char> {
        match self.slot {
            Ok(slot) => decimal(slot as nat),
            Err(error) => failure_text(error@),
        }
    }

    pub open spec fn board_text(self) -> Seq<char> {
        match self.board {
            Ok(board) => "round="@ + decimal(board.round_id as nat) + " end_slot="@ + decimal(
                board.end_slot as nat,
            ),
            Err(error) => "board="@ + failure_text(error@),
        }
    }

    pub open spec fn balance_text(self) -> Seq<char> {
        match self.balance {
            Ok(balance) => balance.sol@ + " SOL"@,
            Err(error) => failure_text(error@),
        }
    }

    /// The heartbeat, which ends with the summary of the resets.
    pub open spec fn heartbeat(self, resets: Seq<char>) -> LineView {
        info(
            "[health] slot="@ + self.slot_text() + " "@ + self.board_text() + " balance="@
                + self.balance_text() + " | resets "@ + resets,
        )
    }

    /// All that a heartbeat shows: a warning first where the balance is known
    /// to be low.
    pub open spec fn report(self, resets: Seq<char>) -> Seq<LineView> {
        match self.balance {
            Ok(balance) if runs_low(balance.lamports) => seq![
                warning("[health] WARNING: low payer balance ("@ + balance.sol@ + " SOL)"@),
                self.heartbeat(resets),
            ],
            _ => seq![self.heartbeat(resets)],
        }
    }

    fn show_failure(error: &String) -> (text: String)
        ensures
            text@ == failure_text(error@),
    {
        let mut text = String::from_str("ERR(");
        text.append(error.as_str());
        text.append(")");
        text
    }

    fn show_slot(&self) -> (text: String)
        ensures
            text@ == self.slot_text(),
    {
        match &self.slot {
            Ok(slot) => decimal_text(*slot),
            Err(error) => Self::show_failure(error),
        }
    }

    fn show_board(&self) -> (text: String)
        ensures
            text@ == self.board_text(),
    {
        match &self.board {
            Ok(board) => {
                let mut text = String::from_str("round=");
                text.append(decimal_text(board.round_id).as_str());
                text.append(" end_slot=");
                text.append(decimal_text(board.end_slot).as_str());
                text
            },
            Err(error) => {
                let mut text = String::from_str("board=");
                text.append(Self::show_failure(error).as_str());
                text
            },
        }
    }

    fn show_balance(&self) -> (text: String)
        ensures
            text@ == self.balance_text(),
    {
        match &self.balance {
            Ok(balance) => {
                let mut text = String::from_str(balance.sol.as_str());
                text.append(" SOL");
                text
            },
            Err(error) => Self::show_failure(error),
        }
    }

    /// Shows a heartbeat, so that the operator can see that the crank is alive
    /// and healthy.
    pub fn health_lines(&self, resets: &str) -> (lines: Vec<Line>)
        ensures
            line_views(lines@) == self.report(resets@),
    {
        let mut lines: Vec<Line> = Vec::new();
        if let Ok(balance) = &self.balance {
            if balance.lamports < LOW_BALANCE_LAMPORTS {
                let mut text = String::from_str("[health] WARNING: low payer balance (");
                text.append(balance.sol.as_str());
                text.append(" SOL)");
                lines.push(Line { warning: true, text });
            }
        }
        let mut text = String::from_str("[health] slot=");
        text.append(self.show_slot().as_str());
        text.append(" ");
        text.append(self.show_board().as_str());
        text.append(" balance=");
        text.append(self.show_balance().as_str());
        text.append(" | resets ");
        text.append(resets);
        lines.push(Line { warning: false, text });
        assert(line_views(lines@) =~= self.report(resets@));
        lines
    }
}

} // verus!
