use godl_crank::chain::Board;
use godl_crank::entropy::EntropyClient;
use godl_crank::health::{
    balance_lines, board_line, health_interval, join, settings_lines, startup_report,
    version_line, Balance, Vitals,
};
use godl_crank::text::Line;

fn info(text: &str) -> Line {
    Line { warning: false, text: String::from(text) }
}

fn warning(text: &str) -> Line {
    Line { warning: true, text: String::from(text) }
}

fn hosts() -> Vec<String> {
    vec![String::from("one"), String::from("two")]
}

fn vitals(lamports: u64, sol: &str) -> Vitals {
    Vitals {
        slot: Ok(900),
        board: Ok(Board { round_id: 7, start_slot: 1, end_slot: 950 }),
        balance: Ok(Balance { lamports, sol: String::from(sol) }),
    }
}

#[test]
fn banner_confirms_the_settings() {
    assert_eq!(
        settings_lines("http://rpc", "PAYER", 10_000, 350_000, Some("1"), &hosts()),
        vec![
            info("=== godl-crank starting ==="),
            info("[setup] RPC: http://rpc"),
            info("[setup] payer: PAYER"),
            info("[setup] priority fee: 10000 µLamports/CU, reset CU limit: 350000"),
            info("[setup] maintenance: every 1h"),
            info("[setup] entropy hosts: one, two"),
        ]
    );
    assert_eq!(
        settings_lines("r", "p", 1, 2, None, &hosts())[4],
        info("[setup] maintenance: disabled")
    );
}

#[test]
fn banner_shows_the_payer_in_base_58() {
    let payer = solana_sdk::pubkey::Pubkey::new_from_array([9; 32]);
    let entropy = EntropyClient::new(hosts());
    let lines = startup_report("r", &[9; 32], 1, 2, None, &entropy);
    assert_eq!(lines.len(), 6);
    assert_eq!(lines[2], info(&format!("[setup] payer: {payer}")));
    assert_eq!(lines[5], info("[setup] entropy hosts: one, two"));
}

#[test]
fn join_separates() {
    assert_eq!(join(&[], ", "), "");
    assert_eq!(join(&hosts()[..1], ", "), "one");
    assert_eq!(join(&hosts(), ", "), "one, two");
}

#[test]
fn version_is_shown() {
    assert_eq!(version_line("2.3.1"), info("[setup] RPC reachable, solana-core 2.3.1"));
}

#[test]
fn low_balance_is_warned_about() {
    assert_eq!(
        balance_lines(50_000_000, "0.050000"),
        vec![info("[setup] payer balance: 0.050000 SOL")]
    );
    assert_eq!(
        balance_lines(49_999_999, "0.050000"),
        vec![
            info("[setup] payer balance: 0.050000 SOL"),
            warning(
                "[setup] WARNING: low balance (0.050000 SOL) — fund the payer to keep cranking"
            ),
        ]
    );
}

#[test]
fn board_is_shown_or_warned_about() {
    assert_eq!(
        board_line(&Ok(Board { round_id: 7, start_slot: 1, end_slot: 950 })),
        info("[setup] board: round 7, start_slot 1, end_slot 950")
    );
    assert_eq!(
        board_line(&Err(String::from("timed out"))),
        warning("[setup] WARNING: could not read board: timed out")
    );
}

#[test]
fn heartbeat_comes_every_five_seconds_at_most() {
    assert_eq!(health_interval(0), 5);
    assert_eq!(health_interval(4), 5);
    assert_eq!(health_interval(5), 5);
    assert_eq!(health_interval(60), 60);
}

#[test]
fn heartbeat_shows_the_vitals() {
    assert_eq!(
        vitals(1_500_000_000, "1.500000").health_lines("none"),
        vec![info(
            "[health] slot=900 round=7 end_slot=950 balance=1.500000 SOL | resets none"
        )]
    );
}

#[test]
fn heartbeat_warns_of_a_low_balance() {
    let lines = vitals(49_999_999, "0.050000").health_lines("none");
    assert_eq!(lines.len(), 2);
    assert_eq!(lines[0], warning("[health] WARNING: low payer balance (0.050000 SOL)"));
    assert!(!lines[1].warning);
    assert_eq!(vitals(50_000_000, "0.050000").health_lines("none").len(), 1);
}

#[test]
fn heartbeat_shows_what_failed() {
    let failed = Vitals {
        slot: Err(String::from("a")),
        board: Err(String::from("b")),
        balance: Err(String::from("c")),
    };
    assert_eq!(
        failed.health_lines("none"),
        vec![info("[health] slot=ERR(a) board=ERR(b) balance=ERR(c) | resets none")]
    );
}
