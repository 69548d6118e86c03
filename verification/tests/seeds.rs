use godl_crank::entropy::{
    default_hosts, hosts_or_default, EntropyClient, HostReply, SeedAction, REQUEST_TIMEOUT_SECS,
};
use godl_crank::text::Line;

fn client() -> EntropyClient {
    EntropyClient::new(vec![String::from("one"), String::from("two")])
}

#[test]
fn built_in_hosts_are_primary_first() {
    let hosts = [
        "entropy.godl.dev",
        "entropy-1.godl.dev",
        "entropy-2.godl.dev",
        "entropy-3.vercel.app",
    ];
    assert_eq!(default_hosts(), hosts);
    assert_eq!(hosts_or_default(vec![]), hosts);
    assert_eq!(hosts_or_default(vec![String::from("mine")]), ["mine"]);
    assert_eq!(EntropyClient::new(default_hosts()).hosts(), hosts);
    assert_eq!(REQUEST_TIMEOUT_SECS, 4);
}

#[test]
fn url_names_the_variable_in_base_58() {
    assert_eq!(
        client().get_seed(&[0; 32]).action(),
        SeedAction::Get(String::from("https://one/var/11111111111111111111111111111111/seed"))
    );
    let var = solana_sdk::pubkey::Pubkey::new_from_array([9; 32]);
    assert_eq!(
        client().get_seed(&[9; 32]).action(),
        SeedAction::Get(format!("https://one/var/{var}/seed"))
    );
}

#[test]
fn first_valid_seed_wins() {
    let search = client().search(String::from("V")).on_reply(HostReply::Seed([7; 32]));
    assert_eq!(search.action(), SeedAction::Found([7; 32], String::from("one")));
    // Whatever comes behind.
    let search = search.on_reply(HostReply::Seed([8; 32]));
    assert_eq!(search.action(), SeedAction::Found([7; 32], String::from("one")));
    assert_eq!(search.last_error(), None);
}

#[test]
fn failing_host_falls_back() {
    let search = client().search(String::from("V"));
    assert_eq!(search.action(), SeedAction::Get(String::from("https://one/var/V/seed")));
    let search = search.on_reply(HostReply::Failed(String::from("timed out")));
    assert_eq!(search.last_error(), Some("one: timed out"));
    assert_eq!(search.action(), SeedAction::Get(String::from("https://two/var/V/seed")));
    let search = search.on_reply(HostReply::Seed([7; 32]));
    assert_eq!(search.action(), SeedAction::Found([7; 32], String::from("two")));
}

#[test]
fn search_says_where_it_stands() {
    let search = client().search(String::from("V"));
    assert_eq!(search.fallback_warning(), None);
    assert_eq!(search.source_line(), None);
    let search = search.on_reply(HostReply::Failed(String::from("timed out")));
    assert_eq!(
        search.fallback_warning(),
        Some(Line {
            warning: true,
            text: String::from("[entropy] host failed, falling back: one: timed out"),
        })
    );
    let search = search.on_reply(HostReply::Seed([7; 32]));
    assert_eq!(search.fallback_warning(), None);
    assert_eq!(
        search.source_line(),
        Some(Line {
            warning: false,
            text: String::from("[reset] seed fetched from two (var V)"),
        })
    );
}

#[test]
fn unrevealed_seed_falls_back() {
    let search = client().search(String::from("V")).on_reply(HostReply::Seed([0; 32]));
    assert_eq!(search.last_error(), Some("one: returned all-zero seed (not yet revealed)"));
    assert_eq!(search.action(), SeedAction::Get(String::from("https://two/var/V/seed")));
}

#[test]
fn search_fails_only_behind_the_last_host() {
    let search = client()
        .search(String::from("V"))
        .on_reply(HostReply::Failed(String::from("timed out")))
        .on_reply(HostReply::Refused(String::from("404 Not Found")));
    let failed = SeedAction::Failed(String::from(
        "all entropy hosts failed for var V: two: HTTP 404 Not Found",
    ));
    assert_eq!(search.action(), failed);
    assert_eq!(search.on_reply(HostReply::Seed([7; 32])).action(), failed);
}

#[test]
fn search_without_hosts_fails() {
    assert_eq!(
        EntropyClient::new(vec![]).search(String::from("V")).action(),
        SeedAction::Failed(String::from(
            "all entropy hosts failed for var V: no hosts configured"
        ))
    );
}
