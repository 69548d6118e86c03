//! Entropy seed fetching with multi-host fallback.
//!
//! The seed of an entropy variable is served at
//! `https://{host}/var/{var}/seed`. The primary host is tried first, then each
//! fallback in order, until one answers with a seed. A single slow or broken
//! host can never stall the crank.
use crate::chain::{is_zero, zeros, Address};
use crate::text::{info, warning, Line};
use vstd::prelude::*;

verus! {

/// Seconds that a host is given to answer. Kept short so that a dead host
/// fails over quickly.
pub const REQUEST_TIMEOUT_SECS: u64 = 4;

/// The texts of a list of hosts.
pub open spec fn texts(hosts: Seq<String>) -> Seq<Seq<char>> {
    Seq::new(hosts.len(), |i: int| hosts[i]@)
}

/// The built-in hosts, primary first.
pub open spec fn built_in_hosts() -> Seq<Seq<char>> {
    seq![
        "entropy.godl.dev"@,
        "entropy-1.godl.dev"@,
        "entropy-2.godl.dev"@,
        "entropy-3.vercel.app"@,
    ]
}

/// The built-in hosts, primary first.
pub fn default_hosts() -> (hosts: Vec<String>)
    ensures
        texts(hosts@) == built_in_hosts(),
{
    let mut hosts: Vec<String> = Vec::new();
    hosts.push(String::from_str("entropy.godl.dev"));
    hosts.push(String::from_str("entropy-1.godl.dev"));
    hosts.push(String::from_str("entropy-2.godl.dev"));
    hosts.push(String::from_str("entropy-3.vercel.app"));
    assert(texts(hosts@) =~= built_in_hosts());
    hosts
}

/// The hosts to ask: those that were configured, or else the built-in ones.
pub fn hosts_or_default(configured: Vec<String>) -> (hosts: Vec<String>)
    ensures
        texts(hosts@) == if configured@.len() == 0 {
            built_in_hosts()
        } else {
            texts(configured@)
        },
{
    if configured.len() == 0 {
        default_hosts()
    } else {
        configured
    }
}

/// The text of an address: the base-58 form that `Pubkey` is displayed in.
pub uninterp spec fn address_text(address: Seq<u8>) -> Seq<char>;

/// Calls `Pubkey::to_string`, which writes the 32 bytes of the key in base 58.
/// The text is named: it depends on nothing but those bytes.
#[verifier::external_body]
pub(crate) fn show_address(address: &Address) -> (text: String)
    ensures
        text@ == address_text(address@),
{
    solana_sdk::pubkey::Pubkey::from(*address).to_string()
}

/// Where `host` serves the seed of `var`.
pub open spec fn seed_url(host: Seq<char>, var: Seq<char>) -> Seq<char> {
    "https://"@ + host + "/var/"@ + var + "/seed"@
}

/// What a search that found no seed reads.
pub open spec fn hosts_failed(var: Seq<char>, last_error: Option<Seq<char>>) -> Seq<char> {
    "all entropy hosts failed for var "@ + var + ": "@ + match last_error {
        Some(text) => text,
        None => "no hosts configured"@,
    }
}

/// What came of asking a host.
#[derive(Debug, PartialEq, Eq)]
pub enum HostReply {
    /// The host answered with a seed, which may be the zeros of one that is
    /// not revealed yet.
    Seed([u8; 32]),
    /// The host answered with this status, which is no success.
    Refused(String),
    /// There was no answer, or none that could be read, for this reason.
    Failed(String),
}

/// What a [`HostReply`] says.
pub enum HostReplyView {
    Seed([u8; 32]),
    Refused(Seq<char>),
    Failed(Seq<char>),
}

impl View for HostReply {
    type V = HostReplyView;

    open spec fn view(&self) -> HostReplyView {
        match self {
            HostReply::Seed(seed) => HostReplyView::Seed(*seed),
            HostReply::Refused(status) => HostReplyView::Refused(status@),
            HostReply::Failed(reason) => HostReplyView::Failed(reason@),
        }
    }
}

impl HostReplyView {
    /// Whether this is a seed that was revealed.
    pub open spec fn valid(self) -> bool {
        self matches HostReplyView::Seed(seed) && seed@ != zeros()
    }

    /// Why the reply of `host` is of no use.
    pub open spec fn complaint(self, host: Seq<char>) -> Seq<char> {
        match self {
            HostReplyView::Seed(_) => host + ": returned all-zero seed (not yet revealed)"@,
            HostReplyView::Refused(status) => host + ": HTTP "@ + status,
            HostReplyView::Failed(reason) => host + ": "@ + reason,
        }
    }
}

/// What a search wants done next.
#[derive(Debug, PartialEq, Eq)]
pub enum SeedAction {
    /// Get this URL, and read the seed from the answer.
    Get(String),
    /// Nothing more: this is the seed, and the host that served it.
    Found([u8; 32], String),
    /// Nothing more: every host failed, as this message says.
    Failed(String),
}

/// What a [`SeedAction`] says.
pub enum SeedActionView {
    Get(Seq<char>),
    Found([u8; 32], Seq<char>),
    Failed(Seq<char>),
}

impl View for SeedAction {
    type V = SeedActionView;

    open spec fn view(&self) -> SeedActionView {
        match self {
            SeedAction::Get(url) => SeedActionView::Get(url@),
            SeedAction::Found(seed, host) => SeedActionView::Found(*seed, host@),
            SeedAction::Failed(message) => SeedActionView::Failed(message@),
        }
    }
}

/// The state of a search.
#[verifier::ext_equal]
pub struct SeedModel {
    pub hosts: Seq<Seq<char>>,
    /// The variable, as text.
    pub var: Seq<char>,
    /// The host that is being asked, or that had the seed.
    pub at: nat,
    pub seed: Option<[u8; 32]>,
    pub last_error: Option<Seq<char>>,
}

impl SeedModel {
    pub open spec fn start(hosts: Seq<Seq<char>>, var: Seq<char>) -> SeedModel {
        SeedModel { hosts, var, at: 0, seed: None, last_error: None }
    }

    pub open spec fn wf(self) -> bool {
        &&& self.at <= self.hosts.len()
        &&& self.seed is Some ==> self.at < self.hosts.len()
    }

    /// Whether a host is being asked.
    pub open spec fn asking(self) -> bool {
        self.seed is None && self.at < self.hosts.len()
    }

    pub open spec fn wants(self) -> SeedActionView {
        match self.seed {
            Some(seed) => SeedActionView::Found(seed, self.hosts[self.at as int]),
            None => if self.at < self.hosts.len() {
                SeedActionView::Get(seed_url(self.hosts[self.at as int], self.var))
            } else {
                SeedActionView::Failed(hosts_failed(self.var, self.last_error))
            },
        }
    }

    /// The state after the reply of the host that was asked. A revealed seed
    /// ends the search; on anything else the next host is tried.
    pub open spec fn after(self, reply: HostReplyView) -> SeedModel {
        if !self.asking() {
            self
        } else if reply.valid() {
            SeedModel { seed: Some(reply->Seed_0), ..self }
        } else {
            SeedModel {
                at: self.at + 1,
                last_error: Some(reply.complaint(self.hosts[self.at as int])),
                ..self
            }
        }
    }

    /// The state after all of `replies`.
    pub open spec fn after_all(self, replies: Seq<HostReplyView>) -> SeedModel
        decreases replies.len(),
    {
        if replies.len() == 0 {
            self
        } else {
            self.after_all(replies.drop_last()).after(replies.last())
        }
    }
}

/// Asks the entropy hosts for seeds.
pub struct EntropyClient {
    hosts: Vec<String>,
}

impl View for EntropyClient {
    type V = Seq<Seq<char>>;

    closed spec fn view(&self) -> Seq<Seq<char>> {
        texts(self.hosts@)
    }
}

impl EntropyClient {
    pub fn new(hosts: Vec<String>) -> (client: EntropyClient)
        ensures
            client@ == texts(hosts@),
    {
        EntropyClient { hosts }
    }

    /// The hosts, primary first.
    pub fn hosts(&self) -> (hosts: &[String])
        ensures
            texts(hosts@) == self@,
    {
        self.hosts.as_slice()
    }

    /// Starts a search for the seed of `var`, trying each host until one
    /// succeeds.
    pub fn get_seed(&self, var: &Address) -> (search: SeedSearch)
        ensures
            search@ == SeedModel::start(self@, address_text(var@)),
    {
        self.search(show_address(var))
    }

    /// Starts a search for the seed of the variable with this text.
    pub fn search(&self, var: String) -> (search: SeedSearch)
        ensures
            search@ == SeedModel::start(self@, var@),
    {
        let mut hosts: Vec<String> = Vec::new();
        let mut i: usize = 0;
        while i < self.hosts.len()
            invariant
                i <= self.hosts@.len(),
                texts(hosts@) =~= texts(self.hosts@).take(i as int),
            decreases self.hosts@.len() - i,
        {
            let host = String::from_str(self.hosts[i].as_str());
            assert(host@ == texts(self.hosts@)[i as int]);
            let ghost before = hosts@;
            hosts.push(host);
            assert(texts(hosts@) =~= texts(before).push(host@));
            i = i + 1;
        }
        assert(texts(hosts@) =~= texts(self.hosts@));
        SeedSearch { hosts, var, at: 0, seed: None, last_error: None }
    }
}

/// A search for a seed in progress.
pub struct SeedSearch {
    hosts: Vec<String>,
    var: String,
    at: usize,
    seed: Option<[u8; 32]>,
    last_error: Option<String>,
}

impl View for SeedSearch {
    type V = SeedModel;

    closed spec fn view(&self) -> SeedModel {
        SeedModel {
            hosts: texts(self.hosts@),
            var: self.var@,
            at: self.at as nat,
            seed: self.seed,
            last_error: match self.last_error {
                Some(text) => Some(text@),
                None => None,
            },
        }
    }
}

impl SeedSearch {
    #[verifier::type_invariant]
    spec fn inv(self) -> bool {
        self@.wf()
    }

    /// What is wanted next.
    pub fn action(&self) -> (action: SeedAction)
        ensures
            action@ == self@.wants(),
    {
        proof {
            use_type_invariant(self);
        }
        if let Some(seed) = self.seed {
            return SeedAction::Found(seed, String::from_str(self.hosts[self.at].as_str()));
        }
        if self.at < self.hosts.len() {
            let mut url = String::from_str("https://");
            url.append(self.hosts[self.at].as_str());
            url.append("/var/");
            url.append(self.var.as_str());
            url.append("/seed");
            SeedAction::Get(url)
        } else {
            let mut message = String::from_str("all entropy hosts failed for var ");
            message.append(self.var.as_str());
            message.append(": ");
            match &self.last_error {
                Some(text) => message.append(text.as_str()),
                None => message.append("no hosts configured"),
            }
            SeedAction::Failed(message)
        }
    }

    /// What the last host that failed had to say.
    pub fn last_error(&self) -> (error: Option<&str>)
        ensures
            match error {
                Some(text) => self@.last_error == Some(text@),
                None => self@.last_error is None,
            },
    {
        match &self.last_error {
            Some(text) => Some(text.as_str()),
            None => None,
        }
    }

    /// The warning that the last host that was asked has failed, unless the
    /// seed was found behind it.
    pub fn fallback_warning(&self) -> (line: Option<Line>)
        ensures
            line is Some <==> self@.last_error is Some && self@.seed is None,
            line matches Some(line) ==> line@ == warning(
                "[entropy] host failed, falling back: "@ + self@.last_error->0,
            ),
    {
        match (&self.last_error, self.seed) {
            (Some(error), None) => {
                let mut text = String::from_str("[entropy] host failed, falling back: ");
                text.append(error.as_str());
                Some(Line { warning: true, text })
            },
            _ => None,
        }
    }

    /// Which host served the seed, once one has.
    pub fn source_line(&self) -> (line: Option<Line>)
        ensures
            line is Some <==> self@.seed is Some,
            line matches Some(line) ==> line@ == info(
                "[reset] seed fetched from "@ + self@.hosts[self@.at as int] + " (var "@
                    + self@.var + ")"@,
            ),
    {
        proof {
            use_type_invariant(self);
        }
        if self.seed.is_none() {
            return None;
        }
        let mut text = String::from_str("[reset] seed fetched from ");
        text.append(self.hosts[self.at].as_str());
        text.append(" (var ");
        text.append(self.var.as_str());
        text.append(")");
        Some(Line { warning: false, text })
    }

    /// Takes in the reply of the host that was asked.
    pub fn on_reply(self, reply: HostReply) -> (next: SeedSearch)
        ensures
            next@ == self@.after(reply@),
    {
        proof {
            use_type_invariant(&self);
        }
        if self.seed.is_some() || self.at >= self.hosts.len() {
            return self;
        }
        let mut complaint = String::from_str(self.hosts[self.at].as_str());
        match reply {
            HostReply::Seed(seed) => {
                if !is_zero(&seed) {
                    return SeedSearch { seed: Some(seed), ..self };
                }
                complaint.append(": returned all-zero seed (not yet revealed)");
            },
            HostReply::Refused(status) => {
                complaint.append(": HTTP ");
                complaint.append(status.as_str());
            },
            HostReply::Failed(reason) => {
                complaint.append(": ");
                complaint.append(reason.as_str());
            },
        }
        SeedSearch { at: self.at + 1, last_error: Some(complaint), ..self }
    }
}

/// The hosts are tried in order, and the first revealed seed wins: where the
/// replies before it are of no use, the search ends with the seed of reply
/// `k`, whatever comes behind.
pub proof fn law_first_valid_seed_wins(
    hosts: Seq<Seq<char>>,
    var: Seq<char>,
    replies: Seq<HostReplyView>,
    k: int,
)
    requires
        0 <= k < replies.len(),
        k < hosts.len(),
        replies[k].valid(),
        forall|i: int| 0 <= i < k ==> !(#[trigger] replies[i]).valid(),
    ensures
        SeedModel::start(hosts, var).after_all(replies).wants() == SeedActionView::Found(
            replies[k]->Seed_0,
            hosts[k],
        ),
        SeedModel::start(hosts, var).after_all(replies).at == k,
        SeedModel::start(hosts, var).after_all(replies).seed is Some,
    decreases replies.len(),
{
    let earlier = replies.drop_last();
    if k < earlier.len() {
        assert forall|i: int| 0 <= i < k implies !(#[trigger] earlier[i]).valid() by {
            assert(earlier[i] == replies[i]);
        }
        law_first_valid_seed_wins(hosts, var, earlier, k);
    } else {
        assert forall|i: int| 0 <= i < earlier.len() implies !(#[trigger] earlier[i]).valid() by {
            assert(earlier[i] == replies[i]);
        }
        law_fails_only_if_every_host_failed(hosts, var, earlier);
    }
    lemma_same_hosts(hosts, var, earlier);
}

proof fn lemma_same_hosts(hosts: Seq<Seq<char>>, var: Seq<char>, replies: Seq<HostReplyView>)
    ensures
        SeedModel::start(hosts, var).after_all(replies).hosts == hosts,
        SeedModel::start(hosts, var).after_all(replies).var == var,
    decreases replies.len(),
{
    if replies.len() > 0 {
        lemma_same_hosts(hosts, var, replies.drop_last());
    }
}

/// Whether none of the first `count` replies is of use.
pub open spec fn all_useless(replies: Seq<HostReplyView>, count: nat) -> bool {
    forall|i: int| 0 <= i < replies.len() && i < count ==> !(#[trigger] replies[i]).valid()
}

/// An error is reported only if every host failed: while no reply is of use,
/// each moves on to the next host, and only behind the last one does the
/// search fail, with the complaint about the last host that was asked.
pub proof fn law_fails_only_if_every_host_failed(
    hosts: Seq<Seq<char>>,
    var: Seq<char>,
    replies: Seq<HostReplyView>,
)
    ensures
        ({
            let state = SeedModel::start(hosts, var).after_all(replies);
            let useless = all_useless(replies, hosts.len());
            let asked = if replies.len() <= hosts.len() {
                replies.len() as int
            } else {
                hosts.len() as int
            };
            &&& useless <==> state.seed is None
            &&& useless && replies.len() < hosts.len() ==> state.wants() == SeedActionView::Get(
                seed_url(hosts[replies.len() as int], var),
            )
            &&& state.wants() is Failed <==> useless && replies.len() >= hosts.len()
            &&& useless ==> state.at == asked
            &&& useless && asked > 0 ==> state.last_error == Some(
                replies[asked - 1].complaint(hosts[asked - 1]),
            )
        }),
    decreases replies.len(),
{
    lemma_same_hosts(hosts, var, replies);
    if replies.len() > 0 {
        let earlier = replies.drop_last();
        let last = replies.len() - 1;
        law_fails_only_if_every_host_failed(hosts, var, earlier);
        lemma_same_hosts(hosts, var, earlier);
        assert(forall|i: int| 0 <= i < earlier.len() ==> #[trigger] earlier[i] == replies[i]);
        assert(replies[last] == replies.last());
        if all_useless(replies, hosts.len()) {
            assert forall|i: int| 0 <= i < earlier.len() && i < hosts.len() implies !(
            #[trigger] earlier[i]).valid() by {
                assert(!replies[i].valid());
            }
        }
        if all_useless(earlier, hosts.len()) && (last < hosts.len() ==> !replies[last].valid()) {
            assert forall|i: int| 0 <= i < replies.len() && i < hosts.len() implies !(
            #[trigger] replies[i]).valid() by {
                if i < last {
                    assert(!earlier[i].valid());
                }
            }
        }
    }
}

} // verus!
