//! The search for a seed: which host is asked, whose seed is taken, and when
//! there is none.
use crate::chain::lemma_zeros;
use crate::entropy::{
    all_useless, law_fails_only_if_every_host_failed, law_first_valid_seed_wins, HostReplyView,
    SeedActionView, SeedModel,
};
use vstd::prelude::*;

verus! {

/// Whether a reply holds a seed that was revealed: one that is not all zero.
pub open spec fn reveals(reply: HostReplyView) -> bool {
    reply matches HostReplyView::Seed(seed) && exists|b: int|
        0 <= b < 32 && #[trigger] seed@[b] != 0
}

proof fn lemma_reveals(reply: HostReplyView)
    ensures
        reveals(reply) <==> reply.valid(),
{
    if let HostReplyView::Seed(seed) = reply {
        lemma_zeros(seed@);
    }
}

/// The hosts are asked in order, one reply each, and the first seed that is not
/// all zero is taken, with the host that served it, whatever comes behind.
pub proof fn law_first_revealed_seed_is_taken(
    hosts: Seq<Seq<char>>,
    var: Seq<char>,
    replies: Seq<HostReplyView>,
    k: int,
    seed: [u8; 32],
)
    requires
        0 <= k < replies.len(),
        k < hosts.len(),
        replies[k] == HostReplyView::Seed(seed),
        reveals(replies[k]),
        forall|i: int| 0 <= i < k ==> !reveals(#[trigger] replies[i]),
    ensures
        SeedModel::start(hosts, var).after_all(replies).wants() == SeedActionView::Found(
            seed,
            hosts[k],
        ),
{
    lemma_reveals(replies[k]);
    assert forall|i: int| 0 <= i < k implies !(#[trigger] replies[i]).valid() by {
        lemma_reveals(replies[i]);
    }
    law_first_valid_seed_wins(hosts, var, replies, k);
}

/// While no seed was revealed, the next host is asked, at its address for the
/// variable. Behind the last host the search fails, and says why that host was
/// of no use, or that there was none.
pub proof fn law_next_host_is_asked_until_there_is_none(
    hosts: Seq<Seq<char>>,
    var: Seq<char>,
    replies: Seq<HostReplyView>,
)
    requires
        forall|i: int| 0 <= i < replies.len() ==> !reveals(#[trigger] replies[i]),
        replies.len() <= hosts.len(),
    ensures
        ({
            let count = replies.len() as int;
            SeedModel::start(hosts, var).after_all(replies).wants() == if count < hosts.len() {
                SeedActionView::Get("https://"@ + hosts[count] + "/var/"@ + var + "/seed"@)
            } else {
                SeedActionView::Failed(
                    "all entropy hosts failed for var "@ + var + ": "@ + if count == 0 {
                        "no hosts configured"@
                    } else {
                        hosts[count - 1] + match replies[count - 1] {
                            HostReplyView::Seed(_) =>
                                ": returned all-zero seed (not yet revealed)"@,
                            HostReplyView::Refused(status) => ": HTTP "@ + status,
                            HostReplyView::Failed(reason) => ": "@ + reason,
                        }
                    },
                )
            }
        }),
{
    let count = replies.len() as int;
    let state = SeedModel::start(hosts, var).after_all(replies);
    assert(all_useless(replies, hosts.len())) by {
        assert forall|i: int| 0 <= i < replies.len() && i < hosts.len() implies !(
        #[trigger] replies[i]).valid() by {
            lemma_reveals(replies[i]);
        }
    }
    law_fails_only_if_every_host_failed(hosts, var, replies);
    lemma_same_search(SeedModel::start(hosts, var), replies);
    if count > 0 {
        let host = hosts[count - 1];
        match replies[count - 1] {
            HostReplyView::Refused(status) => {
                assert(host + ": HTTP "@ + status =~= host + (": HTTP "@ + status));
            },
            HostReplyView::Failed(reason) => {
                assert(host + ": "@ + reason =~= host + (": "@ + reason));
            },
            _ => {},
        }
    } else {
        assert(state == SeedModel::start(hosts, var));
    }
}

proof fn lemma_same_search(state: SeedModel, replies: Seq<HostReplyView>)
    ensures
        state.after_all(replies).hosts == state.hosts,
        state.after_all(replies).var == state.var,
    decreases replies.len(),
{
    if replies.len() > 0 {
        lemma_same_search(state, replies.drop_last());
    }
}

} // verus!
