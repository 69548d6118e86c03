//! What is asked of the endpoint, and what is kept of its answers.
use crate::chain::Address;
use crate::rpc::{readable, round_filter, type_filter};
use vstd::prelude::*;

verus! {

/// An account is kept exactly where it could be read, as it is.
pub proof fn law_readable_account_is_kept<T>(address: Address, account: T)
    ensures
        readable(seq![(address, Some(account))]) == seq![(address, account)],
        readable(seq![(address, None::<T>)]) == Seq::<(Address, T)>::empty(),
{
    let some = seq![(address, Some(account))];
    let none = seq![(address, None::<T>)];
    assert(some.drop_last() =~= Seq::<(Address, Option<T>)>::empty());
    assert(none.drop_last() =~= Seq::<(Address, Option<T>)>::empty());
    assert(readable(some.drop_last()) == Seq::<(Address, T)>::empty());
    assert(readable(none.drop_last()) == Seq::<(Address, T)>::empty());
    assert(some.last() == (address, Some(account)));
    assert(none.last() == (address, None::<T>));
    assert(readable(some) =~= seq![(address, account)]);
}

/// Each account is kept or dropped by itself, in order: what is kept of two
/// lists is what is kept of the first and then what is kept of the second.
pub proof fn law_accounts_are_kept_one_by_one<T>(
    a: Seq<(Address, Option<T>)>,
    b: Seq<(Address, Option<T>)>,
)
    ensures
        readable(a + b) == readable(a) + readable(b),
    decreases b.len(),
{
    if b.len() == 0 {
        assert(a + b =~= a);
        assert(readable(a) + readable(b) =~= readable(a));
    } else {
        law_accounts_are_kept_one_by_one(a, b.drop_last());
        assert((a + b).drop_last() =~= a + b.drop_last());
        assert((a + b).last() == b.last());
        assert(readable(a + b) =~= readable(a) + readable(b));
    }
}

/// The filters look at the very places: the type of an account in its first
/// byte, and the last round of a miner in the eight bytes from 544 on.
pub proof fn law_filters_look_at_their_places(discriminator: u8, round_id: u64)
    ensures
        type_filter(discriminator).offset == 0,
        type_filter(discriminator).bytes == seq![discriminator],
        round_filter(round_id).offset == 544,
        round_filter(round_id).bytes == crate::bytes::le_bytes(round_id as nat, 8),
{
}

} // verus!
