//! What is asked of the RPC endpoint, and how its answers are read.
use crate::bytes::{
    law_decode_of_encode, law_encode_of_decode, le_bytes, le_u64_at, le_value, lemma_le_bytes_len,
    read_le_u64, u64_le_bytes,
};
use crate::chain::{Address, Var};
use vstd::prelude::*;

verus! {

/// Where the round of a miner is written in its account: behind the eight
/// bytes of the discriminator and 536 bytes of other fields.
pub const MINER_ROUND_OFFSET: usize = 544;

/// Asks for the accounts that hold `bytes` at `offset`.
#[derive(Debug, PartialEq, Eq)]
pub struct BytesAt {
    pub offset: usize,
    pub bytes: Vec<u8>,
}

/// What a [`BytesAt`] says, apart from where it is stored.
#[verifier::ext_equal]
pub struct BytesAtView {
    pub offset: nat,
    pub bytes: Seq<u8>,
}

impl View for BytesAt {
    type V = BytesAtView;

    open spec fn view(&self) -> BytesAtView {
        BytesAtView { offset: self.offset as nat, bytes: self.bytes@ }
    }
}

impl BytesAtView {
    /// Whether an account with this data is let through.
    pub open spec fn admits(self, data: Seq<u8>) -> bool {
        &&& self.offset + self.bytes.len() <= data.len()
        &&& data.subrange(self.offset as int, (self.offset + self.bytes.len()) as int)
            == self.bytes
    }
}

/// The views of a list of filters, in order.
pub open spec fn filter_views(filters: Seq<BytesAt>) -> Seq<BytesAtView> {
    Seq::new(filters.len(), |i: int| filters[i]@)
}

/// Lets the accounts of one type through.
pub open spec fn type_filter(discriminator: u8) -> BytesAtView {
    BytesAtView { offset: 0, bytes: seq![discriminator] }
}

/// Lets the miners through whose last round is `round_id`.
pub open spec fn round_filter(round_id: u64) -> BytesAtView {
    BytesAtView { offset: MINER_ROUND_OFFSET as nat, bytes: le_bytes(round_id as nat, 8) }
}

/// The filters with which to ask for every program account of the type with
/// this discriminator, narrowed by `filters`.
pub fn get_program_accounts(discriminator: u8, filters: Vec<BytesAt>) -> (all: Vec<BytesAt>)
    ensures
        filter_views(all@) == seq![type_filter(discriminator)] + filter_views(filters@),
{
    let mut bytes: Vec<u8> = Vec::new();
    bytes.push(discriminator);
    let first = BytesAt { offset: 0, bytes };
    assert(first@ =~= type_filter(discriminator));
    let mut all: Vec<BytesAt> = Vec::new();
    all.push(first);
    let mut narrowing = filters;
    all.append(&mut narrowing);
    assert(filter_views(all@) =~= seq![type_filter(discriminator)] + filter_views(filters@));
    all
}

/// The filters with which to ask for the miners whose last round is
/// `round_id`. The discriminator is that of a miner.
pub fn get_miners_participating(discriminator: u8, round_id: u64) -> (all: Vec<BytesAt>)
    ensures
        filter_views(all@) == seq![type_filter(discriminator), round_filter(round_id)],
{
    let encoded = u64_le_bytes(round_id);
    let mut bytes: Vec<u8> = Vec::new();
    let mut i: usize = 0;
    while i < 8
        invariant
            i <= 8,
            bytes@ == encoded@.take(i as int),
        decreases 8 - i,
    {
        bytes.push(encoded[i]);
        i = i + 1;
        assert(encoded@.take(i as int) =~= encoded@.take(i - 1).push(encoded@[i - 1]));
    }
    assert(encoded@.take(8) =~= encoded@);
    let narrowing = BytesAt { offset: MINER_ROUND_OFFSET, bytes };
    assert(narrowing@ =~= round_filter(round_id));
    let mut filters: Vec<BytesAt> = Vec::new();
    filters.push(narrowing);
    let ghost narrowed = filters@;
    let all = get_program_accounts(discriminator, filters);
    assert(filter_views(narrowed) =~= seq![round_filter(round_id)]);
    assert(filter_views(all@) =~= seq![type_filter(discriminator), round_filter(round_id)]);
    all
}

/// Why the accounts of the program could not be fetched.
pub fn program_accounts_failed_text(error: &str) -> (text: String)
    ensures
        text@ == "getProgramAccounts failed (does your RPC support it?): "@ + error@,
{
    let mut text = String::from_str("getProgramAccounts failed (does your RPC support it?): ");
    text.append(error);
    text
}

/// The accounts that could be read, in order.
pub open spec fn readable<T>(accounts: Seq<(Address, Option<T>)>) -> Seq<(Address, T)>
    decreases accounts.len(),
{
    if accounts.len() == 0 {
        Seq::empty()
    } else {
        let earlier = readable(accounts.drop_last());
        match accounts.last().1 {
            Some(account) => earlier.push((accounts.last().0, account)),
            None => earlier,
        }
    }
}

/// Drops the accounts that could not be read.
pub fn keep_readable<T>(accounts: Vec<(Address, Option<T>)>) -> (kept: Vec<(Address, T)>)
    ensures
        kept@ == readable(accounts@),
{
    let ghost all = accounts@;
    let mut kept: Vec<(Address, T)> = Vec::new();
    for entry in iter: accounts
        invariant
            iter.seq() == all,
            kept@ == readable(all.take(iter.index() as int)),
    {
        proof {
            let i = iter.index() as int;
            assert(all.take(i + 1).drop_last() =~= all.take(i));
            assert(all.take(i + 1).last() == all[i]);
        }
        let (address, account) = entry;
        if let Some(account) = account {
            kept.push((address, account));
        }
    }
    assert(all.take(all.len() as int) =~= all);
    kept
}

/// The clock sysvar could not be read.
#[derive(Clone, Copy, Debug, PartialEq, Eq)]
pub struct MalformedClock;

/// Calls `bincode::deserialize` for `Clock`, five little-endian numbers of
/// which the first is the slot, and ignores bytes behind them. It fails
/// exactly where the bytes run out.
#[verifier::external_body]
fn read_clock(sysvar: &[u8]) -> (slot: Option<u64>)
    ensures
        slot is Some <==> sysvar@.len() >= 40,
        slot matches Some(slot) ==> slot == le_u64_at(sysvar@, 0),
{
    bincode::deserialize::<solana_program::clock::Clock>(sysvar).ok().map(|clock| clock.slot)
}

/// Reads the current slot from the data of the clock sysvar.
pub fn get_clock(sysvar: &[u8]) -> (slot: Result<u64, MalformedClock>)
    ensures
        slot is Ok <==> sysvar@.len() >= 40,
        slot matches Ok(slot) ==> slot == le_u64_at(sysvar@, 0),
        slot matches Ok(slot) ==> slot == le_value(sysvar@.subrange(0, 8)),
{
    match read_clock(sysvar) {
        Some(slot) => Ok(slot),
        None => Err(MalformedClock),
    }
}

/// The account is not that of an entropy variable.
#[derive(Clone, Copy, Debug, PartialEq, Eq)]
pub struct MalformedVar;

/// Whether `data` is that of an entropy variable: the discriminator zero, and
/// 232 bytes of fields behind the eight of the discriminator.
pub open spec fn is_var_data(data: Seq<u8>) -> bool {
    data.len() == 240 && data[0] == 0
}

/// The fields of an entropy variable that the crank needs: its slot hash, and
/// the bytes of `samples` and of `end_at`.
#[derive(Debug, PartialEq, Eq)]
pub struct VarFields {
    pub slot_hash: [u8; 32],
    pub samples: [u8; 8],
    pub end_at: [u8; 8],
}

/// Whether these are the fields that `data` holds.
pub open spec fn fields_of(fields: VarFields, data: Seq<u8>) -> bool {
    &&& fields.slot_hash@ == data.subrange(144, 176)
    &&& fields.samples@ == data.subrange(208, 216)
    &&& fields.end_at@ == data.subrange(232, 240)
}

/// Calls `AccountDeserialize::try_from_bytes` for the `Var` of `entropy_api`,
/// which looks at the bytes behind the discriminator in place. It fails where
/// the discriminator or the length is wrong. It also fails where those bytes
/// do not lie at a multiple of eight in memory, which the data does not tell:
/// so success is not promised. It panics on no data, and where a variable ends
/// inside its discriminator, which is left out.
#[verifier::external_body]
fn read_var(data: &[u8]) -> (fields: Option<VarFields>)
    requires
        data@.len() > 0,
        data@[0] == 0 ==> data@.len() >= 8,
    ensures
        fields matches Some(fields) ==> is_var_data(data@) && fields_of(fields, data@),
{
    <entropy_api::state::Var as steel::AccountDeserialize>::try_from_bytes(data).ok().map(|var|
        VarFields {
            slot_hash: var.slot_hash,
            samples: var.samples.to_ne_bytes(),
            end_at: var.end_at.to_ne_bytes(),
        })
}

/// The variable with these fields, whose numbers are little-endian.
pub fn decode_var(fields: &VarFields) -> (var: Var)
    ensures
        var.slot_hash == fields.slot_hash,
        var.samples == le_value(fields.samples@),
        var.end_at == le_value(fields.end_at@),
{
    let samples = read_le_u64(fields.samples.as_slice(), 0);
    let end_at = read_le_u64(fields.end_at.as_slice(), 0);
    assert(fields.samples@.subrange(0, 8) =~= fields.samples@);
    assert(fields.end_at@.subrange(0, 8) =~= fields.end_at@);
    Var { slot_hash: fields.slot_hash, samples, end_at }
}

/// What reading an account comes to, given the fields that were found in it,
/// if any were.
pub fn var_of_fields(fields: Option<VarFields>) -> (var: Result<Var, MalformedVar>)
    ensures
        var is Ok <==> fields is Some,
        var matches Ok(var) ==> {
            &&& var.slot_hash == fields->0.slot_hash
            &&& var.samples == le_value(fields->0.samples@)
            &&& var.end_at == le_value(fields->0.end_at@)
        },
{
    match fields {
        Some(fields) => Ok(decode_var(&fields)),
        None => Err(MalformedVar),
    }
}

/// Reads an entropy variable from the data of its account. Other accounts are
/// refused. So is the data of a variable that does not lie at a multiple of
/// eight in memory, which the data does not tell; [`var_of_fields`] says what
/// comes of either answer.
pub fn get_var(data: &[u8]) -> (var: Result<Var, MalformedVar>)
    requires
        data@.len() > 0,
        data@[0] == 0 ==> data@.len() >= 8,
    ensures
        !is_var_data(data@) ==> var is Err,
        var matches Ok(var) ==> {
            &&& var.slot_hash@ == data@.subrange(144, 176)
            &&& var.samples == le_u64_at(data@, 208)
            &&& var.end_at == le_u64_at(data@, 232)
            &&& var.samples == le_value(data@.subrange(208, 216))
            &&& var.end_at == le_value(data@.subrange(232, 240))
            &&& data@.len() == 240
            &&& data@[0] == 0
        },
{
    var_of_fields(read_var(data))
}

/// Only accounts of the wanted type come back, and all of them do.
pub proof fn law_type_filter_tells_types_apart(discriminator: u8, data: Seq<u8>)
    ensures
        type_filter(discriminator).admits(data) <==> data.len() > 0 && data[0] == discriminator,
{
    if data.len() > 0 {
        assert(data.subrange(0, 1)[0] == data[0]);
        if data[0] == discriminator {
            assert(data.subrange(0, 1) =~= seq![discriminator]);
        }
        assert(seq![discriminator][0] == discriminator);
    }
}

/// Only the miners whose last round is `round_id` come back, and all of them
/// do.
pub proof fn law_round_filter_finds_participants(round_id: u64, data: Seq<u8>)
    ensures
        round_filter(round_id).admits(data) <==> data.len() >= MINER_ROUND_OFFSET + 8
            && le_u64_at(data, MINER_ROUND_OFFSET as int) == round_id,
{
    let at = MINER_ROUND_OFFSET as int;
    lemma_le_bytes_len(round_id as nat, 8);
    if data.len() >= at + 8 {
        let field = data.subrange(at, at + 8);
        law_encode_of_decode(field);
        assert(round_id < crate::bytes::byte_range(8)) by {
            reveal_with_fuel(crate::bytes::byte_range, 9);
        }
        law_decode_of_encode(round_id as nat, 8);
    }
}

} // verus!
