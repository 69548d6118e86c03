//! The on-chain values that the crank reads and the instructions it sends.
use vstd::prelude::*;

verus! {

/// The address of an account: 32 raw bytes.
pub type Address = [u8; 32];

/// The signature of a transaction: 64 raw bytes.
pub type Signature = [u8; 64];

/// The address that stands for none: all zero.
pub const DEFAULT_ADDRESS: Address = [
    0, 0, 0, 0, 0, 0, 0, 0, 0, 0, 0, 0, 0, 0, 0, 0, 0, 0, 0, 0, 0, 0, 0, 0, 0, 0, 0, 0, 0, 0, 0, 0,
];

/// 32 zero bytes: the hash or seed that is not set yet.
pub open spec fn zeros() -> Seq<u8> {
    Seq::new(32, |i: int| 0u8)
}

pub proof fn lemma_zeros(value: Seq<u8>)
    requires
        value.len() == 32,
    ensures
        value == zeros() <==> forall|i: int| 0 <= i < 32 ==> #[trigger] value[i] == 0,
{
    if forall|i: int| 0 <= i < 32 ==> #[trigger] value[i] == 0 {
        assert(value =~= zeros());
    }
    if value == zeros() {
        assert(forall|i: int| 0 <= i < 32 ==> #[trigger] zeros()[i] == 0);
    }
}

/// The board: which round is being played, and when its mining ends.
#[derive(Clone, Copy, Debug, PartialEq, Eq)]
pub struct Board {
    pub round_id: u64,
    pub start_slot: u64,
    /// `u64::MAX` until the first deploy of the round.
    pub end_slot: u64,
}

/// The part of the program's configuration that a reset needs.
#[derive(Clone, Copy, Debug, PartialEq, Eq)]
pub struct Config {
    pub var_address: Address,
    pub fee_collector: Address,
}

/// The entropy variable of a round.
#[derive(Clone, Copy, Debug, PartialEq, Eq)]
pub struct Var {
    /// All zero while the program has not sampled a slot hash.
    pub slot_hash: [u8; 32],
    pub samples: u64,
    pub end_at: u64,
}

/// A round, with the lamports deployed on each of its squares.
#[derive(Clone, Debug, PartialEq, Eq)]
pub struct Round {
    pub id: u64,
    pub expires_at: u64,
    pub rent_payer: Address,
    pub deployed: Vec<u64>,
}

/// What a [`Round`] says, apart from where it is stored.
#[verifier::ext_equal]
pub struct RoundView {
    pub id: u64,
    pub expires_at: u64,
    pub rent_payer: Address,
    pub deployed: Seq<u64>,
}

impl View for Round {
    type V = RoundView;

    open spec fn view(&self) -> RoundView {
        RoundView {
            id: self.id,
            expires_at: self.expires_at,
            rent_payer: self.rent_payer,
            deployed: self.deployed@,
        }
    }
}

impl Round {
    /// A second round that says the same.
    pub fn duplicate(&self) -> (copy: Round)
        ensures
            copy@ == self@,
    {
        let mut deployed: Vec<u64> = Vec::new();
        let mut i: usize = 0;
        while i < self.deployed.len()
            invariant
                i <= self.deployed.len(),
                deployed@ == self.deployed@.take(i as int),
            decreases self.deployed.len() - i,
        {
            deployed.push(self.deployed[i]);
            i = i + 1;
            assert(self.deployed@.take(i as int) =~= self.deployed@.take(i - 1).push(
                self.deployed@[i - 1],
            ));
        }
        assert(deployed@ =~= self.deployed@);
        Round {
            id: self.id,
            expires_at: self.expires_at,
            rent_payer: self.rent_payer,
            deployed,
        }
    }
}

/// A miner: on each square, what it deployed in its last round, and how much
/// was deployed there before it.
#[derive(Debug, PartialEq, Eq)]
pub struct Miner {
    pub authority: Address,
    pub round_id: u64,
    pub checkpoint_id: u64,
    pub deployed: Vec<u64>,
    pub cumulative: Vec<u64>,
}

/// An account that an instruction names.
#[derive(Clone, Copy, Debug, PartialEq, Eq)]
pub struct AccountMeta {
    pub pubkey: Address,
    pub is_signer: bool,
    pub is_writable: bool,
}

/// One instruction of a transaction.
#[derive(Debug, PartialEq, Eq)]
pub struct Instruction {
    pub program_id: Address,
    pub accounts: Vec<AccountMeta>,
    pub data: Vec<u8>,
}

/// What an [`Instruction`] says, apart from where it is stored.
#[verifier::ext_equal]
pub struct InstructionView {
    pub program_id: Address,
    pub accounts: Seq<AccountMeta>,
    pub data: Seq<u8>,
}

impl View for Instruction {
    type V = InstructionView;

    open spec fn view(&self) -> InstructionView {
        InstructionView {
            program_id: self.program_id,
            accounts: self.accounts@,
            data: self.data@,
        }
    }
}

/// The views of a list of instructions, in order.
pub open spec fn views(instructions: Seq<Instruction>) -> Seq<InstructionView> {
    Seq::new(instructions.len(), |i: int| instructions[i]@)
}

pub proof fn lemma_views_push(instructions: Seq<Instruction>, last: Instruction)
    ensures
        views(instructions.push(last)) == views(instructions).push(last@),
{
    assert(views(instructions.push(last)) =~= views(instructions).push(last@));
}

impl Instruction {
    /// A second instruction that says the same.
    pub fn duplicate(&self) -> (copy: Instruction)
        ensures
            copy@ == self@,
    {
        let mut accounts: Vec<AccountMeta> = Vec::new();
        let mut i: usize = 0;
        while i < self.accounts.len()
            invariant
                i <= self.accounts.len(),
                accounts@ == self.accounts@.take(i as int),
            decreases self.accounts.len() - i,
        {
            accounts.push(self.accounts[i]);
            i = i + 1;
            assert(self.accounts@.take(i as int) =~= self.accounts@.take(i - 1).push(
                self.accounts@[i - 1],
            ));
        }
        let mut data: Vec<u8> = Vec::new();
        let mut j: usize = 0;
        while j < self.data.len()
            invariant
                j <= self.data.len(),
                data@ == self.data@.take(j as int),
            decreases self.data.len() - j,
        {
            data.push(self.data[j]);
            j = j + 1;
            assert(self.data@.take(j as int) =~= self.data@.take(j - 1).push(
                self.data@[j - 1],
            ));
        }
        assert(accounts@ =~= self.accounts@);
        assert(data@ =~= self.data@);
        Instruction { program_id: self.program_id, accounts, data }
    }
}

/// Whether two 32-byte values are the same.
pub fn same_bytes(a: &[u8; 32], b: &[u8; 32]) -> (same: bool)
    ensures
        same == (*a == *b),
{
    let mut i: usize = 0;
    while i < 32
        invariant
            i <= 32,
            a@.take(i as int) == b@.take(i as int),
        decreases 32 - i,
    {
        if a[i] != b[i] {
            assert(a@[i as int] != b@[i as int]);
            return false;
        }
        i = i + 1;
        assert(a@.take(i as int) =~= b@.take(i as int)) by {
            assert forall|k: int| 0 <= k < i implies a@[k] == b@[k] by {
                if k < i - 1 {
                    assert(a@.take(i - 1)[k] == b@.take(i - 1)[k]);
                }
            }
        }
    }
    assert(a@.take(32) =~= a@);
    assert(b@.take(32) =~= b@);
    assert(*a =~= *b);
    true
}

/// Whether a 32-byte value is all zero.
pub fn is_zero(value: &[u8; 32]) -> (zero: bool)
    ensures
        zero == (value@ == zeros()),
        zero <==> forall|i: int| 0 <= i < 32 ==> #[trigger] value@[i] == 0,
{
    proof {
        lemma_zeros(value@);
    }
    let blank: [u8; 32] = [0u8;32];
    assert(blank@ =~= zeros());
    proof {
        if value@ == blank@ {
            assert(*value =~= blank);
        }
    }
    same_bytes(value, &blank)
}

} // verus!
