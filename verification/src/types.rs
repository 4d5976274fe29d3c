//! The values a call of the contract takes and gives: addresses, token
//! identifiers, payments, the errors that refuse a call, and the effects on the
//! chain that an accepted call asks for.
use crate::amount::Amount;
use multiversx_sc::chain_core::token_identifier_util::validate_token_identifier;
use vstd::prelude::*;

verus! {

/// Whether two byte strings are equal.
pub fn bytes_equal(a: &Vec<u8>, b: &Vec<u8>) -> (r: bool)
    ensures
        r == (a@ == b@),
{
    let r = *a == *b;
    proof {
        if r {
            assert(a@ =~= b@);
        }
    }
    r
}

/// A copy of a byte string.
pub fn bytes_copy(a: &Vec<u8>) -> (r: Vec<u8>)
    ensures
        r@ == a@,
{
    let r = a.clone();
    assert(r@ =~= a@);
    r
}

/// An account on the chain, by its bytes.
#[derive(Debug)]
pub struct Address {
    bytes: Vec<u8>,
}

impl View for Address {
    type V = Seq<u8>;

    closed spec fn view(&self) -> Seq<u8> {
        self.bytes@
    }
}

impl Address {
    /// The address with these bytes.
    pub fn new(bytes: Vec<u8>) -> (r: Address)
        ensures
            r@ == bytes@,
    {
        Address { bytes }
    }

    /// The address's bytes.
    pub fn to_bytes(&self) -> (r: Vec<u8>)
        ensures
            r@ == self@,
    {
        bytes_copy(&self.bytes)
    }

    /// Whether the two addresses are the same.
    pub fn same_as(&self, other: &Address) -> (r: bool)
        ensures
            r == (self@ == other@),
    {
        bytes_equal(&self.bytes, &other.bytes)
    }

    /// A copy of the address.
    pub fn duplicate(&self) -> (r: Address)
        ensures
            r@ == self@,
    {
        Address { bytes: bytes_copy(&self.bytes) }
    }
}

/// The rule that a token identifier of the chain follows: a ticker of 3 to 10
/// upper-case letters or digits, a dash, and 6 lower-case letters or digits.
pub open spec fn is_valid_esdt_identifier(s: Seq<u8>) -> bool {
    &&& 10 <= s.len() <= 17
    &&& forall|i: int|
        0 <= i < s.len() - 7 ==> (65 <= #[trigger] s[i] <= 90 || 48 <= s[i] <= 57)
    &&& s[s.len() - 7] == 45
    &&& forall|i: int|
        s.len() - 6 <= i < s.len() ==> (97 <= #[trigger] s[i] <= 122 || 48 <= s[i] <= 57)
}

/// `token_identifier_util::validate_token_identifier` of the MultiversX chain
/// core, the check behind `TokenIdentifier::is_valid_esdt_identifier`: whether the
/// bytes follow the identifier rule.
#[verifier::external_body]
fn validate_esdt_identifier(bytes: &Vec<u8>) -> (r: bool)
    ensures
        r == is_valid_esdt_identifier(bytes@),
{
    validate_token_identifier(bytes.as_slice())
}

/// The identifier of a token, by its bytes.
#[derive(Debug)]
pub struct TokenId {
    bytes: Vec<u8>,
}

impl View for TokenId {
    type V = Seq<u8>;

    closed spec fn view(&self) -> Seq<u8> {
        self.bytes@
    }
}

impl TokenId {
    /// The identifier with these bytes.
    pub fn new(bytes: Vec<u8>) -> (r: TokenId)
        ensures
            r@ == bytes@,
    {
        TokenId { bytes }
    }

    /// The empty identifier, which storage yields where none was set.
    pub fn empty() -> (r: TokenId)
        ensures
            r@ == Seq::<u8>::empty(),
    {
        TokenId { bytes: Vec::new() }
    }

    /// The identifier's bytes.
    pub fn to_bytes(&self) -> (r: Vec<u8>)
        ensures
            r@ == self@,
    {
        bytes_copy(&self.bytes)
    }

    /// Whether the two identifiers are the same.
    pub fn same_as(&self, other: &TokenId) -> (r: bool)
        ensures
            r == (self@ == other@),
    {
        bytes_equal(&self.bytes, &other.bytes)
    }

    /// A copy of the identifier.
    pub fn duplicate(&self) -> (r: TokenId)
        ensures
            r@ == self@,
    {
        TokenId { bytes: bytes_copy(&self.bytes) }
    }

    /// Whether the identifier is a valid ESDT token identifier.
    pub fn is_valid_esdt_identifier(&self) -> (r: bool)
        ensures
            r == is_valid_esdt_identifier(self@),
    {
        validate_esdt_identifier(&self.bytes)
    }
}

/// The single token transfer that comes with a call.
#[derive(Debug)]
pub struct Payment {
    pub token_identifier: TokenId,
    pub token_nonce: u64,
    pub amount: Amount,
}

/// Why a call was refused. A refused call changes nothing.
#[derive(Debug, PartialEq, Eq, Structural, Clone, Copy)]
pub enum ContractError {
    /// The endpoint is for the owner alone.
    OnlyOwner,
    /// The caller is neither the owner nor a manager.
    CallerNotManager,
    /// No user is registered for the address.
    UserNotFound,
    /// The user's trust score is at the ban threshold.
    TrustBanned,
    /// The payment, or the token to withdraw, is the wrong token.
    InvalidToken,
    /// The amount is zero, too small, or more than the stake.
    InvalidAmount,
    /// The collection is not a valid token identifier.
    NotAValidToken,
    /// The address given as stake contract is not a smart contract.
    InvalidContract,
    /// The payment is in neither of the two stake tokens.
    InvalidStakeToken,
    /// The caller has no stake in the token.
    NoStakeByUser,
    /// The caller never staked, so nothing is locked or unlocked.
    NothingToUnlock,
    /// The stake is still locked.
    StakeLocked,
    /// The caller has no reward to claim.
    NoRewardsToClaim,
    /// A reward was paid into a pool whose total stake is zero.
    DivisionByZero,
    /// A renewal of a virtual stake is due, but no stake contract was set.
    StakeContractNotSet,
}

/// What an accepted call asks the chain to do, in the order given.
#[derive(Debug)]
pub enum Effect {
    /// Burn this much of the token held by the contract.
    Burn { token: TokenId, nonce: u64, amount: Amount },
    /// Send this much of the token from the contract to the address.
    Send { to: Address, token: TokenId, nonce: u64, amount: Amount },
    /// Call `renewVirtualStake(entity, user, trust)` on the stake contract.
    RenewVirtualStake { contract: Address, entity: Address, user: Address, trust: u64 },
}

/// An [`Effect`] as plain values.
pub enum EffectView {
    Burn { token: Seq<u8>, nonce: u64, amount: nat },
    Send { to: Seq<u8>, token: Seq<u8>, nonce: u64, amount: nat },
    RenewVirtualStake { contract: Seq<u8>, entity: Seq<u8>, user: Seq<u8>, trust: u64 },
}

impl View for Effect {
    type V = EffectView;

    open spec fn view(&self) -> EffectView {
        match self {
            Effect::Burn { token, nonce, amount } => EffectView::Burn {
                token: token@,
                nonce: *nonce,
                amount: amount@,
            },
            Effect::Send { to, token, nonce, amount } => EffectView::Send {
                to: to@,
                token: token@,
                nonce: *nonce,
                amount: amount@,
            },
            Effect::RenewVirtualStake { contract, entity, user, trust } =>
                EffectView::RenewVirtualStake {
                contract: contract@,
                entity: entity@,
                user: user@,
                trust: *trust,
            },
        }
    }
}

/// The views of a list of effects.
pub open spec fn effects_view(effects: Seq<Effect>) -> Seq<EffectView> {
    effects.map_values(|e: Effect| e@)
}

/// Refuses the call unless the caller is the owner.
pub fn require_owner(caller: &Address, owner: &Address) -> (r: Result<(), ContractError>)
    ensures
        r is Ok <==> caller@ == owner@,
        r matches Err(e) ==> e == ContractError::OnlyOwner,
{
    if caller.same_as(owner) {
        Ok(())
    } else {
        Err(ContractError::OnlyOwner)
    }
}

} // verus!
