//! The staking module: its storage is laid out, and its three endpoints are
//! accepted but do nothing yet.
use crate::address_map::AddressMap;
use crate::amount::Amount;
use crate::types::TokenId;
use vstd::prelude::*;

verus! {

/// The endpoints of the staking module.
pub trait StakeModule {
    /// Configures staking.
    fn configure_staking_endpoint(&mut self);

    /// Stakes.
    fn stake_endpoint(&mut self);

    /// Unstakes.
    fn unstake_endpoint(&mut self);
}

/// The storage of the staking module.
pub struct StakeStorage {
    pub stake_token: TokenId,
    pub stake_min_amount: Amount,
    pub stake_lock_time: u64,
    pub staked_total_amount: Amount,
    pub staked_amount: AddressMap<Amount>,
}

impl StakeStorage {
    /// Empty storage: no token, no minimum, no lock time, nothing staked.
    pub fn new() -> (r: StakeStorage)
        ensures
            r.stake_token@ == Seq::<u8>::empty(),
            r.stake_min_amount@ == 0,
            r.stake_lock_time == 0,
            r.staked_total_amount@ == 0,
            r.staked_amount@ == Seq::<(Seq<u8>, Amount)>::empty(),
            r.staked_amount.wf(),
    {
        StakeStorage {
            stake_token: TokenId::empty(),
            stake_min_amount: Amount::zero(),
            stake_lock_time: 0,
            staked_total_amount: Amount::zero(),
            staked_amount: AddressMap::new(),
        }
    }
}

impl StakeModule for StakeStorage {
    /// Accepted; changes nothing.
    fn configure_staking_endpoint(&mut self)
        ensures
            *final(self) == *old(self),
    {
    }

    /// Accepted; changes nothing.
    fn stake_endpoint(&mut self)
        ensures
            *final(self) == *old(self),
    {
    }

    /// Accepted; changes nothing.
    fn unstake_endpoint(&mut self)
        ensures
            *final(self) == *old(self),
    {
    }
}

} // verus!
