//! The earn pools: accounts stake the core stake token or the LP stake token for
//! a locked period, rewards in the core token are paid into a pool, and each
//! staker may claim its share.
//!
//! Each pool keeps a reward per staked token (scaled by `10^18`), which grows
//! with every payment by the payment divided by the pool's total stake. Each
//! staker keeps a tally, so that its stake times the reward per token, minus the
//! tally, is what it has earned and not yet claimed.
use crate::address_map::{keys_of, lemma_lookup_at, lemma_stored, lookup, AddressMap};
use crate::amount::{Amount, SignedAmount};
use crate::config::{lemma_position_of, position_of, Config, ConfigModule};
use crate::types::{
    effects_view, require_owner, Address, ContractError, Effect, EffectView, Payment, TokenId,
};
use vstd::arithmetic::power::pow;
use vstd::prelude::*;

verus! {

/// The decimals by which the reward per token is scaled.
pub const PRECISION: u32 = 18;

/// One of the two pools.
#[derive(Debug, PartialEq, Eq, Structural, Clone, Copy)]
pub enum Pool {
    /// The pool of the core stake token.
    Core,
    /// The pool of the LP stake token.
    Lp,
}

/// A staker's position in one pool, as plain values.
pub struct StakeView {
    pub amount: nat,
    pub reward_tally: int,
}

/// A staker's positions and lock, as plain values.
pub struct EarnerView {
    pub unlock_time: u64,
    pub core: StakeView,
    pub lp: StakeView,
}

/// One pool, as plain values.
pub struct PoolView {
    pub stake_token: Seq<u8>,
    pub stake_total: nat,
    pub reward_per_token: nat,
}

/// The earn state, as plain values; the stakers are read through
/// [`EarnModule::earner`].
pub struct EarnView {
    pub lock_time_seconds: u64,
    pub core: PoolView,
    pub lp: PoolView,
}

/// A staker's position in one pool.
#[derive(Debug)]
pub struct Stake {
    amount: Amount,
    reward_tally: SignedAmount,
}

impl View for Stake {
    type V = StakeView;

    closed spec fn view(&self) -> StakeView {
        StakeView { amount: self.amount@, reward_tally: self.reward_tally@ }
    }
}

/// A staker's positions and lock.
#[derive(Debug)]
pub struct Earner {
    unlock_time: u64,
    core: Stake,
    lp: Stake,
}

impl View for Earner {
    type V = EarnerView;

    closed spec fn view(&self) -> EarnerView {
        EarnerView { unlock_time: self.unlock_time, core: self.core@, lp: self.lp@ }
    }
}

/// What storage reads for an account that never staked.
pub open spec fn zero_earner() -> EarnerView {
    EarnerView {
        unlock_time: 0,
        core: StakeView { amount: 0, reward_tally: 0 },
        lp: StakeView { amount: 0, reward_tally: 0 },
    }
}

/// The position of a staker in pool `p`.
pub open spec fn stake_of(e: EarnerView, p: Pool) -> StakeView {
    match p {
        Pool::Core => e.core,
        Pool::Lp => e.lp,
    }
}

/// The staker with its position in pool `p` replaced.
pub open spec fn with_stake(e: EarnerView, p: Pool, s: StakeView) -> EarnerView {
    match p {
        Pool::Core => EarnerView { core: s, ..e },
        Pool::Lp => EarnerView { lp: s, ..e },
    }
}

/// Pool `p`.
pub open spec fn pool_of(v: EarnView, p: Pool) -> PoolView {
    match p {
        Pool::Core => v.core,
        Pool::Lp => v.lp,
    }
}

/// The state with pool `p` replaced.
pub open spec fn with_pool(v: EarnView, p: Pool, q: PoolView) -> EarnView {
    match p {
        Pool::Core => EarnView { core: q, ..v },
        Pool::Lp => EarnView { lp: q, ..v },
    }
}

/// What a position has earned and not yet claimed, scaled by `10^18`: stake
/// times reward per token, minus the tally.
pub open spec fn pending(s: StakeView, reward_per_token: nat) -> int {
    s.amount * reward_per_token - s.reward_tally
}

/// A number, or 0 where it is negative.
pub open spec fn clamp(x: int) -> nat {
    if x < 0 {
        0
    } else {
        x as nat
    }
}

/// The reward a staker can claim: what both positions have earned (each counted
/// as 0 where negative), scaled down by `10^18` and rounded down.
pub open spec fn reward_of(v: EarnView, e: EarnerView) -> nat {
    ((clamp(pending(e.core, v.core.reward_per_token)) + clamp(
        pending(e.lp, v.lp.reward_per_token),
    )) as int / pow(10, PRECISION as nat)) as nat
}

/// Whether neither position of a staker has a tally above its stake times the
/// reward per token of its pool, so that what it has earned is never negative.
pub open spec fn covered(e: EarnerView, core_reward_per_token: nat, lp_reward_per_token: nat) -> bool {
    &&& pending(e.core, core_reward_per_token) >= 0
    &&& pending(e.lp, lp_reward_per_token) >= 0
}

/// The record stored for `a`, or [`zero_earner`] where there is none.
pub open spec fn record_of(s: Seq<(Seq<u8>, Earner)>, a: Seq<u8>) -> EarnerView {
    match lookup(s, a) {
        Some(e) => e@,
        None => zero_earner(),
    }
}

/// The sum of the stakes in pool `p` over a list of records.
pub open spec fn pool_sum(s: Seq<(Seq<u8>, Earner)>, p: Pool) -> nat {
    sum_over(keys_of(s), |a: Seq<u8>| stake_of(record_of(s, a), p).amount)
}

/// The pool whose stake token is `token`: the core pool first.
pub open spec fn staking_pool(v: EarnView, token: Seq<u8>) -> Option<Pool> {
    if token == v.core.stake_token {
        Some(Pool::Core)
    } else if token == v.lp.stake_token {
        Some(Pool::Lp)
    } else {
        None
    }
}

/// Whether withdrawing `token` needs the staker's lock to have ended: for every
/// token but the LP stake token.
pub open spec fn lock_applies(v: EarnView, token: Seq<u8>) -> bool {
    staking_pool(v, token) != Some(Pool::Lp)
}

/// The sum of `f` over a list of accounts.
pub open spec fn sum_over(keys: Seq<Seq<u8>>, f: spec_fn(Seq<u8>) -> nat) -> nat
    decreases keys.len(),
{
    if keys.len() == 0 {
        0
    } else {
        sum_over(keys.drop_last(), f) + f(keys.last())
    }
}

/// Two functions that agree on every account of the list have the same sum.
pub proof fn lemma_sum_over_same(keys: Seq<Seq<u8>>, f: spec_fn(Seq<u8>) -> nat, g: spec_fn(
    Seq<u8>,
) -> nat)
    requires
        forall|i: int| 0 <= i < keys.len() ==> f(#[trigger] keys[i]) == g(keys[i]),
    ensures
        sum_over(keys, f) == sum_over(keys, g),
    decreases keys.len(),
{
    if keys.len() > 0 {
        let t = keys.drop_last();
        assert forall|i: int| 0 <= i < t.len() implies f(#[trigger] t[i]) == g(t[i]) by {
            assert(t[i] == keys[i]);
        }
        lemma_sum_over_same(t, f, g);
        assert(f(keys.last()) == g(keys.last()));
    }
}

/// Changing `f` at one account of a list without repeats changes the sum by
/// the change at that account.
pub proof fn lemma_sum_over_change(
    keys: Seq<Seq<u8>>,
    f: spec_fn(Seq<u8>) -> nat,
    g: spec_fn(Seq<u8>) -> nat,
    k: Seq<u8>,
)
    requires
        keys.no_duplicates(),
        keys.contains(k),
        forall|a: Seq<u8>| a != k ==> #[trigger] f(a) == g(a),
    ensures
        sum_over(keys, g) + f(k) == sum_over(keys, f) + g(k),
    decreases keys.len(),
{
    let t = keys.drop_last();
    if keys.last() == k {
        assert(!t.contains(k)) by {
            if t.contains(k) {
                let i = choose|i: int| 0 <= i < t.len() && t[i] == k;
                assert(keys[i] == keys[keys.len() - 1]);
            }
        }
        assert forall|i: int| 0 <= i < t.len() implies f(#[trigger] t[i]) == g(t[i]) by {
            assert(t.contains(t[i]));
        }
        lemma_sum_over_same(t, f, g);
    } else {
        let i = choose|i: int| 0 <= i < keys.len() && keys[i] == k;
        assert(t[i] == k);
        assert(t.no_duplicates());
        lemma_sum_over_change(t, f, g, k);
    }
}

/// A term of a sum is at most the sum.
pub proof fn lemma_sum_over_ge(keys: Seq<Seq<u8>>, f: spec_fn(Seq<u8>) -> nat, k: Seq<u8>)
    requires
        keys.contains(k),
    ensures
        f(k) <= sum_over(keys, f),
    decreases keys.len(),
{
    if keys.last() != k {
        let i = choose|i: int| 0 <= i < keys.len() && keys[i] == k;
        assert(keys.drop_last()[i] == k);
        lemma_sum_over_ge(keys.drop_last(), f, k);
    }
}

/// Scaling every term scales the sum.
pub proof fn lemma_sum_over_scaled(keys: Seq<Seq<u8>>, f: spec_fn(Seq<u8>) -> nat, d: nat)
    ensures
        sum_over(keys, |a: Seq<u8>| f(a) * d) == sum_over(keys, f) * d,
    decreases keys.len(),
{
    let g = |a: Seq<u8>| f(a) * d;
    if keys.len() > 0 {
        lemma_sum_over_scaled(keys.drop_last(), f, d);
        let s = sum_over(keys.drop_last(), f);
        let x = f(keys.last());
        assert(sum_over(keys, g) == sum_over(keys.drop_last(), g) + g(keys.last()));
        assert(g(keys.last()) == x * d);
        assert((s + x) * d == s * d + x * d) by (nonlinear_arith);
    } else {
        assert(sum_over(keys, f) * d == 0 * d);
        assert(0 * d == 0) by (nonlinear_arith);
    }
}

/// Withdrawing what was just staked, at the same reward per token, gives the
/// position back exactly as it was.
pub proof fn lemma_withdraw_undoes_stake(s: StakeView, reward_per_token: nat, amount: nat)
    ensures
        ({
            let staked = StakeView {
                amount: s.amount + amount,
                reward_tally: s.reward_tally + reward_per_token * amount,
            };
            StakeView {
                amount: (staked.amount - amount) as nat,
                reward_tally: staked.reward_tally - reward_per_token * amount,
            }
        }) == s,
{
}

/// A new stake earns nothing of the rewards paid in before it: adding `amount`
/// to a position and `reward_per_token * amount` to its tally leaves what the
/// position has earned as it was.
pub proof fn lemma_new_stake_earns_nothing_earlier(s: StakeView, reward_per_token: nat, amount: nat)
    ensures
        pending(
            StakeView {
                amount: s.amount + amount,
                reward_tally: s.reward_tally + reward_per_token * amount,
            },
            reward_per_token,
        ) == pending(s, reward_per_token),
{
    assert((s.amount + amount) * reward_per_token == s.amount * reward_per_token + reward_per_token
        * amount) by (nonlinear_arith);
}

impl Stake {
    /// A position with this stake and tally.
    pub fn new(amount: Amount, reward_tally: SignedAmount) -> (r: Stake)
        ensures
            r@ == (StakeView { amount: amount@, reward_tally: reward_tally@ }),
    {
        Stake { amount, reward_tally }
    }

    /// The stake.
    pub fn amount(&self) -> (r: &Amount)
        ensures
            r@ == self@.amount,
    {
        &self.amount
    }

    /// The tally.
    pub fn reward_tally(&self) -> (r: &SignedAmount)
        ensures
            r@ == self@.reward_tally,
    {
        &self.reward_tally
    }

    /// No stake and no tally.
    fn zero() -> (r: Stake)
        ensures
            r@ == (StakeView { amount: 0, reward_tally: 0 }),
    {
        Stake { amount: Amount::zero(), reward_tally: SignedAmount::zero() }
    }

    fn duplicate(&self) -> (r: Stake)
        ensures
            r@ == self@,
    {
        Stake { amount: self.amount.duplicate(), reward_tally: self.reward_tally.duplicate() }
    }
}

impl Earner {
    /// A record with this lock and these positions.
    pub fn new(unlock_time: u64, core: Stake, lp: Stake) -> (r: Earner)
        ensures
            r@ == (EarnerView { unlock_time, core: core@, lp: lp@ }),
    {
        Earner { unlock_time, core, lp }
    }

    /// When the stake unlocks.
    pub fn unlock_time(&self) -> (r: u64)
        ensures
            r == self@.unlock_time,
    {
        self.unlock_time
    }

    /// The position in the core pool.
    pub fn core_position(&self) -> (r: &Stake)
        ensures
            r@ == self@.core,
    {
        &self.core
    }

    /// The position in the LP pool.
    pub fn lp_position(&self) -> (r: &Stake)
        ensures
            r@ == self@.lp,
    {
        &self.lp
    }

    fn zero() -> (r: Earner)
        ensures
            r@ == zero_earner(),
    {
        Earner { unlock_time: 0, core: Stake::zero(), lp: Stake::zero() }
    }

    fn duplicate(&self) -> (r: Earner)
        ensures
            r@ == self@,
    {
        Earner { unlock_time: self.unlock_time, core: self.core.duplicate(), lp: self.lp.duplicate() }
    }

    fn stake(&self, p: Pool) -> (r: &Stake)
        ensures
            r@ == stake_of(self@, p),
    {
        match p {
            Pool::Core => &self.core,
            Pool::Lp => &self.lp,
        }
    }

    fn set_stake(&mut self, p: Pool, s: Stake)
        ensures
            final(self)@ == with_stake(old(self)@, p, s@),
    {
        match p {
            Pool::Core => self.core = s,
            Pool::Lp => self.lp = s,
        }
    }
}

/// The earn state of the contract.
pub struct Earn {
    lock_time_seconds: u64,
    core_stake_token: TokenId,
    core_stake_total: Amount,
    core_reward_per_token: Amount,
    lp_stake_token: TokenId,
    lp_stake_total: Amount,
    lp_reward_per_token: Amount,
    earners: AddressMap<Earner>,
}

impl View for Earn {
    type V = EarnView;

    closed spec fn view(&self) -> EarnView {
        EarnView {
            lock_time_seconds: self.lock_time_seconds,
            core: PoolView {
                stake_token: self.core_stake_token@,
                stake_total: self.core_stake_total@,
                reward_per_token: self.core_reward_per_token@,
            },
            lp: PoolView {
                stake_token: self.lp_stake_token@,
                stake_total: self.lp_stake_total@,
                reward_per_token: self.lp_reward_per_token@,
            },
        }
    }
}

/// The earn endpoints and storage of the contract.
pub trait EarnModule: View<V = EarnView> {
    /// The accounts that have a record, each once.
    spec fn accounts(&self) -> Seq<Seq<u8>>;

    /// The record of an account; [`zero_earner`] for one that never staked.
    spec fn earner(&self, a: Seq<u8>) -> EarnerView;

    /// The sum of the stakes in pool `p` over all accounts.
    spec fn stake_sum(&self, p: Pool) -> nat;

    /// The reward `a` can claim.
    spec fn reward(&self, a: Seq<u8>) -> nat;

    /// Accounts are not repeated, an account without a record reads as zero,
    /// each pool's total stake is the sum of its stakes, and no staker's tally
    /// exceeds its stake times the reward per token.
    spec fn wf(&self) -> bool;

    /// Sets the two stake tokens and the lock time (owner only).
    fn init_earn_module_endpoint(
        &mut self,
        caller: &Address,
        owner: &Address,
        core_stake_token: TokenId,
        lp_stake_token: TokenId,
        lock_time_seconds: u64,
    ) -> (r: Result<(), ContractError>)
        requires
            old(self).wf(),
    ;

    /// Pays the core tokens of the call into the core pool.
    fn distribute_to_earn_core_endpoint(&mut self, config: &Config, payment: &Payment) -> (r:
        Result<(), ContractError>)
        requires
            old(self).wf(),
    ;

    /// Pays the core tokens of the call into the LP pool.
    fn distribute_to_earn_lp_endpoint(&mut self, config: &Config, payment: &Payment) -> (r:
        Result<(), ContractError>)
        requires
            old(self).wf(),
    ;

    /// Stakes the paid tokens of the call, in the core or the LP stake token,
    /// and locks the caller's stake until `now` plus the lock time.
    fn stake_for_earn_endpoint(&mut self, caller: &Address, now: u64, payment: Payment) -> (r:
        Result<(), ContractError>)
        requires
            old(self).wf(),
            now + old(self)@.lock_time_seconds <= u64::MAX,
    ;

    /// Locks the stake of `address` until `now` plus the lock time.
    fn lock_stake_for(&mut self, address: &Address, now: u64)
        requires
            old(self).wf(),
            now + old(self)@.lock_time_seconds <= u64::MAX,
    ;

    /// Refuses the call unless `address` staked and its lock ended before
    /// `now`.
    fn require_stake_unlocked_for(&self, address: &Address, now: u64) -> (r: Result<
        (),
        ContractError,
    >);

    /// Withdraws `amount` of the caller's stake in the pool of `token` and sends
    /// it back to the caller. A withdrawal from the LP pool may come at any time;
    /// any other needs the caller's lock to have ended.
    fn withdraw_from_earn_endpoint(
        &mut self,
        caller: &Address,
        now: u64,
        token: TokenId,
        amount: Amount,
    ) -> (r: Result<Vec<Effect>, ContractError>)
        requires
            old(self).wf(),
    ;

    /// The reward `address` can claim.
    fn compute_reward(&self, address: &Address) -> (r: Amount);

    /// The caller's core stake, LP stake, claimable reward and unlock time.
    fn get_earner_info_view(&self, address: &Address) -> (r: (Amount, Amount, Amount, u64));

    /// Sends the caller its reward in the core token, and starts its tallies
    /// afresh, so that it has nothing left to claim.
    fn claim_earn_reward_endpoint(&mut self, config: &Config, caller: &Address) -> (r:
        Result<Vec<Effect>, ContractError>)
        requires
            old(self).wf(),
    ;

    /// The core stake token.
    fn core_stake_token(&self) -> (r: &TokenId);

    /// The LP stake token.
    fn lp_stake_token(&self) -> (r: &TokenId);

    /// How long a stake stays locked, in seconds.
    fn lock_time_seconds(&self) -> (r: u64);

    /// The total stake of the core pool.
    fn core_stake_total(&self) -> (r: &Amount);

    /// The total stake of the LP pool.
    fn lp_stake_total(&self) -> (r: &Amount);

    /// The reward per token of the core pool, scaled by `10^18`.
    fn core_reward_per_token(&self) -> (r: &Amount);

    /// The reward per token of the LP pool, scaled by `10^18`.
    fn lp_reward_per_token(&self) -> (r: &Amount);

    /// The core stake of `address`.
    fn core_stake(&self, address: &Address) -> (r: Amount);

    /// The LP stake of `address`.
    fn lp_stake(&self, address: &Address) -> (r: Amount);

    /// The core reward tally of `address`.
    fn core_reward_tally(&self, address: &Address) -> (r: SignedAmount);

    /// The LP reward tally of `address`.
    fn lp_reward_tally(&self, address: &Address) -> (r: SignedAmount);

    /// When the stake of `address` unlocks (0 where it never staked).
    fn unlock_time(&self, address: &Address) -> (r: u64);
}

impl Earn {
    /// The sum of the stakes in pool `p` over the records.
    fn pool_total_of(records: &AddressMap<Earner>, p: Pool) -> (r: Amount)
        requires
            records.wf(),
        ensures
            r@ == pool_sum(records@, p),
    {
        let entries = records.entries();
        let ghost s = records@;
        let ghost keys = keys_of(s);
        let ghost f = |a: Seq<u8>| stake_of(record_of(s, a), p).amount;
        let mut total = Amount::zero();
        let mut i: usize = 0;
        assert(keys.take(0) =~= Seq::<Seq<u8>>::empty());
        while i < entries.len()
            invariant
                i <= entries.len(),
                entries@.map_values(|e: (Address, Earner)| (e.0@, e.1)) == s,
                keys == keys_of(s),
                keys.no_duplicates(),
                keys.len() == entries.len(),
                f == (|a: Seq<u8>| stake_of(record_of(s, a), p).amount),
                total@ == sum_over(keys.take(i as int), f),
            decreases entries.len() - i,
        {
            proof {
                lemma_lookup_at(s, i as int);
                assert(s[i as int] == (entries@[i as int].0@, entries@[i as int].1));
                assert(keys.take(i + 1).drop_last() =~= keys.take(i as int));
                assert(keys.take(i + 1).last() == keys[i as int]);
                assert(f(keys[i as int]) == stake_of(entries@[i as int].1@, p).amount);
            }
            total = total.plus(entries[i].1.stake(p).amount());
            i = i + 1;
        }
        assert(keys.take(i as int) =~= keys);
        total
    }

    /// Whether a position has earned a non-negative amount.
    fn position_covered(stake: &Stake, reward_per_token: &Amount) -> (r: bool)
        ensures
            r == (pending(stake@, reward_per_token@) >= 0),
    {
        let gross = SignedAmount::from_amount(&stake.amount.times(reward_per_token));
        gross.minus(&stake.reward_tally).to_amount().is_some()
    }

    /// Whether every record is [`covered`] at these rewards per token.
    fn records_covered(records: &AddressMap<Earner>, core_reward_per_token: &Amount, lp_reward_per_token: &Amount) -> (r: bool)
        requires
            records.wf(),
        ensures
            r == forall|a: Seq<u8>| #[trigger]
                covered(record_of(records@, a), core_reward_per_token@, lp_reward_per_token@),
    {
        let entries = records.entries();
        let ghost s = records@;
        let ghost c = core_reward_per_token@;
        let ghost l = lp_reward_per_token@;
        let mut i: usize = 0;
        while i < entries.len()
            invariant
                i <= entries.len(),
                entries@.map_values(|e: (Address, Earner)| (e.0@, e.1)) == s,
                s == records@,
                keys_of(s).no_duplicates(),
                c == core_reward_per_token@,
                l == lp_reward_per_token@,
                forall|j: int| 0 <= j < i ==> #[trigger] covered(s[j].1@, c, l),
            decreases entries.len() - i,
        {
            assert(s[i as int] == (entries@[i as int].0@, entries@[i as int].1));
            let e = &entries[i].1;
            if !Earn::position_covered(&e.core, core_reward_per_token)
                || !Earn::position_covered(&e.lp, lp_reward_per_token) {
                proof {
                    lemma_lookup_at(s, i as int);
                    assert(!covered(record_of(s, s[i as int].0), c, l));
                }
                return false;
            }
            i = i + 1;
        }
        proof {
            assert forall|a: Seq<u8>| #[trigger] covered(record_of(s, a), c, l) by {
                let k = keys_of(s);
                lemma_position_of(k, a);
                let q = position_of(k, a);
                if q > 0 {
                    assert(record_of(s, a) == s[q - 1].1@);
                    assert(covered(s[q - 1].1@, c, l));
                } else {
                    assert(record_of(s, a) == zero_earner());
                }
            }
        }
        true
    }

    /// An earn state with these parts, as storage holds them; `None` where a
    /// pool's total is not the sum of its stakes, or where a staker's tally
    /// exceeds its stake times the reward per token.
    pub fn from_parts(
        lock_time_seconds: u64,
        core_stake_token: TokenId,
        core_stake_total: Amount,
        core_reward_per_token: Amount,
        lp_stake_token: TokenId,
        lp_stake_total: Amount,
        lp_reward_per_token: Amount,
        earners: AddressMap<Earner>,
    ) -> (r: Option<Earn>)
        requires
            earners.wf(),
        ensures
            r is Some <==> core_stake_total@ == pool_sum(earners@, Pool::Core) && lp_stake_total@
                == pool_sum(earners@, Pool::Lp) && forall|a: Seq<u8>| #[trigger]
                covered(record_of(earners@, a), core_reward_per_token@, lp_reward_per_token@),
            r matches Some(e) ==> {
                &&& e.wf()
                &&& e@ == (EarnView {
                    lock_time_seconds,
                    core: PoolView {
                        stake_token: core_stake_token@,
                        stake_total: core_stake_total@,
                        reward_per_token: core_reward_per_token@,
                    },
                    lp: PoolView {
                        stake_token: lp_stake_token@,
                        stake_total: lp_stake_total@,
                        reward_per_token: lp_reward_per_token@,
                    },
                })
                &&& e.accounts() == keys_of(earners@)
                &&& forall|a: Seq<u8>| #[trigger] e.earner(a) == record_of(earners@, a)
            },
    {
        let core_sum = Earn::pool_total_of(&earners, Pool::Core);
        let lp_sum = Earn::pool_total_of(&earners, Pool::Lp);
        if !core_sum.equals(&core_stake_total) || !lp_sum.equals(&lp_stake_total) {
            return None;
        }
        if !Earn::records_covered(&earners, &core_reward_per_token, &lp_reward_per_token) {
            return None;
        }
        let r = Earn {
            lock_time_seconds,
            core_stake_token,
            core_stake_total,
            core_reward_per_token,
            lp_stake_token,
            lp_stake_total,
            lp_reward_per_token,
            earners,
        };
        proof {
            r.lemma_wf_parts();
            assert forall|p: Pool| #[trigger] r.stake_sum(p) == pool_sum(r.earners@, p) by {
                lemma_sum_over_same(
                    r.accounts(),
                    |a: Seq<u8>| stake_of(r.earner(a), p).amount,
                    |a: Seq<u8>| stake_of(record_of(r.earners@, a), p).amount,
                );
            }
            assert(r.stake_sum(Pool::Core) == pool_sum(r.earners@, Pool::Core));
            assert(r.stake_sum(Pool::Lp) == pool_sum(r.earners@, Pool::Lp));
        }
        Some(r)
    }

    /// The records of all accounts.
    pub fn records(&self) -> (r: &AddressMap<Earner>)
        requires
            self.wf(),
        ensures
            r.wf(),
            keys_of(r@) == self.accounts(),
            forall|a: Seq<u8>| #[trigger] record_of(r@, a) == self.earner(a),
    {
        &self.earners
    }

    /// Two states with the same records have the same stake sums.
    proof fn lemma_same_records(&self, other: &Earn)
        requires
            self.accounts() == other.accounts(),
            forall|a: Seq<u8>| #[trigger] self.earner(a) == other.earner(a),
        ensures
            forall|p: Pool| #[trigger] self.stake_sum(p) == other.stake_sum(p),
    {
        assert forall|p: Pool| #[trigger] self.stake_sum(p) == other.stake_sum(p) by {
            lemma_sum_over_same(
                self.accounts(),
                |a: Seq<u8>| stake_of(self.earner(a), p).amount,
                |a: Seq<u8>| stake_of(other.earner(a), p).amount,
            );
        }
    }

    proof fn lemma_wf_parts(&self)
        requires
            self.earners.wf(),
        ensures
            self.accounts().no_duplicates(),
            forall|a: Seq<u8>| !self.accounts().contains(a) ==> #[trigger] self.earner(a) == zero_earner(),
    {
        assert forall|a: Seq<u8>| !self.accounts().contains(a) implies #[trigger] self.earner(a)
            == zero_earner() by {
            lemma_position_of(keys_of(self.earners@), a);
        }
    }

    /// A copy of the record of `a` (zero for an account without one).
    fn earner_copy(&self, a: &Address) -> (r: Earner)
        ensures
            r@ == self.earner(a@),
    {
        match self.earners.get(a) {
            Some(e) => e.duplicate(),
            None => Earner::zero(),
        }
    }

    /// Stores the record of `a`.
    fn put_earner(&mut self, a: &Address, e: Earner)
        requires
            old(self).earners.wf(),
        ensures
            final(self).earners.wf(),
            final(self)@ == old(self)@,
            forall|j: Seq<u8>| #[trigger]
                final(self).earner(j) == if j == a@ {
                    e@
                } else {
                    old(self).earner(j)
                },
            forall|p: Pool| #[trigger]
                final(self).stake_sum(p) + stake_of(old(self).earner(a@), p).amount == old(
                    self,
                ).stake_sum(p) + stake_of(e@, p).amount,
            final(self).accounts() == if old(self).accounts().contains(a@) {
                old(self).accounts()
            } else {
                old(self).accounts().push(a@)
            },
    {
        let ghost before = self.earners@;
        let ghost ev = e;
        let ghost k = a@;
        proof {
            self.lemma_wf_parts();
        }
        let ghost old_self = *self;
        self.earners.insert(a.duplicate(), e);
        proof {
            lemma_stored(before, k, ev);
            lemma_position_of(keys_of(before), k);
            assert forall|j: Seq<u8>| #[trigger]
                self.earner(j) == if j == k {
                    ev@
                } else {
                    old_self.earner(j)
                } by {
                assert(lookup(self.earners@, j) == if j == k {
                    Some(ev)
                } else {
                    lookup(before, j)
                });
            }
            if keys_of(before).contains(k) {
                assert(keys_of(self.earners@) =~= keys_of(before));
            } else {
                assert(keys_of(self.earners@) =~= keys_of(before).push(k));
            }
            assert forall|p: Pool| #[trigger]
                self.stake_sum(p) + stake_of(old_self.earner(k), p).amount == old_self.stake_sum(p)
                    + stake_of(ev@, p).amount by {
                let f = |x: Seq<u8>| stake_of(old_self.earner(x), p).amount;
                let g = |x: Seq<u8>| stake_of(self.earner(x), p).amount;
                let keys = old_self.accounts();
                assert forall|x: Seq<u8>| x != k implies #[trigger] f(x) == g(x) by {}
                if keys.contains(k) {
                    lemma_sum_over_change(keys, f, g, k);
                } else {
                    assert forall|i: int| 0 <= i < keys.len() implies f(#[trigger] keys[i]) == g(
                        keys[i],
                    ) by {
                        assert(keys.contains(keys[i]));
                    }
                    lemma_sum_over_same(keys, f, g);
                    assert(self.accounts() == keys.push(k));
                    assert(self.accounts().drop_last() =~= keys);
                    assert(old_self.earner(k) == zero_earner());
                }
            }
        }
    }

    fn pool_total(&self, p: Pool) -> (r: &Amount)
        ensures
            r@ == pool_of(self@, p).stake_total,
    {
        match p {
            Pool::Core => &self.core_stake_total,
            Pool::Lp => &self.lp_stake_total,
        }
    }

    fn pool_reward_per_token(&self, p: Pool) -> (r: &Amount)
        ensures
            r@ == pool_of(self@, p).reward_per_token,
    {
        match p {
            Pool::Core => &self.core_reward_per_token,
            Pool::Lp => &self.lp_reward_per_token,
        }
    }

    fn set_pool_total(&mut self, p: Pool, a: Amount)
        ensures
            final(self)@ == with_pool(
                old(self)@,
                p,
                PoolView { stake_total: a@, ..pool_of(old(self)@, p) },
            ),
            final(self).earners == old(self).earners,
    {
        match p {
            Pool::Core => self.core_stake_total = a,
            Pool::Lp => self.lp_stake_total = a,
        }
    }

    fn set_pool_reward_per_token(&mut self, p: Pool, a: Amount)
        ensures
            final(self)@ == with_pool(
                old(self)@,
                p,
                PoolView { reward_per_token: a@, ..pool_of(old(self)@, p) },
            ),
            final(self).earners == old(self).earners,
    {
        match p {
            Pool::Core => self.core_reward_per_token = a,
            Pool::Lp => self.lp_reward_per_token = a,
        }
    }

    /// The state before the earn pools are set up: no stake tokens, no lock
    /// time, no stakes and no rewards.
    pub fn new() -> (r: Earn)
        ensures
            r.wf(),
            r@ == (EarnView {
                lock_time_seconds: 0,
                core: PoolView { stake_token: Seq::empty(), stake_total: 0, reward_per_token: 0 },
                lp: PoolView { stake_token: Seq::empty(), stake_total: 0, reward_per_token: 0 },
            }),
            r.accounts() == Seq::<Seq<u8>>::empty(),
    {
        let r = Earn {
            lock_time_seconds: 0,
            core_stake_token: TokenId::empty(),
            core_stake_total: Amount::zero(),
            core_reward_per_token: Amount::zero(),
            lp_stake_token: TokenId::empty(),
            lp_stake_total: Amount::zero(),
            lp_reward_per_token: Amount::zero(),
            earners: AddressMap::new(),
        };
        proof {
            r.lemma_wf_parts();
            assert(r.accounts() =~= Seq::<Seq<u8>>::empty());
        }
        r
    }

    /// Pays `payment`, in the core token, into pool `p`: its reward per token
    /// rises by the payment, scaled by `10^18`, divided by the pool's total stake.
    fn distribute(&mut self, config: &Config, p: Pool, payment: &Payment) -> (r: Result<
        (),
        ContractError,
    >)
        requires
            old(self).wf(),
        ensures
            final(self).wf(),
            final(self).accounts() == old(self).accounts(),
            forall|a: Seq<u8>| #[trigger] final(self).earner(a) == old(self).earner(a),
            ({
                let q = pool_of(old(self)@, p);
                if payment.amount@ == 0 {
                    r == Err::<(), ContractError>(ContractError::InvalidAmount) && final(self)@
                        == old(self)@
                } else if payment.token_identifier@ != config@.core_token {
                    r == Err::<(), ContractError>(ContractError::InvalidToken) && final(self)@
                        == old(self)@
                } else if q.stake_total == 0 {
                    r == Err::<(), ContractError>(ContractError::DivisionByZero) && final(self)@
                        == old(self)@
                } else {
                    let rise = (payment.amount@ * pow(10, PRECISION as nat)) / (q.stake_total as int);
                    &&& r is Ok
                    &&& final(self)@ == with_pool(
                        old(self)@,
                        p,
                        PoolView { reward_per_token: (q.reward_per_token + rise) as nat, ..q },
                    )
                    &&& forall|a: Seq<u8>| #[trigger]
                        pending(stake_of(final(self).earner(a), p), pool_of(final(self)@, p).reward_per_token)
                            == pending(stake_of(old(self).earner(a), p), q.reward_per_token)
                            + stake_of(old(self).earner(a), p).amount * rise
                    &&& sum_over(
                        old(self).accounts(),
                        |a: Seq<u8>| stake_of(old(self).earner(a), p).amount * (rise as nat),
                    ) <= payment.amount@ * pow(10, PRECISION as nat)
                }
            }),
    {
        if payment.amount.is_zero() {
            return Err(ContractError::InvalidAmount);
        }
        if !payment.token_identifier.same_as(config.core_token()) {
            return Err(ContractError::InvalidToken);
        }
        let total = self.pool_total(p);
        if total.is_zero() {
            return Err(ContractError::DivisionByZero);
        }
        let scaled = payment.amount.times(&Amount::power_of_ten(PRECISION));
        let rise = scaled.div_floor(total);
        let new_rpt = self.pool_reward_per_token(p).plus(&rise);
        let ghost old_self = *self;
        proof {
            let x = payment.amount@ * pow(10, PRECISION as nat);
            let t = pool_of(self@, p).stake_total;
            vstd::arithmetic::power::lemma_pow_positive(10, PRECISION as nat);
            assert(x >= 0) by (nonlinear_arith)
                requires
                    payment.amount@ >= 0,
                    pow(10, PRECISION as nat) > 0,
                    x == payment.amount@ * pow(10, PRECISION as nat),
            ;
            let d = rise@;
            assert(d == x / (t as int));
            assert(t * d <= x) by (nonlinear_arith)
                requires
                    t > 0,
                    x >= 0,
                    d == x / (t as int),
            ;
            let f = |a: Seq<u8>| stake_of(self.earner(a), p).amount;
            let keys = self.accounts();
            lemma_sum_over_scaled(keys, f, d);
            lemma_sum_over_same(keys, f, |a: Seq<u8>| stake_of(self.earner(a), p).amount);
            assert(sum_over(keys, f) == self.stake_sum(p));
            assert(self.stake_sum(p) == t);
            lemma_sum_over_same(
                keys,
                |a: Seq<u8>| f(a) * d,
                |a: Seq<u8>| stake_of(self.earner(a), p).amount * (d as nat),
            );
            assert(sum_over(keys, |a: Seq<u8>| stake_of(self.earner(a), p).amount * (d as nat))
                == t * d);
        }
        self.set_pool_reward_per_token(p, new_rpt);
        proof {
            assert forall|a: Seq<u8>| #[trigger] self.earner(a) == old_self.earner(a) by {}
            assert(self.accounts() == old_self.accounts());
            self.lemma_same_records(&old_self);
            assert(self.stake_sum(Pool::Core) == old_self.stake_sum(Pool::Core));
            assert(self.stake_sum(Pool::Lp) == old_self.stake_sum(Pool::Lp));
            assert forall|a: Seq<u8>| #[trigger]
                pending(stake_of(self.earner(a), p), pool_of(self@, p).reward_per_token) == pending(
                    stake_of(old_self.earner(a), p),
                    pool_of(old_self@, p).reward_per_token,
                ) + stake_of(old_self.earner(a), p).amount * rise@ by {
                let s = stake_of(old_self.earner(a), p);
                let r0 = pool_of(old_self@, p).reward_per_token;
                assert(s.amount * (r0 + rise@) == s.amount * r0 + s.amount * rise@)
                    by (nonlinear_arith);
            }
            assert forall|a: Seq<u8>| #[trigger]
                covered(self.earner(a), self@.core.reward_per_token, self@.lp.reward_per_token) by {
                assert(covered(
                    old_self.earner(a),
                    old_self@.core.reward_per_token,
                    old_self@.lp.reward_per_token,
                ));
                let s = stake_of(old_self.earner(a), p);
                let r0 = pool_of(old_self@, p).reward_per_token;
                assert(s.amount * (r0 + rise@) == s.amount * r0 + s.amount * rise@)
                    by (nonlinear_arith);
                assert(s.amount * rise@ >= 0) by (nonlinear_arith);
            }
        }
        Ok(())
    }

    /// The pool whose stake token is `token`.
    fn pool_for(&self, token: &TokenId) -> (r: Option<Pool>)
        ensures
            r == staking_pool(self@, token@),
    {
        if token.same_as(&self.core_stake_token) {
            Some(Pool::Core)
        } else if token.same_as(&self.lp_stake_token) {
            Some(Pool::Lp)
        } else {
            None
        }
    }

    /// Stores the new record `e` for `a`, whose stake may differ from the old one
    /// in pool `p` alone, and sets that pool's total to `new_total`, which
    /// differs from the old total as the stake does.
    fn replace_record(&mut self, a: &Address, e: Earner, p: Pool, new_total: Amount)
        requires
            old(self).wf(),
            stake_of(e@, p).amount + pool_of(old(self)@, p).stake_total == new_total@ + stake_of(
                old(self).earner(a@),
                p,
            ).amount,
            forall|pp: Pool| pp != p ==> stake_of(e@, pp).amount == stake_of(old(self).earner(a@), pp).amount,
            covered(e@, old(self)@.core.reward_per_token, old(self)@.lp.reward_per_token),
        ensures
            final(self).wf(),
            final(self)@ == with_pool(
                old(self)@,
                p,
                PoolView { stake_total: new_total@, ..pool_of(old(self)@, p) },
            ),
            forall|j: Seq<u8>| #[trigger]
                final(self).earner(j) == if j == a@ {
                    e@
                } else {
                    old(self).earner(j)
                },
    {
        let ghost ev = e@;
        let ghost old_self = *self;
        proof {
            self.lemma_wf_parts();
        }
        self.put_earner(a, e);
        let ghost mid = *self;
        self.set_pool_total(p, new_total);
        proof {
            assert(self.accounts() == mid.accounts());
            assert forall|j: Seq<u8>| #[trigger] self.earner(j) == mid.earner(j) by {}
            self.lemma_same_records(&mid);
            assert(mid.stake_sum(Pool::Core) + stake_of(old_self.earner(a@), Pool::Core).amount
                == old_self.stake_sum(Pool::Core) + stake_of(ev, Pool::Core).amount);
            assert(mid.stake_sum(Pool::Lp) + stake_of(old_self.earner(a@), Pool::Lp).amount
                == old_self.stake_sum(Pool::Lp) + stake_of(ev, Pool::Lp).amount);
            assert(self.stake_sum(Pool::Core) == mid.stake_sum(Pool::Core));
            assert(self.stake_sum(Pool::Lp) == mid.stake_sum(Pool::Lp));
            assert forall|j: Seq<u8>| !self.accounts().contains(j) implies #[trigger] self.earner(j)
                == zero_earner() by {
                if j != a@ {
                    if old_self.accounts().contains(j) {
                        let i = choose|i: int|
                            0 <= i < old_self.accounts().len() && old_self.accounts()[i] == j;
                        assert(self.accounts()[i] == j);
                    }
                } else {
                    assert(self.accounts().contains(j));
                }
            }
            assert forall|j: Seq<u8>| #[trigger]
                covered(self.earner(j), self@.core.reward_per_token, self@.lp.reward_per_token) by {
                if j != a@ {
                    assert(covered(
                        old_self.earner(j),
                        old_self@.core.reward_per_token,
                        old_self@.lp.reward_per_token,
                    ));
                }
            }
        }
    }

    /// What a position has earned, where that is not negative.
    fn earned(stake: &Stake, reward_per_token: &Amount) -> (r: Amount)
        ensures
            r@ == clamp(pending(stake@, reward_per_token@)),
    {
        let gross = SignedAmount::from_amount(&stake.amount.times(reward_per_token));
        match gross.minus(&stake.reward_tally).to_amount() {
            Some(x) => x,
            None => Amount::zero(),
        }
    }
}

/// What a staker has earned is never negative: each stake times its pool's
/// reward per token is at least its tally, so the reward is the two earned
/// amounts, scaled down, with nothing counted as 0.
pub proof fn lemma_earned_never_negative(earn: &Earn, a: Seq<u8>)
    requires
        earn.wf(),
    ensures
        earn.earner(a).core.amount * earn@.core.reward_per_token >= earn.earner(a).core.reward_tally,
        earn.earner(a).lp.amount * earn@.lp.reward_per_token >= earn.earner(a).lp.reward_tally,
        earn.reward(a) == (pending(earn.earner(a).core, earn@.core.reward_per_token) + pending(
            earn.earner(a).lp,
            earn@.lp.reward_per_token,
        )) / pow(10, PRECISION as nat),
{
    assert(covered(earn.earner(a), earn@.core.reward_per_token, earn@.lp.reward_per_token));
    vstd::arithmetic::power::lemma_pow_positive(10, PRECISION as nat);
    let x = pending(earn.earner(a).core, earn@.core.reward_per_token) + pending(
        earn.earner(a).lp,
        earn@.lp.reward_per_token,
    );
    let d = pow(10, PRECISION as nat);
    assert(x / d >= 0) by (nonlinear_arith)
        requires
            x >= 0,
            d > 0,
    ;
}

impl EarnModule for Earn {
    /// The accounts that have a record, each once.
    closed spec fn accounts(&self) -> Seq<Seq<u8>> {
        keys_of(self.earners@)
    }

    /// The record of an account; [`zero_earner`] for one that never staked.
    closed spec fn earner(&self, a: Seq<u8>) -> EarnerView {
        record_of(self.earners@, a)
    }

    /// The sum of the stakes in pool `p` over all accounts.
    open spec fn stake_sum(&self, p: Pool) -> nat {
        sum_over(self.accounts(), |a: Seq<u8>| stake_of(self.earner(a), p).amount)
    }

    /// The reward `a` can claim.
    open spec fn reward(&self, a: Seq<u8>) -> nat {
        reward_of(self@, self.earner(a))
    }

    /// Accounts are not repeated, an account without a record reads as zero,
    /// each pool's total stake is the sum of its stakes, and no staker's tally
    /// exceeds its stake times the reward per token.
    open spec fn wf(&self) -> bool {
        &&& self.accounts().no_duplicates()
        &&& forall|a: Seq<u8>| !self.accounts().contains(a) ==> #[trigger] self.earner(a) == zero_earner()
        &&& self@.core.stake_total == self.stake_sum(Pool::Core)
        &&& self@.lp.stake_total == self.stake_sum(Pool::Lp)
        &&& forall|a: Seq<u8>| #[trigger]
            covered(self.earner(a), self@.core.reward_per_token, self@.lp.reward_per_token)
    }

    /// Sets the two stake tokens and the lock time (owner only).
    fn init_earn_module_endpoint(
        &mut self,
        caller: &Address,
        owner: &Address,
        core_stake_token: TokenId,
        lp_stake_token: TokenId,
        lock_time_seconds: u64,
    ) -> (r: Result<(), ContractError>)
        ensures
            final(self).wf(),
            final(self).accounts() == old(self).accounts(),
            forall|a: Seq<u8>| #[trigger] final(self).earner(a) == old(self).earner(a),
            caller@ != owner@ ==> r == Err::<(), ContractError>(ContractError::OnlyOwner)
                && final(self)@ == old(self)@,
            caller@ == owner@ ==> r is Ok && final(self)@ == (EarnView {
                lock_time_seconds,
                core: PoolView { stake_token: core_stake_token@, ..old(self)@.core },
                lp: PoolView { stake_token: lp_stake_token@, ..old(self)@.lp },
            }),
    {
        require_owner(caller, owner)?;
        let ghost old_self = *self;
        self.core_stake_token = core_stake_token;
        self.lp_stake_token = lp_stake_token;
        self.lock_time_seconds = lock_time_seconds;
        proof {
            assert forall|a: Seq<u8>| #[trigger] self.earner(a) == old_self.earner(a) by {}
            assert(self.accounts() == old_self.accounts());
            self.lemma_same_records(&old_self);
            assert(self.stake_sum(Pool::Core) == old_self.stake_sum(Pool::Core));
            assert(self.stake_sum(Pool::Lp) == old_self.stake_sum(Pool::Lp));
            assert forall|a: Seq<u8>| !self.accounts().contains(a) implies #[trigger] self.earner(a)
                == zero_earner() by {
                assert(old_self.earner(a) == self.earner(a));
            }
        }
        Ok(())
    }

    /// Pays the core tokens of the call into the core pool.
    fn distribute_to_earn_core_endpoint(&mut self, config: &Config, payment: &Payment) -> (r:
        Result<(), ContractError>)
        ensures
            final(self).wf(),
            final(self).accounts() == old(self).accounts(),
            forall|a: Seq<u8>| #[trigger] final(self).earner(a) == old(self).earner(a),
            ({
                let q = old(self)@.core;
                if payment.amount@ == 0 {
                    r == Err::<(), ContractError>(ContractError::InvalidAmount) && final(self)@
                        == old(self)@
                } else if payment.token_identifier@ != config@.core_token {
                    r == Err::<(), ContractError>(ContractError::InvalidToken) && final(self)@
                        == old(self)@
                } else if q.stake_total == 0 {
                    r == Err::<(), ContractError>(ContractError::DivisionByZero) && final(self)@
                        == old(self)@
                } else {
                    let rise = (payment.amount@ * pow(10, PRECISION as nat)) / (q.stake_total as int);
                    &&& r is Ok
                    &&& final(self)@ == (EarnView {
                        core: PoolView { reward_per_token: (q.reward_per_token + rise) as nat, ..q },
                        ..old(self)@
                    })
                    &&& forall|a: Seq<u8>| #[trigger]
                        pending(stake_of(final(self).earner(a), Pool::Core), final(self)@.core.reward_per_token)
                            == pending(stake_of(old(self).earner(a), Pool::Core), q.reward_per_token)
                            + stake_of(old(self).earner(a), Pool::Core).amount * rise
                    &&& sum_over(
                        old(self).accounts(),
                        |a: Seq<u8>| stake_of(old(self).earner(a), Pool::Core).amount * (rise as nat),
                    ) <= payment.amount@ * pow(10, PRECISION as nat)
                }
            }),
    {
        let ghost old_self = *self;
        let r = self.distribute(config, Pool::Core, payment);
        proof {
            if r is Ok {
                let rise = (payment.amount@ * pow(10, PRECISION as nat)) / (old_self@.core.stake_total as int);
                assert forall|a: Seq<u8>| #[trigger]
                    pending(stake_of(self.earner(a), Pool::Core), self@.core.reward_per_token) == pending(
                        stake_of(old_self.earner(a), Pool::Core),
                        old_self@.core.reward_per_token,
                    ) + stake_of(old_self.earner(a), Pool::Core).amount * rise by {
                    assert(pending(
                        stake_of(self.earner(a), Pool::Core),
                        pool_of(self@, Pool::Core).reward_per_token,
                    ) == pending(
                        stake_of(old_self.earner(a), Pool::Core),
                        pool_of(old_self@, Pool::Core).reward_per_token,
                    ) + stake_of(old_self.earner(a), Pool::Core).amount * rise);
                }
            }
        }
        r
    }

    /// Pays the core tokens of the call into the LP pool.
    fn distribute_to_earn_lp_endpoint(&mut self, config: &Config, payment: &Payment) -> (r:
        Result<(), ContractError>)
        ensures
            final(self).wf(),
            final(self).accounts() == old(self).accounts(),
            forall|a: Seq<u8>| #[trigger] final(self).earner(a) == old(self).earner(a),
            ({
                let q = old(self)@.lp;
                if payment.amount@ == 0 {
                    r == Err::<(), ContractError>(ContractError::InvalidAmount) && final(self)@
                        == old(self)@
                } else if payment.token_identifier@ != config@.core_token {
                    r == Err::<(), ContractError>(ContractError::InvalidToken) && final(self)@
                        == old(self)@
                } else if q.stake_total == 0 {
                    r == Err::<(), ContractError>(ContractError::DivisionByZero) && final(self)@
                        == old(self)@
                } else {
                    let rise = (payment.amount@ * pow(10, PRECISION as nat)) / (q.stake_total as int);
                    &&& r is Ok
                    &&& final(self)@ == (EarnView {
                        lp: PoolView { reward_per_token: (q.reward_per_token + rise) as nat, ..q },
                        ..old(self)@
                    })
                    &&& forall|a: Seq<u8>| #[trigger]
                        pending(stake_of(final(self).earner(a), Pool::Lp), final(self)@.lp.reward_per_token)
                            == pending(stake_of(old(self).earner(a), Pool::Lp), q.reward_per_token)
                            + stake_of(old(self).earner(a), Pool::Lp).amount * rise
                    &&& sum_over(
                        old(self).accounts(),
                        |a: Seq<u8>| stake_of(old(self).earner(a), Pool::Lp).amount * (rise as nat),
                    ) <= payment.amount@ * pow(10, PRECISION as nat)
                }
            }),
    {
        let ghost old_self = *self;
        let r = self.distribute(config, Pool::Lp, payment);
        proof {
            if r is Ok {
                let rise = (payment.amount@ * pow(10, PRECISION as nat)) / (old_self@.lp.stake_total as int);
                assert forall|a: Seq<u8>| #[trigger]
                    pending(stake_of(self.earner(a), Pool::Lp), self@.lp.reward_per_token) == pending(
                        stake_of(old_self.earner(a), Pool::Lp),
                        old_self@.lp.reward_per_token,
                    ) + stake_of(old_self.earner(a), Pool::Lp).amount * rise by {
                    assert(pending(
                        stake_of(self.earner(a), Pool::Lp),
                        pool_of(self@, Pool::Lp).reward_per_token,
                    ) == pending(
                        stake_of(old_self.earner(a), Pool::Lp),
                        pool_of(old_self@, Pool::Lp).reward_per_token,
                    ) + stake_of(old_self.earner(a), Pool::Lp).amount * rise);
                }
            }
        }
        r
    }

    /// Stakes the paid tokens of the call, in the core or the LP stake token,
    /// and locks the caller's stake until `now` plus the lock time.
    fn stake_for_earn_endpoint(&mut self, caller: &Address, now: u64, payment: Payment) -> (r:
        Result<(), ContractError>)
        ensures
            final(self).wf(),
            match staking_pool(old(self)@, payment.token_identifier@) {
                None => r == Err::<(), ContractError>(ContractError::InvalidStakeToken)
                    && *final(self) == *old(self),
                Some(p) => {
                    let q = pool_of(old(self)@, p);
                    let e = old(self).earner(caller@);
                    let s = stake_of(e, p);
                    &&& r is Ok
                    &&& final(self)@ == with_pool(
                        old(self)@,
                        p,
                        PoolView { stake_total: q.stake_total + payment.amount@, ..q },
                    )
                    &&& final(self).earner(caller@) == with_stake(
                        EarnerView { unlock_time: (now + old(self)@.lock_time_seconds) as u64, ..e },
                        p,
                        StakeView {
                            amount: s.amount + payment.amount@,
                            reward_tally: s.reward_tally + q.reward_per_token * payment.amount@,
                        },
                    )
                    &&& forall|a: Seq<u8>|
                        a != caller@ ==> #[trigger] final(self).earner(a) == old(self).earner(a)
                    &&& forall|pp: Pool| #[trigger]
                        pending(stake_of(final(self).earner(caller@), pp), pool_of(final(self)@, pp).reward_per_token)
                            == pending(stake_of(e, pp), pool_of(old(self)@, pp).reward_per_token)
                },
            },
    {
        let p = match self.pool_for(&payment.token_identifier) {
            Some(p) => p,
            None => {
                return Err(ContractError::InvalidStakeToken);
            },
        };
        let unlock = now + self.lock_time_seconds;
        let mut e = self.earner_copy(caller);
        let ghost e0 = e@;
        let rpt = self.pool_reward_per_token(p);
        let tally_rise = SignedAmount::from_amount(&rpt.times(&payment.amount));
        let stake = e.stake(p);
        let new_stake = Stake {
            amount: stake.amount.plus(&payment.amount),
            reward_tally: stake.reward_tally.plus(&tally_rise),
        };
        e.unlock_time = unlock;
        e.set_stake(p, new_stake);
        let new_total = self.pool_total(p).plus(&payment.amount);
        let ghost old_self = *self;
        proof {
            assert(covered(e0, self@.core.reward_per_token, self@.lp.reward_per_token));
            lemma_new_stake_earns_nothing_earlier(stake_of(e0, p), pool_of(self@, p).reward_per_token, payment.amount@);
        }
        self.replace_record(caller, e, p, new_total);
        proof {
            let q = pool_of(old_self@, p);
            let s = stake_of(e0, p);
            let a = payment.amount@;
            assert((s.amount + a) * q.reward_per_token == s.amount * q.reward_per_token + q.reward_per_token
                * a) by (nonlinear_arith);
            assert forall|pp: Pool| #[trigger]
                pending(stake_of(self.earner(caller@), pp), pool_of(self@, pp).reward_per_token)
                    == pending(stake_of(e0, pp), pool_of(old_self@, pp).reward_per_token) by {}
        }
        Ok(())
    }

    /// Locks the stake of `address` until `now` plus the lock time.
    fn lock_stake_for(&mut self, address: &Address, now: u64)
        ensures
            final(self).wf(),
            final(self)@ == old(self)@,
            final(self).earner(address@) == (EarnerView {
                unlock_time: (now + old(self)@.lock_time_seconds) as u64,
                ..old(self).earner(address@)
            }),
            forall|a: Seq<u8>| a != address@ ==> #[trigger] final(self).earner(a) == old(self).earner(a),
    {
        let mut e = self.earner_copy(address);
        e.unlock_time = now + self.lock_time_seconds;
        let total = self.pool_total(Pool::Core).duplicate();
        let ghost old_self = *self;
        assert(covered(self.earner(address@), self@.core.reward_per_token, self@.lp.reward_per_token));
        self.replace_record(address, e, Pool::Core, total);
        proof {
            assert(self@.core == old_self@.core);
        }
    }

    /// Refuses the call unless `address` staked and its lock ended before
    /// `now`.
    fn require_stake_unlocked_for(&self, address: &Address, now: u64) -> (r: Result<
        (),
        ContractError,
    >)
        ensures
            self.earner(address@).unlock_time == 0 ==> r == Err::<(), ContractError>(
                ContractError::NothingToUnlock,
            ),
            self.earner(address@).unlock_time != 0 && now <= self.earner(address@).unlock_time ==> r
                == Err::<(), ContractError>(ContractError::StakeLocked),
            self.earner(address@).unlock_time != 0 && now > self.earner(address@).unlock_time ==> r
                is Ok,
    {
        let unlock_time = match self.earners.get(address) {
            Some(e) => e.unlock_time,
            None => 0,
        };
        if unlock_time == 0 {
            return Err(ContractError::NothingToUnlock);
        }
        if now <= unlock_time {
            return Err(ContractError::StakeLocked);
        }
        Ok(())
    }

    /// Withdraws `amount` of the caller's stake in the pool of `token` and sends
    /// it back to the caller. A withdrawal from the LP pool may come at any time;
    /// any other needs the caller's lock to have ended.
    fn withdraw_from_earn_endpoint(
        &mut self,
        caller: &Address,
        now: u64,
        token: TokenId,
        amount: Amount,
    ) -> (r: Result<Vec<Effect>, ContractError>)
        ensures
            final(self).wf(),
            ({
                let e = old(self).earner(caller@);
                let locked = lock_applies(old(self)@, token@);
                if locked && e.unlock_time == 0 {
                    r == Err::<Vec<Effect>, ContractError>(ContractError::NothingToUnlock) && *final(self) == *old(self)
                } else if locked && now <= e.unlock_time {
                    r == Err::<Vec<Effect>, ContractError>(ContractError::StakeLocked) && *final(self) == *old(self)
                } else {
                    match staking_pool(old(self)@, token@) {
                        None => r == Err::<Vec<Effect>, ContractError>(ContractError::InvalidToken)
                            && *final(self) == *old(self),
                        Some(p) => {
                            let q = pool_of(old(self)@, p);
                            let s = stake_of(e, p);
                            if s.amount == 0 {
                                r == Err::<Vec<Effect>, ContractError>(ContractError::NoStakeByUser)
                                    && *final(self) == *old(self)
                            } else if amount@ > s.amount {
                                r == Err::<Vec<Effect>, ContractError>(ContractError::InvalidAmount)
                                    && *final(self) == *old(self)
                            } else {
                                &&& r matches Ok(v) && effects_view(v@) == seq![
                                    EffectView::Send { to: caller@, token: token@, nonce: 0, amount: amount@ },
                                ]
                                &&& final(self)@ == with_pool(
                                    old(self)@,
                                    p,
                                    PoolView { stake_total: (q.stake_total - amount@) as nat, ..q },
                                )
                                &&& final(self).earner(caller@) == with_stake(
                                    e,
                                    p,
                                    StakeView {
                                        amount: (s.amount - amount@) as nat,
                                        reward_tally: s.reward_tally - q.reward_per_token * amount@,
                                    },
                                )
                                &&& forall|a: Seq<u8>|
                                    a != caller@ ==> #[trigger] final(self).earner(a) == old(self).earner(a)
                                &&& forall|pp: Pool| #[trigger]
                                    pending(stake_of(final(self).earner(caller@), pp), pool_of(final(self)@, pp).reward_per_token)
                                        == pending(stake_of(e, pp), pool_of(old(self)@, pp).reward_per_token)
                            }
                        },
                    }
                }
            }),
    {
        let pool = self.pool_for(&token);
        match pool {
            Some(Pool::Lp) => {},
            _ => {
                self.require_stake_unlocked_for(caller, now)?;
            },
        }
        let p = match pool {
            Some(p) => p,
            None => {
                return Err(ContractError::InvalidToken);
            },
        };
        let mut e = self.earner_copy(caller);
        let ghost e0 = e@;
        let stake = e.stake(p);
        if stake.amount.is_zero() {
            return Err(ContractError::NoStakeByUser);
        }
        if stake.amount.less_than(&amount) {
            return Err(ContractError::InvalidAmount);
        }
        proof {
            let keys = self.accounts();
            let f = |a: Seq<u8>| stake_of(self.earner(a), p).amount;
            self.lemma_wf_parts();
            if !keys.contains(caller@) {
                assert(self.earner(caller@) == zero_earner());
            }
            lemma_sum_over_ge(keys, f, caller@);
            assert(pool_of(self@, p).stake_total == self.stake_sum(p));
        }
        let rpt = self.pool_reward_per_token(p);
        let tally_fall = SignedAmount::from_amount(&rpt.times(&amount));
        let new_stake = Stake {
            amount: stake.amount.minus(&amount),
            reward_tally: stake.reward_tally.minus(&tally_fall),
        };
        e.set_stake(p, new_stake);
        let new_total = self.pool_total(p).minus(&amount);
        let ghost old_self = *self;
        proof {
            let q = pool_of(self@, p);
            let s = stake_of(e0, p);
            let a = amount@;
            assert(covered(e0, self@.core.reward_per_token, self@.lp.reward_per_token));
            assert(((s.amount - a) as nat) * q.reward_per_token == s.amount * q.reward_per_token - q.reward_per_token
                * a) by (nonlinear_arith)
                requires
                    a <= s.amount,
            ;
        }
        self.replace_record(caller, e, p, new_total);
        proof {
            let q = pool_of(old_self@, p);
            let s = stake_of(e0, p);
            let a = amount@;
            assert(((s.amount - a) as nat) * q.reward_per_token == s.amount * q.reward_per_token - q.reward_per_token
                * a) by (nonlinear_arith)
                requires
                    a <= s.amount,
            ;
            assert forall|pp: Pool| #[trigger]
                pending(stake_of(self.earner(caller@), pp), pool_of(self@, pp).reward_per_token)
                    == pending(stake_of(e0, pp), pool_of(old_self@, pp).reward_per_token) by {}
        }
        let mut effects: Vec<Effect> = Vec::new();
        let send = Effect::Send { to: caller.duplicate(), token, nonce: 0, amount };
        let ghost send_view = send@;
        effects.push(send);
        assert(effects_view(effects@) =~= seq![send_view]);
        Ok(effects)
    }

    /// The reward `address` can claim.
    fn compute_reward(&self, address: &Address) -> (r: Amount)
        ensures
            r@ == self.reward(address@),
    {
        let e = self.earner_copy(address);
        let core = Earn::earned(&e.core, &self.core_reward_per_token);
        let lp = Earn::earned(&e.lp, &self.lp_reward_per_token);
        core.plus(&lp).div_floor(&Amount::power_of_ten(PRECISION))
    }

    /// The caller's core stake, LP stake, claimable reward and unlock time.
    fn get_earner_info_view(&self, address: &Address) -> (r: (Amount, Amount, Amount, u64))
        ensures
            r.0@ == self.earner(address@).core.amount,
            r.1@ == self.earner(address@).lp.amount,
            r.2@ == self.reward(address@),
            r.3 == self.earner(address@).unlock_time,
    {
        let e = self.earner_copy(address);
        let reward = self.compute_reward(address);
        (e.core.amount, e.lp.amount, reward, e.unlock_time)
    }

    /// Sends the caller its reward in the core token, and starts its tallies
    /// afresh, so that it has nothing left to claim.
    fn claim_earn_reward_endpoint(&mut self, config: &Config, caller: &Address) -> (r:
        Result<Vec<Effect>, ContractError>)
        ensures
            final(self).wf(),
            ({
                let e = old(self).earner(caller@);
                let reward = old(self).reward(caller@);
                if reward == 0 {
                    r == Err::<Vec<Effect>, ContractError>(ContractError::NoRewardsToClaim)
                        && *final(self) == *old(self)
                } else {
                    &&& r matches Ok(v) && effects_view(v@) == seq![
                        EffectView::Send { to: caller@, token: config@.core_token, nonce: 0, amount: reward },
                    ]
                    &&& final(self)@ == old(self)@
                    &&& final(self).earner(caller@) == (EarnerView {
                        core: StakeView {
                            reward_tally: (e.core.amount * old(self)@.core.reward_per_token) as int,
                            ..e.core
                        },
                        lp: StakeView {
                            reward_tally: (e.lp.amount * old(self)@.lp.reward_per_token) as int,
                            ..e.lp
                        },
                        ..e
                    })
                    &&& forall|a: Seq<u8>|
                        a != caller@ ==> #[trigger] final(self).earner(a) == old(self).earner(a)
                    &&& final(self).reward(caller@) == 0
                }
            }),
    {
        let reward = self.compute_reward(caller);
        if reward.is_zero() {
            return Err(ContractError::NoRewardsToClaim);
        }
        let mut e = self.earner_copy(caller);
        let core_tally = SignedAmount::from_amount(&e.core.amount.times(&self.core_reward_per_token));
        let lp_tally = SignedAmount::from_amount(&e.lp.amount.times(&self.lp_reward_per_token));
        e.core.reward_tally = core_tally;
        e.lp.reward_tally = lp_tally;
        let total = self.pool_total(Pool::Core).duplicate();
        let ghost old_self = *self;
        self.replace_record(caller, e, Pool::Core, total);
        proof {
            assert(self@.core == old_self@.core);
            vstd::arithmetic::power::lemma_pow_positive(10, PRECISION as nat);
        }
        let mut effects: Vec<Effect> = Vec::new();
        let send = Effect::Send {
            to: caller.duplicate(),
            token: config.core_token().duplicate(),
            nonce: 0,
            amount: reward,
        };
        let ghost send_view = send@;
        effects.push(send);
        assert(effects_view(effects@) =~= seq![send_view]);
        Ok(effects)
    }

    /// The core stake token.
    fn core_stake_token(&self) -> (r: &TokenId)
        ensures
            r@ == self@.core.stake_token,
    {
        &self.core_stake_token
    }

    /// The LP stake token.
    fn lp_stake_token(&self) -> (r: &TokenId)
        ensures
            r@ == self@.lp.stake_token,
    {
        &self.lp_stake_token
    }

    /// How long a stake stays locked, in seconds.
    fn lock_time_seconds(&self) -> (r: u64)
        ensures
            r == self@.lock_time_seconds,
    {
        self.lock_time_seconds
    }

    /// The total stake of the core pool.
    fn core_stake_total(&self) -> (r: &Amount)
        ensures
            r@ == self@.core.stake_total,
    {
        &self.core_stake_total
    }

    /// The total stake of the LP pool.
    fn lp_stake_total(&self) -> (r: &Amount)
        ensures
            r@ == self@.lp.stake_total,
    {
        &self.lp_stake_total
    }

    /// The reward per token of the core pool, scaled by `10^18`.
    fn core_reward_per_token(&self) -> (r: &Amount)
        ensures
            r@ == self@.core.reward_per_token,
    {
        &self.core_reward_per_token
    }

    /// The reward per token of the LP pool, scaled by `10^18`.
    fn lp_reward_per_token(&self) -> (r: &Amount)
        ensures
            r@ == self@.lp.reward_per_token,
    {
        &self.lp_reward_per_token
    }

    /// The core stake of `address`.
    fn core_stake(&self, address: &Address) -> (r: Amount)
        ensures
            r@ == self.earner(address@).core.amount,
    {
        self.earner_copy(address).core.amount
    }

    /// The LP stake of `address`.
    fn lp_stake(&self, address: &Address) -> (r: Amount)
        ensures
            r@ == self.earner(address@).lp.amount,
    {
        self.earner_copy(address).lp.amount
    }

    /// The core reward tally of `address`.
    fn core_reward_tally(&self, address: &Address) -> (r: SignedAmount)
        ensures
            r@ == self.earner(address@).core.reward_tally,
    {
        self.earner_copy(address).core.reward_tally
    }

    /// The LP reward tally of `address`.
    fn lp_reward_tally(&self, address: &Address) -> (r: SignedAmount)
        ensures
            r@ == self.earner(address@).lp.reward_tally,
    {
        self.earner_copy(address).lp.reward_tally
    }

    /// When the stake of `address` unlocks (0 where it never staked).
    fn unlock_time(&self, address: &Address) -> (r: u64)
        ensures
            r == self.earner(address@).unlock_time,
    {
        self.earner_copy(address).unlock_time
    }
}

} // verus!
