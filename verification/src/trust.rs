//! Trust scores: every user's score, how managers raise or ban it, and when a
//! score is handed on to the stake contract as a virtual stake.
use crate::amount::Amount;
use crate::config::{
    lemma_position_of, position_of, registered, user_id, Config, ConfigModule, ConfigView,
};
use crate::types::{effects_view, require_owner, Address, ContractError, Effect, EffectView};
use vstd::arithmetic::power::pow;
use vstd::prelude::*;

verus! {

/// The score a new user starts with.
pub const START_AMOUNT: u64 = 1;

/// The score of a banned user.
pub const BAN_THRESHOLD: u64 = 0;

/// From this score on, a score is handed on to the stake contract.
pub const STAKE_THRESHOLD: u64 = 500;

/// The trust state as plain values.
pub struct TrustView {
    /// The score of user `i + 1` is `scores[i]`.
    pub scores: Seq<u64>,
    pub stake_contract: Option<Seq<u8>>,
    pub stake_contract_entity: Option<Seq<u8>>,
}

/// The trust state of the contract.
pub struct Trust {
    scores: Vec<u64>,
    stake_contract: Option<Address>,
    stake_contract_entity: Option<Address>,
}

impl View for Trust {
    type V = TrustView;

    closed spec fn view(&self) -> TrustView {
        TrustView {
            scores: self.scores@,
            stake_contract: match self.stake_contract {
                Some(a) => Some(a@),
                None => None,
            },
            stake_contract_entity: match self.stake_contract_entity {
                Some(a) => Some(a@),
                None => None,
            },
        }
    }
}

/// The registry and the scores together: what a credit of trust changes.
pub struct Ledger {
    pub users: Seq<Seq<u8>>,
    pub scores: Seq<u64>,
}

/// The ledger of a configuration and a trust state.
pub open spec fn ledger(c: ConfigView, t: TrustView) -> Ledger {
    Ledger { users: c.users, scores: t.scores }
}

/// The score of user `id`; storage reads 0 for a user without one.
pub open spec fn score_of(scores: Seq<u64>, id: nat) -> u64 {
    if 1 <= id <= scores.len() {
        scores[id - 1]
    } else {
        0
    }
}

/// The ledger after `a` is registered where it is new, with the start score.
pub open spec fn with_user(l: Ledger, a: Seq<u8>) -> Ledger {
    if l.users.contains(a) {
        l
    } else {
        Ledger { users: l.users.push(a), scores: l.scores.push(START_AMOUNT) }
    }
}

/// The score of `a` once registered.
pub open spec fn current_score(l: Ledger, a: Seq<u8>) -> u64 {
    let r = with_user(l, a);
    score_of(r.scores, position_of(r.users, a))
}

/// The score of `a` after `trust` is added.
pub open spec fn credited_score(l: Ledger, a: Seq<u8>, trust: u64) -> int {
    current_score(l, a) + trust
}

/// Whether adding `trust` to `a` stays within `u64`.
pub open spec fn credit_fits(l: Ledger, a: Seq<u8>, trust: u64) -> bool {
    credited_score(l, a, trust) <= u64::MAX
}

/// The ledger after the score of `a` is set to `v`, registering `a` where it is
/// new.
pub open spec fn set_score(l: Ledger, a: Seq<u8>, v: u64) -> Ledger {
    let r = with_user(l, a);
    Ledger { users: r.users, scores: r.scores.update(position_of(r.users, a) - 1, v) }
}

/// The ledger after `trust` is added to `a`, registering `a` where it is new.
pub open spec fn credit(l: Ledger, a: Seq<u8>, trust: u64) -> Ledger {
    set_score(l, a, credited_score(l, a, trust) as u64)
}

/// Whether a score is handed on to the stake contract: a ban, or a score at or
/// above the stake threshold.
pub open spec fn renews(trust: u64) -> bool {
    trust == BAN_THRESHOLD || trust >= STAKE_THRESHOLD
}

/// The effects of handing the score `trust` of `user` on: none below the
/// threshold; otherwise one call of the stake contract, which must be set.
pub open spec fn renewal(t: TrustView, user: Seq<u8>, trust: u64) -> Result<
    Seq<EffectView>,
    ContractError,
> {
    if !renews(trust) {
        Ok(Seq::empty())
    } else {
        match (t.stake_contract, t.stake_contract_entity) {
            (Some(contract), Some(entity)) => Ok(
                seq![EffectView::RenewVirtualStake { contract, entity, user, trust }],
            ),
            _ => Err(ContractError::StakeContractNotSet),
        }
    }
}

/// The ledger after each `(address, trust)` entry is credited in order.
pub open spec fn credit_all(l: Ledger, entries: Seq<(Seq<u8>, u64)>) -> Ledger
    decreases entries.len(),
{
    if entries.len() == 0 {
        l
    } else {
        let e = entries.last();
        credit(credit_all(l, entries.drop_last()), e.0, e.1)
    }
}

/// Whether every credit of the batch stays within `u64`.
pub open spec fn all_fit(l: Ledger, entries: Seq<(Seq<u8>, u64)>) -> bool
    decreases entries.len(),
{
    if entries.len() == 0 {
        true
    } else {
        let e = entries.last();
        all_fit(l, entries.drop_last()) && credit_fits(credit_all(l, entries.drop_last()), e.0, e.1)
    }
}

/// The `(address, new score)` of each credit of the batch that is handed on, in
/// order.
pub open spec fn renewals(l: Ledger, entries: Seq<(Seq<u8>, u64)>) -> Seq<(Seq<u8>, u64)>
    decreases entries.len(),
{
    if entries.len() == 0 {
        Seq::empty()
    } else {
        let e = entries.last();
        let before = credit_all(l, entries.drop_last());
        let score = credited_score(before, e.0, e.1) as u64;
        if renews(score) {
            renewals(l, entries.drop_last()).push((e.0, score))
        } else {
            renewals(l, entries.drop_last())
        }
    }
}

/// The calls of the stake contract for a list of handed-on scores.
pub open spec fn renewal_calls(contract: Seq<u8>, entity: Seq<u8>, r: Seq<(Seq<u8>, u64)>) -> Seq<
    EffectView,
> {
    r.map_values(
        |x: (Seq<u8>, u64)| EffectView::RenewVirtualStake { contract, entity, user: x.0, trust: x.1 },
    )
}

/// The entries of a batch as plain values.
pub open spec fn entries_view(entries: Seq<(Address, u64)>) -> Seq<(Seq<u8>, u64)> {
    entries.map_values(|e: (Address, u64)| (e.0@, e.1))
}

/// Exactly the scores 0 (a ban) and 500 and above are handed on to the stake
/// contract.
pub proof fn lemma_renews_exactly(trust: u64)
    ensures
        renews(trust) <==> (trust == 0 || trust >= 500),
{
}

/// Handing a score on is one call of the configured stake contract, for the
/// configured entity, with the user and the score itself; it is refused where
/// no stake contract is set, and a score strictly between 0 and 500 is not
/// handed on at all.
pub proof fn lemma_renewal_is_one_call_of_the_stake_contract(t: TrustView, user: Seq<u8>, trust: u64)
    ensures
        0 < trust < 500 ==> renewal(t, user, trust) == Ok::<Seq<EffectView>, ContractError>(
            Seq::empty(),
        ),
        (trust == 0 || trust >= 500) && t.stake_contract is Some && t.stake_contract_entity is Some
            ==> renewal(t, user, trust) == Ok::<Seq<EffectView>, ContractError>(
            seq![
                EffectView::RenewVirtualStake {
                    contract: t.stake_contract->Some_0,
                    entity: t.stake_contract_entity->Some_0,
                    user,
                    trust,
                },
            ],
        ),
        (trust == 0 || trust >= 500) && (t.stake_contract is None || t.stake_contract_entity is None)
            ==> renewal(t, user, trust) == Err::<Seq<EffectView>, ContractError>(
            ContractError::StakeContractNotSet,
        ),
{
}

/// The calls of the stake contract for a list of handed-on scores: one per
/// score, in order, each to `contract` for `entity` with that user and score.
pub proof fn lemma_renewal_calls_are_addressed(
    contract: Seq<u8>,
    entity: Seq<u8>,
    rs: Seq<(Seq<u8>, u64)>,
)
    ensures
        renewal_calls(contract, entity, rs).len() == rs.len(),
        forall|i: int|
            0 <= i < rs.len() ==> #[trigger] renewal_calls(contract, entity, rs)[i]
                == (EffectView::RenewVirtualStake { contract, entity, user: rs[i].0, trust: rs[i].1 }),
{
}

/// A batch hands each score on as a single credit would: the calls of a batch
/// with one more entry are those of the shorter batch followed by exactly the
/// effects of handing that entry's new score on alone.
pub proof fn lemma_batch_renews_like_single_credits(
    t: TrustView,
    contract: Seq<u8>,
    entity: Seq<u8>,
    l: Ledger,
    entries: Seq<(Seq<u8>, u64)>,
    e: (Seq<u8>, u64),
)
    requires
        t.stake_contract == Some(contract),
        t.stake_contract_entity == Some(entity),
    ensures
        match renewal(t, e.0, credited_score(credit_all(l, entries), e.0, e.1) as u64) {
            Ok(single) => renewal_calls(contract, entity, renewals(l, entries.push(e)))
                == renewal_calls(contract, entity, renewals(l, entries)) + single,
            Err(_) => false,
        },
{
    let all = entries.push(e);
    assert(all.drop_last() =~= entries);
    assert(all.last() == e);
    let score = credited_score(credit_all(l, entries), e.0, e.1) as u64;
    let rs = renewals(l, entries);
    if renews(score) {
        assert(renewal_calls(contract, entity, rs.push((e.0, score))) =~= renewal_calls(
            contract,
            entity,
            rs,
        ) + seq![EffectView::RenewVirtualStake { contract, entity, user: e.0, trust: score }]);
    } else {
        assert(renewal_calls(contract, entity, rs) + Seq::<EffectView>::empty() =~= renewal_calls(
            contract,
            entity,
            rs,
        ));
    }
}

/// Crediting trust adds it to the user's score, starting a new user at 1, and
/// leaves the score of every other registered user as it was.
pub proof fn lemma_credit_adds_to_the_score(l: Ledger, a: Seq<u8>, trust: u64, b: Seq<u8>)
    requires
        l.users.no_duplicates(),
        l.scores.len() == l.users.len(),
        credit_fits(l, a, trust),
    ensures
        current_score(credit(l, a, trust), a) == current_score(l, a) + trust,
        !l.users.contains(a) ==> current_score(l, a) == 1,
        b != a && l.users.contains(b) ==> current_score(credit(l, a, trust), b) == current_score(l, b),
{
    lemma_with_user(l, a);
    let r = with_user(l, a);
    let c = credit(l, a, trust);
    let p = position_of(r.users, a);
    assert(c.users == r.users);
    assert(c.users.contains(a)) by {
        assert(c.users[p - 1] == a);
    }
    assert(with_user(c, a) == c);
    lemma_position_of(l.users, a);
    if b != a && l.users.contains(b) {
        lemma_position_of(l.users, b);
        lemma_position_of(r.users, b);
        lemma_position_of(c.users, b);
        let pb = position_of(l.users, b);
        assert(r.users[pb - 1] == b);
        assert(position_of(r.users, b) == pb);
        assert(with_user(l, b) == l);
        assert(r.users.contains(b)) by {
            assert(r.users[pb - 1] == b);
        }
        assert(with_user(c, b) == c);
        assert(pb - 1 != p - 1);
        if !l.users.contains(a) {
            assert(r.scores[pb - 1] == l.scores[pb - 1]);
        }
    }
}

/// A batch of one entry does what a single credit does: the same ledger, the
/// same overflow condition, and a renewal exactly where the new score is due
/// one.
pub proof fn lemma_batch_of_one(l: Ledger, a: Seq<u8>, trust: u64)
    ensures
        credit_all(l, seq![(a, trust)]) == credit(l, a, trust),
        all_fit(l, seq![(a, trust)]) == credit_fits(l, a, trust),
        renewals(l, seq![(a, trust)]) == if renews(credited_score(l, a, trust) as u64) {
            seq![(a, credited_score(l, a, trust) as u64)]
        } else {
            Seq::<(Seq<u8>, u64)>::empty()
        },
{
    let e = seq![(a, trust)];
    let none = Seq::<(Seq<u8>, u64)>::empty();
    assert(e.drop_last() =~= none);
    assert(e.last() == (a, trust));
    assert(credit_all(l, none) == l);
    assert(all_fit(l, none));
    assert(renewals(l, none) == none);
    assert(Seq::<(Seq<u8>, u64)>::empty().push((a, credited_score(l, a, trust) as u64)) =~= seq![
        (a, credited_score(l, a, trust) as u64),
    ]);
}

/// After a ban the user's score is the ban threshold, so that it is refused
/// where a trusted user is required.
pub proof fn lemma_banned_users_are_refused(l: Ledger, a: Seq<u8>)
    requires
        l.users.no_duplicates(),
        l.scores.len() == l.users.len(),
    ensures
        current_score(set_score(l, a, BAN_THRESHOLD), a) == BAN_THRESHOLD,
{
    lemma_with_user(l, a);
    let r = with_user(l, a);
    let b = set_score(l, a, BAN_THRESHOLD);
    assert(b.users == r.users);
    assert(b.users.contains(a)) by {
        assert(b.users[position_of(r.users, a) - 1] == a);
    }
    assert(with_user(b, a) == b);
}

proof fn lemma_all_fit_prefix(l: Ledger, entries: Seq<(Seq<u8>, u64)>, i: int)
    requires
        all_fit(l, entries),
        0 <= i <= entries.len(),
    ensures
        all_fit(l, entries.take(i)),
    decreases entries.len(),
{
    if i < entries.len() {
        assert(entries.drop_last().take(i) =~= entries.take(i));
        lemma_all_fit_prefix(l, entries.drop_last(), i);
    } else {
        assert(entries.take(i) =~= entries);
    }
}

proof fn lemma_renewals_prefix(l: Ledger, entries: Seq<(Seq<u8>, u64)>, i: int)
    requires
        0 <= i <= entries.len(),
    ensures
        renewals(l, entries.take(i)).len() <= renewals(l, entries).len(),
    decreases entries.len(),
{
    if i < entries.len() {
        assert(entries.drop_last().take(i) =~= entries.take(i));
        lemma_renewals_prefix(l, entries.drop_last(), i);
    } else {
        assert(entries.take(i) =~= entries);
    }
}

proof fn lemma_with_user(l: Ledger, a: Seq<u8>)
    requires
        l.users.no_duplicates(),
        l.scores.len() == l.users.len(),
    ensures
        with_user(l, a).users.no_duplicates(),
        with_user(l, a).scores.len() == with_user(l, a).users.len(),
        1 <= position_of(with_user(l, a).users, a) <= with_user(l, a).users.len(),
        with_user(l, a).users[position_of(with_user(l, a).users, a) - 1] == a,
        l.users.contains(a) ==> position_of(l.users, a) == position_of(with_user(l, a).users, a),
{
    let r = with_user(l, a);
    lemma_position_of(l.users, a);
    if !l.users.contains(a) {
        assert(r.users.last() == a);
        assert forall|j: int, k: int|
            0 <= j < r.users.len() && 0 <= k < r.users.len() && j != k implies r.users[j]
            != r.users[k] by {
            if j < l.users.len() && k < l.users.len() {
                assert(r.users[j] == l.users[j]);
                assert(r.users[k] == l.users[k]);
            } else if j < l.users.len() {
                assert(l.users.contains(r.users[j]));
            } else {
                assert(l.users.contains(r.users[k]));
            }
        }
    }
    lemma_position_of(r.users, a);
}

/// The trust endpoints of the contract, over the user registry of the
/// configuration.
pub trait TrustModule: View<V = TrustView> {
    /// The scores cover exactly the registered users.
    spec fn tracks(&self, config: &Config) -> bool;

    /// Sets the stake contract and the entity it stakes for (owner only). The
    /// address must be a smart contract: `contract_is_smart_contract` is what the
    /// chain answers of it.
    fn set_trust_stake_contract_endpoint(
        &mut self,
        caller: &Address,
        owner: &Address,
        contract: Address,
        entity: Address,
        contract_is_smart_contract: bool,
    ) -> (r: Result<(), ContractError>);

    /// Refuses the call where the user's score is at the ban threshold.
    fn require_not_banned(&self, user: usize) -> (r: Result<(), ContractError>);

    /// The trust score of an address: 0 for an unknown one.
    fn get_trust_score(&self, config: &Config, address: &Address) -> (r: u64)
        requires
            self.tracks(config),
    ;

    /// The effects of handing the score `trust` of user `user` on to the stake
    /// contract.
    fn renew_trust_stake(&self, config: &Config, user: usize, trust: u64) -> (r: Result<
        Vec<Effect>,
        ContractError,
    >)
        requires
            1 <= user <= config@.users.len(),
    ;

    /// Adds `amount` to the trust score of `user` (owner or manager only),
    /// registering the user where it is new, and hands the new score on to the
    /// stake contract where it is at or above the threshold.
    fn add_trust_endpoint(
        &mut self,
        config: &mut Config,
        caller: &Address,
        owner: &Address,
        user: &Address,
        amount: u64,
    ) -> (r: Result<Vec<Effect>, ContractError>)
        requires
            old(self).tracks(old(config)),
            (caller@ == owner@ || old(config)@.managers.contains(caller@)) ==> credit_fits(
                ledger(old(config)@, old(self)@),
                user@,
                amount,
            ),
    ;

    /// The user id of `address`, registering it with the start score where it
    /// is new.
    fn get_or_create_trusted_user(&mut self, config: &mut Config, address: &Address) -> (id:
        usize)
        requires
            old(self).tracks(old(config)),
    ;

    /// The user id of `address`, registering it where it is new; refused where
    /// the user is banned.
    fn get_trusted_user_or_fail(&mut self, config: &mut Config, address: &Address) -> (r:
        Result<usize, ContractError>)
        requires
            old(self).tracks(old(config)),
    ;

    /// Adds `trust` to the score of the registered user `user`, and hands the
    /// new score on where it is at or above the threshold; refused for user 0.
    fn increase_trust_score(&mut self, config: &Config, user: usize, trust: u64) -> (r:
        Result<Vec<Effect>, ContractError>)
        requires
            old(self).tracks(config),
            user <= config@.users.len(),
            user != 0 ==> old(self)@.scores[user - 1] + trust <= u64::MAX,
    ;

    /// Bans `address` (owner or manager only): its score drops to the ban
    /// threshold, registering it where it is new, and the stake contract is told.
    fn ban_user_endpoint(
        &mut self,
        config: &mut Config,
        caller: &Address,
        owner: &Address,
        address: &Address,
    ) -> (r: Result<Vec<Effect>, ContractError>)
        requires
            old(self).tracks(old(config)),
    ;

    /// Hands the current score of a registered user on to the stake contract
    /// again, where it is at or above the threshold.
    fn restake_trust_endpoint(&self, config: &Config, user: &Address) -> (r: Result<
        Vec<Effect>,
        ContractError,
    >)
        requires
            self.tracks(config),
    ;

    /// The trust that `amount` base units of a token with `decimals` decimals
    /// earn: one point per whole token, rounded down. The count must be at most
    /// `i64::MAX`, the largest number the framework's conversion to `u64` gives.
    fn calculate_trust_from_tokens(&self, amount: &Amount, decimals: u32) -> (r: u64)
        requires
            amount@ as int / pow(10, decimals as nat) <= i64::MAX,
    ;

    /// Adds trust to each `(address, trust)` entry in order (owner or manager
    /// only), as [`TrustModule::add_trust_endpoint`] does for one. Where one of
    /// the new scores is due to be handed on and no stake contract is set, the
    /// whole batch is refused.
    fn add_trust_batch_endpoint(
        &mut self,
        config: &mut Config,
        caller: &Address,
        owner: &Address,
        entries: &Vec<(Address, u64)>,
    ) -> (r: Result<Vec<Effect>, ContractError>)
        requires
            old(self).tracks(old(config)),
            (caller@ == owner@ || old(config)@.managers.contains(caller@)) ==> all_fit(
                ledger(old(config)@, old(self)@),
                entries_view(entries@),
            ),
    ;
}

impl Trust {
    /// A trust state with these parts, as storage holds them.
    pub fn from_parts(
        scores: Vec<u64>,
        stake_contract: Option<Address>,
        stake_contract_entity: Option<Address>,
    ) -> (r: Trust)
        ensures
            r@.scores == scores@,
            r@.stake_contract == match stake_contract {
                Some(a) => Some(a@),
                None => None::<Seq<u8>>,
            },
            r@.stake_contract_entity == match stake_contract_entity {
                Some(a) => Some(a@),
                None => None::<Seq<u8>>,
            },
    {
        Trust { scores, stake_contract, stake_contract_entity }
    }

    /// The scores; user `i + 1` has the one at index `i`.
    pub fn scores(&self) -> (r: &Vec<u64>)
        ensures
            r@ == self@.scores,
    {
        &self.scores
    }

    /// The stake contract, if set.
    pub fn stake_contract(&self) -> (r: &Option<Address>)
        ensures
            match r {
                Some(a) => self@.stake_contract == Some(a@),
                None => self@.stake_contract is None,
            },
    {
        &self.stake_contract
    }

    /// The entity the stake contract stakes for, if set.
    pub fn stake_contract_entity(&self) -> (r: &Option<Address>)
        ensures
            match r {
                Some(a) => self@.stake_contract_entity == Some(a@),
                None => self@.stake_contract_entity is None,
            },
    {
        &self.stake_contract_entity
    }

    /// No scores and no stake contract.
    pub fn new() -> (r: Trust)
        ensures
            r@.scores == Seq::<u64>::empty(),
            r@.stake_contract is None,
            r@.stake_contract_entity is None,
    {
        let r = Trust { scores: Vec::new(), stake_contract: None, stake_contract_entity: None };
        assert(r@.scores =~= Seq::<u64>::empty());
        r
    }

    /// The score of user `user` (0 for one without a score).
    fn score(&self, user: usize) -> (r: u64)
        ensures
            r == score_of(self@.scores, user as nat),
    {
        if 1 <= user && user <= self.scores.len() {
            self.scores[user - 1]
        } else {
            0
        }
    }

    /// The call of the stake contract, if any, that hands the score `trust` of
    /// `user` on.
    fn renewal_call(&self, user: &Address, trust: u64) -> (r: Result<Option<Effect>, ContractError>)
        ensures
            match r {
                Ok(None) => renewal(self@, user@, trust) == Ok::<Seq<EffectView>, ContractError>(
                    Seq::empty(),
                ),
                Ok(Some(e)) => renewal(self@, user@, trust) == Ok::<Seq<EffectView>, ContractError>(
                    seq![e@],
                ),
                Err(e) => renewal(self@, user@, trust) == Err::<Seq<EffectView>, ContractError>(e),
            },
    {
        if trust != BAN_THRESHOLD && trust < STAKE_THRESHOLD {
            return Ok(None);
        }
        match (&self.stake_contract, &self.stake_contract_entity) {
            (Some(contract), Some(entity)) => Ok(
                Some(
                    Effect::RenewVirtualStake {
                        contract: contract.duplicate(),
                        entity: entity.duplicate(),
                        user: user.duplicate(),
                        trust,
                    },
                ),
            ),
            _ => Err(ContractError::StakeContractNotSet),
        }
    }

    /// The effects of handing the score `trust` of `user` on.
    fn renewal_for(&self, user: &Address, trust: u64) -> (r: Result<Vec<Effect>, ContractError>)
        ensures
            match r {
                Ok(effects) => renewal(self@, user@, trust) == Ok::<Seq<EffectView>, ContractError>(
                    effects_view(effects@),
                ),
                Err(e) => renewal(self@, user@, trust) == Err::<Seq<EffectView>, ContractError>(e),
            },
    {
        let mut v: Vec<Effect> = Vec::new();
        match self.renewal_call(user, trust) {
            Ok(Some(e)) => {
                let ghost ev = e@;
                v.push(e);
                assert(effects_view(v@) =~= seq![ev]);
            },
            Ok(None) => {
                assert(effects_view(v@) =~= Seq::<EffectView>::empty());
            },
            Err(e) => {
                return Err(e);
            },
        }
        Ok(v)
    }

    /// Registers `a` where it is new, with the start score, and sets its score to
    /// `v`; gives its user id.
    fn store_score(&mut self, config: &mut Config, a: &Address, v: u64) -> (id: usize)
        requires
            old(self).tracks(old(config)),
        ensures
            final(self).tracks(final(config)),
            ledger(final(config)@, final(self)@) == set_score(ledger(old(config)@, old(self)@), a@, v),
            final(config)@ == (ConfigView { users: final(config)@.users, ..old(config)@ }),
            final(self)@ == (TrustView { scores: final(self)@.scores, ..old(self)@ }),
            id == position_of(final(config)@.users, a@),
            1 <= id <= final(config)@.users.len(),
    {
        let ghost l = ledger(config@, self@);
        proof {
            lemma_with_user(l, a@);
            lemma_position_of(config@.users, a@);
        }
        let p = config.get_user_id(a);
        let id = config.get_or_create_user(a);
        if p == 0 {
            self.scores.push(START_AMOUNT);
        }
        proof {
            lemma_position_of(config@.users, a@);
        }
        self.scores.set(id - 1, v);
        id
    }

    /// The score `a` has once registered.
    fn current_score_of(&self, config: &Config, a: &Address) -> (r: u64)
        requires
            self.tracks(config),
        ensures
            r == current_score(ledger(config@, self@), a@),
    {
        proof {
            lemma_with_user(ledger(config@, self@), a@);
            lemma_position_of(config@.users, a@);
        }
        let p = config.get_user_id(a);
        if p == 0 {
            START_AMOUNT
        } else {
            self.scores[p - 1]
        }
    }

    /// Adds `trust` to `a`, registering it where it is new, and gives the
    /// effects of handing its new score on; nothing changes where that fails.
    pub(crate) fn credit_trust(&mut self, config: &mut Config, a: &Address, trust: u64) -> (r: Result<
        Vec<Effect>,
        ContractError,
    >)
        requires
            old(self).tracks(old(config)),
            credit_fits(ledger(old(config)@, old(self)@), a@, trust),
        ensures
            final(self).tracks(final(config)),
            ({
                let l = ledger(old(config)@, old(self)@);
                match renewal(old(self)@, a@, credited_score(l, a@, trust) as u64) {
                    Err(e) => r == Err::<Vec<Effect>, ContractError>(e) && *final(self) == *old(self)
                        && *final(config) == *old(config),
                    Ok(effects) => r matches Ok(v) && effects_view(v@) == effects && ledger(
                        final(config)@,
                        final(self)@,
                    ) == credit(l, a@, trust) && final(config)@ == (ConfigView {
                        users: final(config)@.users,
                        ..old(config)@
                    }) && final(self)@ == (TrustView { scores: final(self)@.scores, ..old(self)@ }),
                }
            }),
    {
        let current = self.current_score_of(config, a);
        let new_score = current + trust;
        let effects = self.renewal_for(a, new_score)?;
        self.store_score(config, a, new_score);
        Ok(effects)
    }
}

impl TrustModule for Trust {
    /// The scores cover exactly the registered users.
    open spec fn tracks(&self, config: &Config) -> bool {
        &&& config.wf()
        &&& self@.scores.len() == config@.users.len()
    }

    /// Sets the stake contract and the entity it stakes for (owner only). The
    /// address must be a smart contract: `contract_is_smart_contract` is what the
    /// chain answers of it.
    fn set_trust_stake_contract_endpoint(
        &mut self,
        caller: &Address,
        owner: &Address,
        contract: Address,
        entity: Address,
        contract_is_smart_contract: bool,
    ) -> (r: Result<(), ContractError>)
        ensures
            r is Ok <==> caller@ == owner@ && contract_is_smart_contract,
            r matches Err(e) ==> *final(self) == *old(self) && e == (if caller@ != owner@ {
                ContractError::OnlyOwner
            } else {
                ContractError::InvalidContract
            }),
            r is Ok ==> final(self)@ == (TrustView {
                stake_contract: Some(contract@),
                stake_contract_entity: Some(entity@),
                ..old(self)@
            }),
    {
        require_owner(caller, owner)?;
        if !contract_is_smart_contract {
            return Err(ContractError::InvalidContract);
        }
        self.stake_contract = Some(contract);
        self.stake_contract_entity = Some(entity);
        Ok(())
    }

    /// Refuses the call where the user's score is at the ban threshold.
    fn require_not_banned(&self, user: usize) -> (r: Result<(), ContractError>)
        ensures
            r is Ok <==> score_of(self@.scores, user as nat)
                > BAN_THRESHOLD,
            r matches Err(e) ==> e == ContractError::TrustBanned,
    {
        if self.score(user) > BAN_THRESHOLD {
            Ok(())
        } else {
            Err(ContractError::TrustBanned)
        }
    }

    /// The trust score of an address: 0 for an unknown one.
    fn get_trust_score(&self, config: &Config, address: &Address) -> (r: u64)
        ensures
            r == score_of(self@.scores, user_id(config@, address@)),
    {
        let user = config.get_user_id(address);
        if user == 0 {
            return 0;
        }
        self.score(user)
    }

    /// The effects of handing the score `trust` of user `user` on to the stake
    /// contract.
    fn renew_trust_stake(&self, config: &Config, user: usize, trust: u64) -> (r: Result<
        Vec<Effect>,
        ContractError,
    >)
        ensures
            match r {
                Ok(effects) => renewal(self@, config@.users[user - 1], trust) == Ok::<
                    Seq<EffectView>,
                    ContractError,
                >(effects_view(effects@)),
                Err(e) => renewal(self@, config@.users[user - 1], trust) == Err::<
                    Seq<EffectView>,
                    ContractError,
                >(e),
            },
    {
        self.renewal_for(config.get_user_address(user), trust)
    }

    /// Adds `amount` to the trust score of `user` (owner or manager only),
    /// registering the user where it is new, and hands the new score on to the
    /// stake contract where it is at or above the threshold.
    fn add_trust_endpoint(
        &mut self,
        config: &mut Config,
        caller: &Address,
        owner: &Address,
        user: &Address,
        amount: u64,
    ) -> (r: Result<Vec<Effect>, ContractError>)
        ensures
            final(self).tracks(final(config)),
            ({
                let l = ledger(old(config)@, old(self)@);
                if !(caller@ == owner@ || old(config)@.managers.contains(caller@)) {
                    r == Err::<Vec<Effect>, ContractError>(ContractError::CallerNotManager)
                        && *final(self) == *old(self) && *final(config) == *old(config)
                } else {
                    match renewal(old(self)@, user@, credited_score(l, user@, amount) as u64) {
                        Err(e) => r == Err::<Vec<Effect>, ContractError>(e) && *final(self)
                            == *old(self) && *final(config) == *old(config),
                        Ok(effects) => r matches Ok(v) && effects_view(v@) == effects && ledger(
                            final(config)@,
                            final(self)@,
                        ) == credit(l, user@, amount) && final(config)@ == (ConfigView {
                            users: final(config)@.users,
                            ..old(config)@
                        }) && final(self)@ == (TrustView {
                            scores: final(self)@.scores,
                            ..old(self)@
                        }),
                    }
                }
            }),
    {
        config.require_caller_manager(caller, owner)?;
        self.credit_trust(config, user, amount)
    }

    /// The user id of `address`, registering it with the start score where it
    /// is new.
    fn get_or_create_trusted_user(&mut self, config: &mut Config, address: &Address) -> (id:
        usize)
        ensures
            final(self).tracks(final(config)),
            ledger(final(config)@, final(self)@) == with_user(ledger(old(config)@, old(self)@), address@),
            final(config)@ == (ConfigView { users: final(config)@.users, ..old(config)@ }),
            final(self)@ == (TrustView { scores: final(self)@.scores, ..old(self)@ }),
            id == user_id(final(config)@, address@),
            id >= 1,
    {
        let ghost l = ledger(config@, self@);
        proof {
            lemma_with_user(l, address@);
            lemma_position_of(config@.users, address@);
        }
        let p = config.get_user_id(address);
        if p != 0 {
            return p;
        }
        let id = config.get_or_create_user(address);
        self.scores.push(START_AMOUNT);
        assert(ledger(config@, self@) == with_user(l, address@));
        id
    }

    /// The user id of `address`, registering it where it is new; refused where
    /// the user is banned.
    fn get_trusted_user_or_fail(&mut self, config: &mut Config, address: &Address) -> (r:
        Result<usize, ContractError>)
        ensures
            final(self).tracks(final(config)),
            ({
                let l = ledger(old(config)@, old(self)@);
                if current_score(l, address@) == BAN_THRESHOLD {
                    r == Err::<usize, ContractError>(ContractError::TrustBanned) && *final(self)
                        == *old(self) && *final(config) == *old(config)
                } else {
                    r matches Ok(id) && id == user_id(final(config)@, address@) && ledger(
                        final(config)@,
                        final(self)@,
                    ) == with_user(l, address@) && final(config)@ == (ConfigView {
                        users: final(config)@.users,
                        ..old(config)@
                    }) && final(self)@ == (TrustView { scores: final(self)@.scores, ..old(self)@ })
                }
            }),
    {
        let ghost l = ledger(config@, self@);
        proof {
            lemma_with_user(l, address@);
            lemma_position_of(config@.users, address@);
        }
        let p = config.get_user_id(address);
        if p != 0 {
            self.require_not_banned(p)?;
            return Ok(p);
        }
        let id = self.get_or_create_trusted_user(config, address);
        Ok(id)
    }

    /// Adds `trust` to the score of the registered user `user`, and hands the
    /// new score on where it is at or above the threshold; refused for user 0.
    fn increase_trust_score(&mut self, config: &Config, user: usize, trust: u64) -> (r:
        Result<Vec<Effect>, ContractError>)
        ensures
            final(self).tracks(config),
            user == 0 ==> r == Err::<Vec<Effect>, ContractError>(ContractError::UserNotFound)
                && *final(self) == *old(self),
            user != 0 ==> ({
                let new_score = (old(self)@.scores[user - 1] + trust) as u64;
                match renewal(old(self)@, config@.users[user - 1], new_score) {
                    Err(e) => r == Err::<Vec<Effect>, ContractError>(e) && *final(self)
                        == *old(self),
                    Ok(effects) => r matches Ok(v) && effects_view(v@) == effects && final(self)@
                        == (TrustView {
                        scores: old(self)@.scores.update(user - 1, new_score),
                        ..old(self)@
                    }),
                }
            }),
    {
        if user == 0 {
            return Err(ContractError::UserNotFound);
        }
        let new_score = self.scores[user - 1] + trust;
        let effects = self.renew_trust_stake(config, user, new_score)?;
        self.scores.set(user - 1, new_score);
        Ok(effects)
    }

    /// Bans `address` (owner or manager only): its score drops to the ban
    /// threshold, registering it where it is new, and the stake contract is told.
    fn ban_user_endpoint(
        &mut self,
        config: &mut Config,
        caller: &Address,
        owner: &Address,
        address: &Address,
    ) -> (r: Result<Vec<Effect>, ContractError>)
        ensures
            final(self).tracks(final(config)),
            ({
                let l = ledger(old(config)@, old(self)@);
                if !(caller@ == owner@ || old(config)@.managers.contains(caller@)) {
                    r == Err::<Vec<Effect>, ContractError>(ContractError::CallerNotManager)
                        && *final(self) == *old(self) && *final(config) == *old(config)
                } else {
                    match renewal(old(self)@, address@, BAN_THRESHOLD) {
                        Err(e) => r == Err::<Vec<Effect>, ContractError>(e) && *final(self)
                            == *old(self) && *final(config) == *old(config),
                        Ok(effects) => r matches Ok(v) && effects_view(v@) == effects && ledger(
                            final(config)@,
                            final(self)@,
                        ) == set_score(l, address@, BAN_THRESHOLD) && final(config)@ == (
                        ConfigView { users: final(config)@.users, ..old(config)@ })
                            && final(self)@ == (TrustView {
                            scores: final(self)@.scores,
                            ..old(self)@
                        }),
                    }
                }
            }),
    {
        config.require_caller_manager(caller, owner)?;
        let effects = self.renewal_for(address, BAN_THRESHOLD)?;
        self.store_score(config, address, BAN_THRESHOLD);
        Ok(effects)
    }

    /// Hands the current score of a registered user on to the stake contract
    /// again, where it is at or above the threshold.
    fn restake_trust_endpoint(&self, config: &Config, user: &Address) -> (r: Result<
        Vec<Effect>,
        ContractError,
    >)
        ensures
            ({
                let id = user_id(config@, user@);
                if id == 0 {
                    r == Err::<Vec<Effect>, ContractError>(ContractError::UserNotFound)
                } else {
                    match renewal(self@, user@, score_of(self@.scores, id)) {
                        Err(e) => r == Err::<Vec<Effect>, ContractError>(e),
                        Ok(effects) => r matches Ok(v) && effects_view(v@) == effects,
                    }
                }
            }),
    {
        let id = config.get_user_id(user);
        if id == 0 {
            return Err(ContractError::UserNotFound);
        }
        proof {
            lemma_position_of(config@.users, user@);
        }
        let trust = self.score(id);
        self.renewal_for(user, trust)
    }

    /// The trust that `amount` base units of a token with `decimals` decimals
    /// earn: one point per whole token, rounded down. The count must be at most
    /// `i64::MAX`, the largest number the framework's conversion to `u64` gives.
    fn calculate_trust_from_tokens(&self, amount: &Amount, decimals: u32) -> (r: u64)
        ensures
            r == amount@ as int / pow(10, decimals as nat),
    {
        let unit = Amount::power_of_ten(decimals);
        let whole = amount.div_floor(&unit);
        match whole.to_u64() {
            Some(v) => v,
            None => 0,
        }
    }

    /// Adds trust to each `(address, trust)` entry in order (owner or manager
    /// only), as [`TrustModule::add_trust_endpoint`] does for one. Where one of
    /// the new scores is due to be handed on and no stake contract is set, the
    /// whole batch is refused.
    fn add_trust_batch_endpoint(
        &mut self,
        config: &mut Config,
        caller: &Address,
        owner: &Address,
        entries: &Vec<(Address, u64)>,
    ) -> (r: Result<Vec<Effect>, ContractError>)
        ensures
            final(self).tracks(final(config)),
            ({
                let l = ledger(old(config)@, old(self)@);
                let rs = renewals(l, entries_view(entries@));
                if !(caller@ == owner@ || old(config)@.managers.contains(caller@)) {
                    r == Err::<Vec<Effect>, ContractError>(ContractError::CallerNotManager)
                        && *final(self) == *old(self) && *final(config) == *old(config)
                } else {
                    match (old(self)@.stake_contract, old(self)@.stake_contract_entity) {
                        (Some(contract), Some(entity)) => r matches Ok(v) && effects_view(v@)
                            == renewal_calls(contract, entity, rs) && ledger(
                            final(config)@,
                            final(self)@,
                        ) == credit_all(l, entries_view(entries@)) && final(config)@ == (
                        ConfigView { users: final(config)@.users, ..old(config)@ })
                            && final(self)@ == (TrustView {
                            scores: final(self)@.scores,
                            ..old(self)@
                        }),
                        _ => if rs.len() == 0 {
                            r matches Ok(v) && v@.len() == 0 && ledger(final(config)@, final(self)@)
                                == credit_all(l, entries_view(entries@)) && final(config)@ == (
                            ConfigView { users: final(config)@.users, ..old(config)@ })
                                && final(self)@ == (TrustView {
                                scores: final(self)@.scores,
                                ..old(self)@
                            })
                        } else {
                            r == Err::<Vec<Effect>, ContractError>(
                                ContractError::StakeContractNotSet,
                            ) && final(self)@ == old(self)@ && final(config)@ == old(config)@
                        },
                    }
                }
            }),
    {
        config.require_caller_manager(caller, owner)?;
        let ghost c0 = config@;
        let ghost t0 = self@;
        let ghost l0 = ledger(config@, self@);
        let ghost ev = entries_view(entries@);
        let saved_len = config.get_user_count();
        let saved_scores = self.scores.clone();
        assert(saved_scores@ =~= t0.scores);
        let mut effects: Vec<Effect> = Vec::new();
        let mut i: usize = 0;
        assert(ev.take(0) =~= Seq::<(Seq<u8>, u64)>::empty());
        assert(c0.users.take(c0.users.len() as int) =~= c0.users);
        assert(effects_view(effects@) =~= Seq::<EffectView>::empty());
        while i < entries.len()
            invariant
                i <= entries.len(),
                ev == entries_view(entries@),
                ev.len() == entries@.len(),
                l0 == ledger(c0, t0),
                t0 == old(self)@,
                c0 == old(config)@,
                caller@ == owner@ || c0.managers.contains(caller@),
                self.tracks(config),
                ledger(config@, self@) == credit_all(l0, ev.take(i as int)),
                config@ == (ConfigView { users: config@.users, ..c0 }),
                self@ == (TrustView { scores: self@.scores, ..t0 }),
                all_fit(l0, ev),
                saved_len == c0.users.len(),
                saved_scores@ == t0.scores,
                t0.scores.len() == c0.users.len(),
                c0.users.len() <= config@.users.len(),
                config@.users.take(c0.users.len() as int) == c0.users,
                c0.users.no_duplicates(),
                match (t0.stake_contract, t0.stake_contract_entity) {
                    (Some(contract), Some(entity)) => effects_view(effects@) == renewal_calls(
                        contract,
                        entity,
                        renewals(l0, ev.take(i as int)),
                    ),
                    _ => renewals(l0, ev.take(i as int)).len() == 0 && effects@.len() == 0,
                },
            decreases entries.len() - i,
        {
            let ghost before = ledger(config@, self@);
            let ghost users_before = config@.users;
            let entry = &entries[i];
            assert(ev[i as int] == (entry.0@, entry.1));
            assert(ev.take(i + 1).drop_last() =~= ev.take(i as int));
            assert(ev.take(i + 1).last() == ev[i as int]);
            proof {
                lemma_all_fit_prefix(l0, ev, i + 1);
                lemma_with_user(before, entry.0@);
            }
            let current = self.current_score_of(config, &entry.0);
            let new_score = current + entry.1;
            assert(before == credit_all(l0, ev.take(i as int)));
            assert(new_score == credited_score(before, entry.0@, entry.1) as u64);
            assert(renewals(l0, ev.take(i + 1)) == if renews(new_score) {
                renewals(l0, ev.take(i as int)).push((entry.0@, new_score))
            } else {
                renewals(l0, ev.take(i as int))
            });
            assert(renewal(self@, entry.0@, new_score) == renewal(t0, entry.0@, new_score));
            match self.renewal_call(&entry.0, new_score) {
                Ok(Some(e)) => {
                    let ghost prev = effects_view(effects@);
                    let ghost eview = e@;
                    effects.push(e);
                    assert(effects_view(effects@) =~= prev.push(eview));
                    proof {
                        let rs = renewals(l0, ev.take(i as int));
                        match (t0.stake_contract, t0.stake_contract_entity) {
                            (Some(contract), Some(entity)) => {
                                let call = EffectView::RenewVirtualStake {
                                    contract,
                                    entity,
                                    user: entry.0@,
                                    trust: new_score,
                                };
                                assert(renewal(t0, entry.0@, new_score) == Ok::<
                                    Seq<EffectView>,
                                    ContractError,
                                >(seq![eview]));
                                if !renews(new_score) {
                                    assert(seq![eview].len() == 1);
                                    assert(false);
                                }
                                assert(renewal(t0, entry.0@, new_score) == Ok::<
                                    Seq<EffectView>,
                                    ContractError,
                                >(seq![call]));
                                assert(seq![eview] =~= seq![call]);
                                assert(seq![eview][0] == seq![call][0]);
                                assert(eview == EffectView::RenewVirtualStake {
                                    contract,
                                    entity,
                                    user: entry.0@,
                                    trust: new_score,
                                });
                                assert(renewal_calls(contract, entity, rs.push((entry.0@, new_score)))
                                    =~= renewal_calls(contract, entity, rs).push(eview));
                            },
                            _ => {
                                assert(renewal(t0, entry.0@, new_score) == Ok::<
                                    Seq<EffectView>,
                                    ContractError,
                                >(seq![eview]));
                                assert(seq![eview].len() == 1);
                                assert(false);
                            },
                        }
                    }
                },
                Ok(None) => {
                    proof {
                        if renews(new_score) {
                            assert(renewal(t0, entry.0@, new_score) == Ok::<
                                Seq<EffectView>,
                                ContractError,
                            >(Seq::empty()));
                            match (t0.stake_contract, t0.stake_contract_entity) {
                                (Some(contract), Some(entity)) => {
                                    assert(seq![
                                        EffectView::RenewVirtualStake {
                                            contract,
                                            entity,
                                            user: entry.0@,
                                            trust: new_score,
                                        },
                                    ].len() == 1);
                                    assert(false);
                                },
                                _ => {},
                            }
                        }
                    }
                },
                Err(e) => {
                    proof {
                        lemma_renewals_prefix(l0, ev, i + 1);
                        assert(renews(new_score));
                        assert(renewals(l0, ev.take(i + 1)).len() > 0);
                        assert(e == ContractError::StakeContractNotSet);
                    }
                    config.truncate_users(saved_len);
                    self.scores = saved_scores;
                    assert(config@.users =~= c0.users);
                    assert(self@.scores =~= t0.scores);
                    assert(self@ == t0);
                    assert(config@ == c0);
                    assert(renewals(l0, ev).len() > 0);
                    assert(!(t0.stake_contract is Some && t0.stake_contract_entity is Some));
                    return Err(e);
                },
            }
            self.store_score(config, &entry.0, new_score);
            proof {
                assert(config@.users.take(c0.users.len() as int) =~= c0.users) by {
                    assert(users_before.take(c0.users.len() as int) == c0.users);
                    if !users_before.contains(entry.0@) {
                        assert(config@.users =~= users_before.push(entry.0@));
                    }
                }
            }
            i = i + 1;
        }
        assert(ev.take(i as int) =~= ev);
        Ok(effects)
    }
}

} // verus!
