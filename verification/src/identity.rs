//! The identity contract itself: its configuration and trust scores together
//! with every account's avatar, and the endpoints that turn burnt tokens into
//! trust.
use crate::address_map::{lookup, AddressMap};
use crate::amount::Amount;
use crate::config::{
    effective_multiplier, Config, ConfigModule, ConfigView, CORE_TOKEN_DECIMALS, REWARD_TOKEN_DECIMALS,
};
use crate::trust::{
    credit, credit_fits, credited_score, ledger, renewal, Trust, TrustModule, TrustView,
};
use crate::types::{
    effects_view, is_valid_esdt_identifier, require_owner, Address, ContractError, Effect,
    EffectView, Payment, TokenId,
};
use vstd::arithmetic::power::pow;
use vstd::prelude::*;

verus! {

/// An NFT chosen as an account's picture.
#[derive(Debug)]
pub struct Avatar {
    pub token_id: TokenId,
    pub nonce: u64,
}

/// An [`Avatar`] as plain values.
pub struct AvatarView {
    pub token_id: Seq<u8>,
    pub nonce: u64,
}

impl View for Avatar {
    type V = AvatarView;

    open spec fn view(&self) -> AvatarView {
        AvatarView { token_id: self.token_id@, nonce: self.nonce }
    }
}

/// The avatar stored for an address, as plain values.
pub open spec fn avatar_of(avatars: Seq<(Seq<u8>, Avatar)>, a: Seq<u8>) -> Option<AvatarView> {
    match lookup(avatars, a) {
        Some(v) => Some(v@),
        None => None,
    }
}

/// The trust that `amount` base units of a token with `decimals` decimals earn
/// with the given multiplier.
pub open spec fn trust_for_tokens(amount: nat, decimals: u32, multiplier: u64) -> int {
    (amount as int / pow(10, decimals as nat)) * multiplier
}

/// Burning `whole` whole tokens and `rest` base units less than one more token
/// earns `whole` times the multiplier: the rest earns nothing.
pub proof fn lemma_trust_counts_whole_tokens(whole: nat, rest: nat, decimals: u32, multiplier: u64)
    requires
        rest < pow(10, decimals as nat),
    ensures
        trust_for_tokens(whole * pow(10, decimals as nat) as nat + rest, decimals, multiplier)
            == whole * multiplier,
{
    let unit = pow(10, decimals as nat);
    vstd::arithmetic::power::lemma_pow_positive(10, decimals as nat);
    vstd::arithmetic::div_mod::lemma_fundamental_div_mod_converse(
        whole * unit + rest,
        unit,
        whole as int,
        rest as int,
    );
}

/// The state of the identity contract.
pub struct IdentityState {
    pub config: Config,
    pub trust: Trust,
    pub avatars: AddressMap<Avatar>,
}

/// The endpoints of the identity contract.
pub trait Identity: Sized {
    /// The configuration, as plain values.
    spec fn config_view(&self) -> ConfigView;

    /// The trust state, as plain values.
    spec fn trust_view(&self) -> TrustView;

    /// The scores track the registry, and no address has two avatars.
    spec fn wf(&self) -> bool;

    /// Deploys the contract with its core token, reward token and the price of
    /// an avatar.
    fn init(core_token: TokenId, reward_token: TokenId, image_update_cost: Amount) -> (r: Self);

    /// An upgrade keeps the state as it is.
    fn upgrade(&mut self);

    /// Burns the paid core tokens and raises the caller's trust by one point per
    /// whole token, times the configured multiplier; the new score is handed on
    /// to the stake contract where it is at or above the threshold.
    fn burn_for_trust_endpoint(&mut self, caller: &Address, payment: Payment) -> (r: Result<
        Vec<Effect>,
        ContractError,
    >)
        requires
            old(self).wf(),
            payment.token_identifier@ == old(self).config_view().core_token ==> {
                let m = effective_multiplier(old(self).config_view());
                &&& payment.amount@ as int / pow(10, CORE_TOKEN_DECIMALS as nat) <= i64::MAX
                &&& trust_for_tokens(payment.amount@, CORE_TOKEN_DECIMALS, m) <= u64::MAX
                &&& credit_fits(
                    ledger(old(self).config_view(), old(self).trust_view()),
                    caller@,
                    trust_for_tokens(payment.amount@, CORE_TOKEN_DECIMALS, m) as u64,
                )
            },
    ;

    /// Burns the paid reward tokens and raises the caller's trust by one point
    /// per whole token; the new score is handed on to the stake contract where it
    /// is at or above the threshold.
    fn migrate_to_trust_endpoint(&mut self, caller: &Address, payment: Payment) -> (r: Result<
        Vec<Effect>,
        ContractError,
    >)
        requires
            old(self).wf(),
            payment.token_identifier@ == old(self).config_view().reward_token ==> {
                &&& payment.amount@ as int / pow(10, REWARD_TOKEN_DECIMALS as nat) <= i64::MAX
                &&& credit_fits(
                    ledger(old(self).config_view(), old(self).trust_view()),
                    caller@,
                    trust_for_tokens(payment.amount@, REWARD_TOKEN_DECIMALS, 1) as u64,
                )
            },
    ;

    /// Sends the contract's whole balance of the core token, `balance` as the
    /// chain reports it, to the caller (owner only).
    fn withdraw_cost_tokens_endpoint(&self, caller: &Address, owner: &Address, balance: Amount) -> (r:
        Result<Vec<Effect>, ContractError>);

    /// Sets the caller's avatar to the NFT `nft_nonce` of `nft_collection`, for a
    /// payment of at least the avatar price in core tokens, which is burnt.
    fn set_avatar_endpoint(
        &mut self,
        caller: &Address,
        payment: Payment,
        nft_collection: TokenId,
        nft_nonce: u64,
    ) -> (r: Result<Vec<Effect>, ContractError>)
        requires
            old(self).wf(),
    ;

    /// Sets the avatar of `address` (owner only), without payment.
    fn set_avatar_admin_endpoint(
        &mut self,
        caller: &Address,
        owner: &Address,
        address: Address,
        nft_collection: TokenId,
        nft_nonce: u64,
    ) -> (r: Result<(), ContractError>)
        requires
            old(self).wf(),
    ;

    /// Removes the caller's avatar.
    fn remove_avatar_endpoint(&mut self, caller: &Address)
        requires
            old(self).wf(),
    ;

    /// The avatar of `address`, as its collection and nonce, if it has one.
    fn get_avatar_view(&self, address: &Address) -> (r: Option<(TokenId, u64)>);
}

impl IdentityState {
    /// The contract state with these parts, as storage holds them; `None` where
    /// the scores do not cover exactly the registered users.
    pub fn from_parts(config: Config, trust: Trust, avatars: AddressMap<Avatar>) -> (r: Option<
        IdentityState,
    >)
        requires
            config.wf(),
            avatars.wf(),
        ensures
            r is Some <==> trust@.scores.len() == config@.users.len(),
            r matches Some(x) ==> x.wf() && x.config == config && x.trust == trust && x.avatars
                == avatars,
    {
        if trust.scores().len() != config.get_user_count() {
            return None;
        }
        Some(IdentityState { config, trust, avatars })
    }

    /// Burns the paid tokens, which must be `expected`, and credits the caller
    /// with one point per whole token times `multiplier`.
    fn tokens_to_trust(
        &mut self,
        caller: &Address,
        payment: Payment,
        expected: &TokenId,
        decimals: u32,
        multiplier: u64,
    ) -> (r: Result<Vec<Effect>, ContractError>)
        requires
            old(self).wf(),
            payment.token_identifier@ == expected@ ==> {
                &&& payment.amount@ as int / pow(10, decimals as nat) <= i64::MAX
                &&& trust_for_tokens(payment.amount@, decimals, multiplier) <= u64::MAX
                &&& credit_fits(
                    ledger(old(self).config@, old(self).trust@),
                    caller@,
                    trust_for_tokens(payment.amount@, decimals, multiplier) as u64,
                )
            },
        ensures
            final(self).wf(),
            final(self).avatars == old(self).avatars,
            ({
                let l = ledger(old(self).config@, old(self).trust@);
                let trust = trust_for_tokens(payment.amount@, decimals, multiplier) as u64;
                if payment.token_identifier@ != expected@ {
                    r == Err::<Vec<Effect>, ContractError>(ContractError::InvalidToken)
                        && *final(self) == *old(self)
                } else {
                    match renewal(old(self).trust@, caller@, credited_score(l, caller@, trust) as u64) {
                        Err(e) => r == Err::<Vec<Effect>, ContractError>(e) && *final(self)
                            == *old(self),
                        Ok(renewed) => r matches Ok(v) && effects_view(v@) == seq![
                            EffectView::Burn {
                                token: payment.token_identifier@,
                                nonce: payment.token_nonce,
                                amount: payment.amount@,
                            },
                        ] + renewed && ledger(final(self).config@, final(self).trust@) == credit(
                            l,
                            caller@,
                            trust,
                        ) && final(self).config@ == (ConfigView {
                            users: final(self).config@.users,
                            ..old(self).config@
                        }) && final(self).trust@ == (TrustView {
                            scores: final(self).trust@.scores,
                            ..old(self).trust@
                        }),
                    }
                }
            }),
    {
        if !payment.token_identifier.same_as(expected) {
            return Err(ContractError::InvalidToken);
        }
        let tokens = self.trust.calculate_trust_from_tokens(&payment.amount, decimals);
        let trust = tokens * multiplier;
        let renewed = self.trust.credit_trust(&mut self.config, caller, trust)?;
        let ghost renewed_view = effects_view(renewed@);
        let mut effects: Vec<Effect> = Vec::new();
        let burn = Effect::Burn {
            token: payment.token_identifier,
            nonce: payment.token_nonce,
            amount: payment.amount,
        };
        let ghost burn_view = burn@;
        effects.push(burn);
        let mut renewed = renewed;
        effects.append(&mut renewed);
        assert(effects_view(effects@) =~= seq![burn_view] + renewed_view);
        Ok(effects)
    }

    /// Stores the avatar of `address`.
    fn store_avatar(&mut self, address: Address, token_id: TokenId, nonce: u64)
        requires
            old(self).wf(),
        ensures
            final(self).wf(),
            final(self).config == old(self).config,
            final(self).trust == old(self).trust,
            forall|a: Seq<u8>| #[trigger]
                avatar_of(final(self).avatars@, a) == if a == address@ {
                    Some(AvatarView { token_id: token_id@, nonce })
                } else {
                    avatar_of(old(self).avatars@, a)
                },
    {
        let ghost k = address@;
        let ghost old_avatars = self.avatars@;
        let avatar = Avatar { token_id, nonce };
        let ghost av = avatar;
        self.avatars.insert(address, avatar);
        proof {
            crate::address_map::lemma_stored(old_avatars, k, av);
            assert forall|a: Seq<u8>| #[trigger]
                avatar_of(self.avatars@, a) == if a == k {
                    Some(av@)
                } else {
                    avatar_of(old_avatars, a)
                } by {
                assert(lookup(self.avatars@, a) == if a == k {
                    Some(av)
                } else {
                    lookup(old_avatars, a)
                });
            }
        }
    }
}

impl Identity for IdentityState {
    /// The configuration, as plain values.
    open spec fn config_view(&self) -> ConfigView {
        self.config@
    }

    /// The trust state, as plain values.
    open spec fn trust_view(&self) -> TrustView {
        self.trust@
    }

    /// The scores track the registry, and no address has two avatars.
    open spec fn wf(&self) -> bool {
        &&& self.trust.tracks(&self.config)
        &&& self.avatars.wf()
    }

    /// Deploys the contract with its core token, reward token and the price of
    /// an avatar.
    fn init(core_token: TokenId, reward_token: TokenId, image_update_cost: Amount) -> (r: Self)
        ensures
            r.wf(),
            r.config@.core_token == core_token@,
            r.config@.reward_token == reward_token@,
            r.config@.cost_avatar_set == image_update_cost@,
            r.config@.users == Seq::<Seq<u8>>::empty(),
            r.config@.managers == Seq::<Seq<u8>>::empty(),
            r.config@.core_token_burn_trust_multiplier == 0,
            r.trust@.scores == Seq::<u64>::empty(),
            r.trust@.stake_contract is None,
            r.trust@.stake_contract_entity is None,
            r.avatars@ == Seq::<(Seq<u8>, Avatar)>::empty(),
    {
        IdentityState {
            config: Config::new(core_token, reward_token, image_update_cost),
            trust: Trust::new(),
            avatars: AddressMap::new(),
        }
    }

    /// An upgrade keeps the state as it is.
    fn upgrade(&mut self)
        ensures
            *final(self) == *old(self),
    {
    }

    /// Burns the paid core tokens and raises the caller's trust by one point per
    /// whole token, times the configured multiplier; the new score is handed on
    /// to the stake contract where it is at or above the threshold.
    fn burn_for_trust_endpoint(&mut self, caller: &Address, payment: Payment) -> (r: Result<
        Vec<Effect>,
        ContractError,
    >)
        ensures
            final(self).wf(),
            final(self).avatars == old(self).avatars,
            ({
                let l = ledger(old(self).config@, old(self).trust@);
                let m = effective_multiplier(old(self).config@);
                let trust = trust_for_tokens(payment.amount@, CORE_TOKEN_DECIMALS, m) as u64;
                if payment.token_identifier@ != old(self).config@.core_token {
                    r == Err::<Vec<Effect>, ContractError>(ContractError::InvalidToken)
                        && *final(self) == *old(self)
                } else {
                    match renewal(old(self).trust@, caller@, credited_score(l, caller@, trust) as u64) {
                        Err(e) => r == Err::<Vec<Effect>, ContractError>(e) && *final(self)
                            == *old(self),
                        Ok(renewed) => r matches Ok(v) && effects_view(v@) == seq![
                            EffectView::Burn {
                                token: payment.token_identifier@,
                                nonce: payment.token_nonce,
                                amount: payment.amount@,
                            },
                        ] + renewed && ledger(final(self).config@, final(self).trust@) == credit(
                            l,
                            caller@,
                            trust,
                        ) && final(self).config@ == (ConfigView {
                            users: final(self).config@.users,
                            ..old(self).config@
                        }) && final(self).trust@ == (TrustView {
                            scores: final(self).trust@.scores,
                            ..old(self).trust@
                        }),
                    }
                }
            }),
    {
        let stored = self.config.core_token_burn_trust_multiplier();
        let multiplier: u64 = if stored == 0 {
            1
        } else {
            stored as u64
        };
        let core_token = self.config.core_token().duplicate();
        self.tokens_to_trust(caller, payment, &core_token, CORE_TOKEN_DECIMALS, multiplier)
    }

    /// Burns the paid reward tokens and raises the caller's trust by one point
    /// per whole token; the new score is handed on to the stake contract where it
    /// is at or above the threshold.
    fn migrate_to_trust_endpoint(&mut self, caller: &Address, payment: Payment) -> (r: Result<
        Vec<Effect>,
        ContractError,
    >)
        ensures
            final(self).wf(),
            final(self).avatars == old(self).avatars,
            ({
                let l = ledger(old(self).config@, old(self).trust@);
                let trust = trust_for_tokens(payment.amount@, REWARD_TOKEN_DECIMALS, 1) as u64;
                if payment.token_identifier@ != old(self).config@.reward_token {
                    r == Err::<Vec<Effect>, ContractError>(ContractError::InvalidToken)
                        && *final(self) == *old(self)
                } else {
                    match renewal(old(self).trust@, caller@, credited_score(l, caller@, trust) as u64) {
                        Err(e) => r == Err::<Vec<Effect>, ContractError>(e) && *final(self)
                            == *old(self),
                        Ok(renewed) => r matches Ok(v) && effects_view(v@) == seq![
                            EffectView::Burn {
                                token: payment.token_identifier@,
                                nonce: payment.token_nonce,
                                amount: payment.amount@,
                            },
                        ] + renewed && ledger(final(self).config@, final(self).trust@) == credit(
                            l,
                            caller@,
                            trust,
                        ) && final(self).config@ == (ConfigView {
                            users: final(self).config@.users,
                            ..old(self).config@
                        }) && final(self).trust@ == (TrustView {
                            scores: final(self).trust@.scores,
                            ..old(self).trust@
                        }),
                    }
                }
            }),
    {
        let reward_token = self.config.reward_token().duplicate();
        self.tokens_to_trust(caller, payment, &reward_token, REWARD_TOKEN_DECIMALS, 1)
    }

    /// Sends the contract's whole balance of the core token, `balance` as the
    /// chain reports it, to the caller (owner only).
    fn withdraw_cost_tokens_endpoint(&self, caller: &Address, owner: &Address, balance: Amount) -> (r:
        Result<Vec<Effect>, ContractError>)
        ensures
            caller@ != owner@ ==> r == Err::<Vec<Effect>, ContractError>(ContractError::OnlyOwner),
            caller@ == owner@ ==> (r matches Ok(v) && effects_view(v@) == seq![
                EffectView::Send {
                    to: caller@,
                    token: self.config@.core_token,
                    nonce: 0,
                    amount: balance@,
                },
            ]),
    {
        require_owner(caller, owner)?;
        let mut effects: Vec<Effect> = Vec::new();
        let send = Effect::Send {
            to: caller.duplicate(),
            token: self.config.core_token().duplicate(),
            nonce: 0,
            amount: balance,
        };
        let ghost send_view = send@;
        effects.push(send);
        assert(effects_view(effects@) =~= seq![send_view]);
        Ok(effects)
    }

    /// Sets the caller's avatar to the NFT `nft_nonce` of `nft_collection`, for a
    /// payment of at least the avatar price in core tokens, which is burnt.
    fn set_avatar_endpoint(
        &mut self,
        caller: &Address,
        payment: Payment,
        nft_collection: TokenId,
        nft_nonce: u64,
    ) -> (r: Result<Vec<Effect>, ContractError>)
        ensures
            final(self).wf(),
            final(self).config == old(self).config,
            final(self).trust == old(self).trust,
            !is_valid_esdt_identifier(nft_collection@) ==> r == Err::<Vec<Effect>, ContractError>(
                ContractError::NotAValidToken,
            ) && *final(self) == *old(self),
            is_valid_esdt_identifier(nft_collection@) && payment.token_identifier@ != old(
                self,
            ).config@.core_token ==> r == Err::<Vec<Effect>, ContractError>(
                ContractError::InvalidToken,
            ) && *final(self) == *old(self),
            is_valid_esdt_identifier(nft_collection@) && payment.token_identifier@ == old(
                self,
            ).config@.core_token && payment.amount@ < old(self).config@.cost_avatar_set ==> r
                == Err::<Vec<Effect>, ContractError>(ContractError::InvalidAmount) && *final(self)
                == *old(self),
            is_valid_esdt_identifier(nft_collection@) && payment.token_identifier@ == old(
                self,
            ).config@.core_token && payment.amount@ >= old(self).config@.cost_avatar_set ==> {
                &&& r matches Ok(v) && effects_view(v@) == seq![
                    EffectView::Burn {
                        token: payment.token_identifier@,
                        nonce: payment.token_nonce,
                        amount: payment.amount@,
                    },
                ]
                &&& forall|a: Seq<u8>| #[trigger]
                    avatar_of(final(self).avatars@, a) == if a == caller@ {
                        Some(AvatarView { token_id: nft_collection@, nonce: nft_nonce })
                    } else {
                        avatar_of(old(self).avatars@, a)
                    }
            },
    {
        if !nft_collection.is_valid_esdt_identifier() {
            return Err(ContractError::NotAValidToken);
        }
        if !payment.token_identifier.same_as(self.config.core_token()) {
            return Err(ContractError::InvalidToken);
        }
        if payment.amount.less_than(self.config.cost_avatar_set()) {
            return Err(ContractError::InvalidAmount);
        }
        let ghost collection = nft_collection@;
        self.store_avatar(caller.duplicate(), nft_collection, nft_nonce);
        let mut effects: Vec<Effect> = Vec::new();
        let burn = Effect::Burn {
            token: payment.token_identifier,
            nonce: payment.token_nonce,
            amount: payment.amount,
        };
        let ghost burn_view = burn@;
        effects.push(burn);
        assert(effects_view(effects@) =~= seq![burn_view]);
        Ok(effects)
    }

    /// Sets the avatar of `address` (owner only), without payment.
    fn set_avatar_admin_endpoint(
        &mut self,
        caller: &Address,
        owner: &Address,
        address: Address,
        nft_collection: TokenId,
        nft_nonce: u64,
    ) -> (r: Result<(), ContractError>)
        ensures
            final(self).wf(),
            final(self).config == old(self).config,
            final(self).trust == old(self).trust,
            caller@ != owner@ ==> r == Err::<(), ContractError>(ContractError::OnlyOwner)
                && *final(self) == *old(self),
            caller@ == owner@ && !is_valid_esdt_identifier(nft_collection@) ==> r == Err::<
                (),
                ContractError,
            >(ContractError::NotAValidToken) && *final(self) == *old(self),
            caller@ == owner@ && is_valid_esdt_identifier(nft_collection@) ==> {
                &&& r is Ok
                &&& forall|a: Seq<u8>| #[trigger]
                    avatar_of(final(self).avatars@, a) == if a == address@ {
                        Some(AvatarView { token_id: nft_collection@, nonce: nft_nonce })
                    } else {
                        avatar_of(old(self).avatars@, a)
                    }
            },
    {
        require_owner(caller, owner)?;
        if !nft_collection.is_valid_esdt_identifier() {
            return Err(ContractError::NotAValidToken);
        }
        self.store_avatar(address, nft_collection, nft_nonce);
        Ok(())
    }

    /// Removes the caller's avatar.
    fn remove_avatar_endpoint(&mut self, caller: &Address)
        ensures
            final(self).wf(),
            final(self).config == old(self).config,
            final(self).trust == old(self).trust,
            forall|a: Seq<u8>| #[trigger]
                avatar_of(final(self).avatars@, a) == if a == caller@ {
                    None
                } else {
                    avatar_of(old(self).avatars@, a)
                },
    {
        let ghost old_avatars = self.avatars@;
        self.avatars.remove(caller);
        assert forall|a: Seq<u8>| #[trigger]
            avatar_of(self.avatars@, a) == if a == caller@ {
                None
            } else {
                avatar_of(old_avatars, a)
            } by {
            assert(lookup(self.avatars@, a) == if a == caller@ {
                None
            } else {
                lookup(old_avatars, a)
            });
        }
    }

    /// The avatar of `address`, as its collection and nonce, if it has one.
    fn get_avatar_view(&self, address: &Address) -> (r: Option<(TokenId, u64)>)
        ensures
            match avatar_of(self.avatars@, address@) {
                Some(av) => r matches Some(x) && x.0@ == av.token_id && x.1 == av.nonce,
                None => r is None,
            },
    {
        match self.avatars.get(address) {
            Some(avatar) => Some((avatar.token_id.duplicate(), avatar.nonce)),
            None => None,
        }
    }
}

} // verus!
