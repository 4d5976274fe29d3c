use identity::amount::Amount;
use identity::config::{Config, ConfigModule};
use identity::address_map::AddressMap;
use identity::amount::SignedAmount;
use identity::earn::{Earn, EarnModule, Earner, Stake};
use identity::types::{Address, ContractError, Effect, Payment, TokenId};

const CORE_TOKEN_ID: &[u8] = b"SUPER-abcdef";
const REWARD_TOKEN_ID: &[u8] = b"SUPERRWD-abcdef";
const EARN_STAKE_CORE_TOKEN_ID: &[u8] = b"SUPERPOWER-abcdef";
const EARN_STAKE_LP_TOKEN_ID: &[u8] = b"SUPEREGLD-abcdef";
const EARN_STAKE_LOCK_TIME_SECONDS: u64 = 100;

fn addr(name: &str) -> Address {
    Address::new(name.as_bytes().to_vec())
}

fn token(id: &[u8]) -> TokenId {
    TokenId::new(id.to_vec())
}

fn amount(v: u64) -> Amount {
    Amount::from_u64(v)
}

fn pay(id: &[u8], v: u64) -> Payment {
    Payment { token_identifier: token(id), token_nonce: 0, amount: amount(v) }
}

fn same(a: &Amount, v: u64) -> bool {
    a.equals(&amount(v))
}

struct Setup {
    config: Config,
    earn: Earn,
    owner: Address,
}

fn setup_contract() -> Setup {
    let owner = addr("owner");
    let config = Config::new(token(CORE_TOKEN_ID), token(REWARD_TOKEN_ID), amount(100));
    let mut earn = Earn::new();
    earn.init_earn_module_endpoint(
        &owner,
        &owner,
        token(EARN_STAKE_CORE_TOKEN_ID),
        token(EARN_STAKE_LP_TOKEN_ID),
        EARN_STAKE_LOCK_TIME_SECONDS,
    )
    .unwrap();
    Setup { config, earn, owner }
}

/// `500 * 10^18 / stake_total`, the rise of the reward per token.
fn rise(paid: u64, stake_total: u64) -> Amount {
    amount(paid).times(&Amount::power_of_ten(18)).div_floor(&amount(stake_total))
}

#[test]
fn it_distributes_to_core_stakers() {
    let mut setup = setup_contract();
    let user_address = addr("user");
    let stake_total = 20u64;

    setup.earn.stake_for_earn_endpoint(&user_address, 0, pay(EARN_STAKE_CORE_TOKEN_ID, stake_total)).unwrap();

    let expected_rtp = amount(500).times(&amount(10).pow(18)).div_floor(&amount(stake_total));
    setup.earn.distribute_to_earn_core_endpoint(&setup.config, &pay(CORE_TOKEN_ID, 500)).unwrap();
    assert!(setup.earn.core_reward_per_token().equals(&expected_rtp));

    // test it adds up
    let expected_rtp = setup.earn.core_reward_per_token().plus(
        &amount(500).times(&amount(10).pow(18)).div_floor(&amount(stake_total)),
    );
    setup.earn.distribute_to_earn_core_endpoint(&setup.config, &pay(CORE_TOKEN_ID, 500)).unwrap();
    assert!(setup.earn.core_reward_per_token().equals(&expected_rtp));
    assert!(setup.earn.core_reward_per_token().equals(&rise(1000, stake_total)));
}

#[test]
fn it_fails_if_paid_with_wrong_token() {
    let mut setup = setup_contract();
    let user_address = addr("user");
    setup.earn.stake_for_earn_endpoint(&user_address, 0, pay(EARN_STAKE_CORE_TOKEN_ID, 20)).unwrap();

    let result = setup.earn.distribute_to_earn_core_endpoint(&setup.config, &pay(b"TOKEN-123456", 500));
    assert_eq!(result, Err(ContractError::InvalidToken));
    assert!(setup.earn.core_reward_per_token().is_zero());
}

#[test]
fn it_stakes_core_stake_tokens() {
    let mut setup = setup_contract();
    let user_address = addr("user");

    setup.earn.stake_for_earn_endpoint(&user_address, 0, pay(EARN_STAKE_CORE_TOKEN_ID, 500)).unwrap();

    assert!(same(&setup.earn.core_stake(&user_address), 500));
    assert!(same(setup.earn.core_stake_total(), 500));
}

#[test]
fn it_withdraws_core_stake_tokens() {
    let mut setup = setup_contract();
    let user_address = addr("user");

    setup.earn.stake_for_earn_endpoint(&user_address, 0, pay(EARN_STAKE_CORE_TOKEN_ID, 500)).unwrap();

    let effects = setup
        .earn
        .withdraw_from_earn_endpoint(
            &user_address,
            EARN_STAKE_LOCK_TIME_SECONDS + 1,
            token(EARN_STAKE_CORE_TOKEN_ID),
            amount(500),
        )
        .unwrap();

    assert!(same(&setup.earn.core_stake(&user_address), 0));
    assert!(same(setup.earn.core_stake_total(), 0));
    assert_eq!(effects.len(), 1);
    match &effects[0] {
        Effect::Send { to, token: t, nonce, amount: a } => {
            assert!(to.same_as(&user_address));
            assert!(t.same_as(&token(EARN_STAKE_CORE_TOKEN_ID)));
            assert_eq!(*nonce, 0);
            assert!(same(a, 500));
        }
        _ => panic!("expected a transfer"),
    }
}

#[test]
fn it_fails_to_withdraw_locked_stake() {
    let mut setup = setup_contract();
    let user_address = addr("user");

    setup.earn.stake_for_earn_endpoint(&user_address, 0, pay(EARN_STAKE_CORE_TOKEN_ID, 500)).unwrap();

    let result = setup.earn.withdraw_from_earn_endpoint(
        &user_address,
        5,
        token(EARN_STAKE_CORE_TOKEN_ID),
        amount(500),
    );
    assert!(matches!(result, Err(ContractError::StakeLocked)));
    assert!(same(&setup.earn.core_stake(&user_address), 500));
}

#[test]
fn it_unstakes_lp_stake_tokens() {
    let mut setup = setup_contract();
    let user_address = addr("user");

    setup.earn.stake_for_earn_endpoint(&user_address, 0, pay(EARN_STAKE_LP_TOKEN_ID, 500)).unwrap();

    let effects = setup
        .earn
        .withdraw_from_earn_endpoint(&user_address, 0, token(EARN_STAKE_LP_TOKEN_ID), amount(500))
        .unwrap();

    assert!(same(&setup.earn.lp_stake(&user_address), 0));
    assert!(same(setup.earn.lp_stake_total(), 0));
    assert_eq!(effects.len(), 1);
    match &effects[0] {
        Effect::Send { to, token: t, nonce, amount: a } => {
            assert!(to.same_as(&user_address));
            assert!(t.same_as(&token(EARN_STAKE_LP_TOKEN_ID)));
            assert_eq!(*nonce, 0);
            assert!(same(a, 500));
        }
        _ => panic!("expected a transfer"),
    }
}

#[test]
fn core_stakes_stay_locked_while_lp_stakes_do_not() {
    let mut setup = setup_contract();
    let user = addr("user");
    setup.earn.stake_for_earn_endpoint(&user, 0, pay(EARN_STAKE_CORE_TOKEN_ID, 50)).unwrap();
    setup.earn.stake_for_earn_endpoint(&user, 0, pay(EARN_STAKE_LP_TOKEN_ID, 50)).unwrap();
    let r = setup.earn.withdraw_from_earn_endpoint(&user, 5, token(EARN_STAKE_CORE_TOKEN_ID), amount(50));
    assert!(matches!(r, Err(ContractError::StakeLocked)));
    setup.earn.withdraw_from_earn_endpoint(&user, 5, token(EARN_STAKE_LP_TOKEN_ID), amount(20)).unwrap();
    assert!(same(&setup.earn.lp_stake(&user), 30));
    assert!(same(&setup.earn.core_stake(&user), 50));
    // an LP withdrawal needs no stake at all to have locked anything
    let other = addr("other");
    let r = setup.earn.withdraw_from_earn_endpoint(&other, 5, token(EARN_STAKE_LP_TOKEN_ID), amount(1));
    assert!(matches!(r, Err(ContractError::NoStakeByUser)));
}

#[test]
fn it_claims_rewards() {
    let mut setup = setup_contract();
    let user_address = addr("user");
    let rewards = 500;

    setup.earn.stake_for_earn_endpoint(&user_address, 0, pay(EARN_STAKE_CORE_TOKEN_ID, 100)).unwrap();
    setup.earn.distribute_to_earn_core_endpoint(&setup.config, &pay(CORE_TOKEN_ID, rewards)).unwrap();

    let effects = setup.earn.claim_earn_reward_endpoint(&setup.config, &user_address).unwrap();
    assert_eq!(effects.len(), 1);
    match &effects[0] {
        Effect::Send { to, token: t, nonce, amount: a } => {
            assert!(to.same_as(&user_address));
            assert!(t.same_as(&token(CORE_TOKEN_ID)));
            assert_eq!(*nonce, 0);
            assert!(same(a, rewards));
        }
        _ => panic!("expected a transfer"),
    }
    assert!(setup.earn.compute_reward(&user_address).is_zero());
}

#[test]
fn it_fails_if_no_rewards_to_claim() {
    let mut setup = setup_contract();
    let user_address = addr("user");

    setup.earn.stake_for_earn_endpoint(&user_address, 0, pay(EARN_STAKE_CORE_TOKEN_ID, 100)).unwrap();

    let result = setup.earn.claim_earn_reward_endpoint(&setup.config, &user_address);
    assert!(matches!(result, Err(ContractError::NoRewardsToClaim)));
}

#[test]
fn it_splits_funds_proportionally_among_stakers() {
    let mut setup = setup_contract();
    let user_one = addr("one");
    let user_two = addr("two");
    let user_three = addr("three");

    // user one stakes – 25%
    setup.earn.stake_for_earn_endpoint(&user_one, 0, pay(EARN_STAKE_CORE_TOKEN_ID, 25)).unwrap();
    // user one stakes again – 25%
    setup.earn.stake_for_earn_endpoint(&user_one, 0, pay(EARN_STAKE_CORE_TOKEN_ID, 25)).unwrap();
    // user two stakes – 30%
    setup.earn.stake_for_earn_endpoint(&user_two, 0, pay(EARN_STAKE_CORE_TOKEN_ID, 30)).unwrap();
    // user three stakes – 20%
    setup.earn.stake_for_earn_endpoint(&user_three, 0, pay(EARN_STAKE_CORE_TOKEN_ID, 20)).unwrap();

    // distribute reward tokens
    setup.earn.distribute_to_earn_core_endpoint(&setup.config, &pay(CORE_TOKEN_ID, 100)).unwrap();

    assert!(same(&setup.earn.compute_reward(&user_one), 50));
    assert!(same(&setup.earn.compute_reward(&user_two), 30));
    assert!(same(&setup.earn.compute_reward(&user_three), 20));
}

#[test]
fn it_splits_funds_proportionally_among_stakers_that_withdraw_in_between() {
    let mut setup = setup_contract();
    let user_one = addr("one");
    let user_two = addr("two");

    // user one stakes – 50%
    setup.earn.stake_for_earn_endpoint(&user_one, 0, pay(EARN_STAKE_CORE_TOKEN_ID, 50)).unwrap();
    // user two stakes – 50%
    setup.earn.stake_for_earn_endpoint(&user_two, 0, pay(EARN_STAKE_CORE_TOKEN_ID, 50)).unwrap();

    // distribute reward tokens
    setup.earn.distribute_to_earn_core_endpoint(&setup.config, &pay(CORE_TOKEN_ID, 100)).unwrap();
    assert!(same(&setup.earn.compute_reward(&user_one), 50));
    assert!(same(&setup.earn.compute_reward(&user_two), 50));

    // user two withdraws – 50% of initial stake
    setup
        .earn
        .withdraw_from_earn_endpoint(
            &user_two,
            EARN_STAKE_LOCK_TIME_SECONDS + 1,
            token(EARN_STAKE_CORE_TOKEN_ID),
            amount(25),
        )
        .unwrap();

    // distribute again
    setup.earn.distribute_to_earn_core_endpoint(&setup.config, &pay(CORE_TOKEN_ID, 100)).unwrap();
    assert!(same(&setup.earn.compute_reward(&user_one), 116));
    assert!(same(&setup.earn.compute_reward(&user_two), 83));
    // never more than was paid in
    let total = setup.earn.compute_reward(&user_one).plus(&setup.earn.compute_reward(&user_two));
    assert!(!amount(200).less_than(&total));
}

#[test]
fn distributing_into_an_empty_pool_is_refused() {
    let mut setup = setup_contract();
    let result = setup.earn.distribute_to_earn_core_endpoint(&setup.config, &pay(CORE_TOKEN_ID, 100));
    assert_eq!(result, Err(ContractError::DivisionByZero));
    let result = setup.earn.distribute_to_earn_lp_endpoint(&setup.config, &pay(CORE_TOKEN_ID, 0));
    assert_eq!(result, Err(ContractError::InvalidAmount));
}

#[test]
fn lp_rewards_go_to_lp_stakers() {
    let mut setup = setup_contract();
    let one = addr("one");
    let two = addr("two");
    setup.earn.stake_for_earn_endpoint(&one, 0, pay(EARN_STAKE_LP_TOKEN_ID, 40)).unwrap();
    setup.earn.stake_for_earn_endpoint(&two, 0, pay(EARN_STAKE_CORE_TOKEN_ID, 10)).unwrap();
    setup.earn.distribute_to_earn_lp_endpoint(&setup.config, &pay(CORE_TOKEN_ID, 80)).unwrap();
    assert!(same(&setup.earn.compute_reward(&one), 80));
    assert!(setup.earn.compute_reward(&two).is_zero());
    assert!(setup.earn.lp_reward_per_token().equals(&rise(80, 40)));
}

#[test]
fn staking_an_unknown_token_is_refused() {
    let mut setup = setup_contract();
    let user = addr("user");
    let result = setup.earn.stake_for_earn_endpoint(&user, 0, pay(b"OTHER-123456", 10));
    assert_eq!(result, Err(ContractError::InvalidStakeToken));
    assert_eq!(setup.earn.unlock_time(&user), 0);
}

#[test]
fn staking_locks_until_now_plus_lock_time() {
    let mut setup = setup_contract();
    let user = addr("user");
    setup.earn.stake_for_earn_endpoint(&user, 7, pay(EARN_STAKE_CORE_TOKEN_ID, 10)).unwrap();
    assert_eq!(setup.earn.unlock_time(&user), 7 + EARN_STAKE_LOCK_TIME_SECONDS);
    let info = setup.earn.get_earner_info_view(&user);
    assert!(same(&info.0, 10));
    assert!(info.1.is_zero());
    assert!(info.2.is_zero());
    assert_eq!(info.3, 7 + EARN_STAKE_LOCK_TIME_SECONDS);
}

#[test]
fn withdraw_errors_come_in_order() {
    let mut setup = setup_contract();
    let user = addr("user");
    let late = EARN_STAKE_LOCK_TIME_SECONDS + 1;
    let r = setup.earn.withdraw_from_earn_endpoint(&user, late, token(EARN_STAKE_CORE_TOKEN_ID), amount(1));
    assert!(matches!(r, Err(ContractError::NothingToUnlock)));
    setup.earn.stake_for_earn_endpoint(&user, 0, pay(EARN_STAKE_LP_TOKEN_ID, 10)).unwrap();
    let r = setup.earn.withdraw_from_earn_endpoint(&user, late, token(b"OTHER-123456"), amount(1));
    assert!(matches!(r, Err(ContractError::InvalidToken)));
    let r = setup.earn.withdraw_from_earn_endpoint(&user, late, token(EARN_STAKE_CORE_TOKEN_ID), amount(1));
    assert!(matches!(r, Err(ContractError::NoStakeByUser)));
    let r = setup.earn.withdraw_from_earn_endpoint(&user, late, token(EARN_STAKE_LP_TOKEN_ID), amount(11));
    assert!(matches!(r, Err(ContractError::InvalidAmount)));
    assert!(same(&setup.earn.lp_stake(&user), 10));
}

#[test]
fn staking_and_withdrawing_keep_earned_rewards() {
    let mut setup = setup_contract();
    let user = addr("user");
    setup.earn.stake_for_earn_endpoint(&user, 0, pay(EARN_STAKE_CORE_TOKEN_ID, 10)).unwrap();
    setup.earn.distribute_to_earn_core_endpoint(&setup.config, &pay(CORE_TOKEN_ID, 30)).unwrap();
    assert!(same(&setup.earn.compute_reward(&user), 30));
    setup
        .earn
        .withdraw_from_earn_endpoint(&user, 1000, token(EARN_STAKE_CORE_TOKEN_ID), amount(5))
        .unwrap();
    assert!(same(&setup.earn.compute_reward(&user), 30));
    // 5 tokens were taken off at a reward of 3 per token: the tally is -15 tokens
    assert!(setup.earn.core_reward_tally(&user).to_amount().is_none());
    setup.earn.stake_for_earn_endpoint(&user, 0, pay(EARN_STAKE_CORE_TOKEN_ID, 90)).unwrap();
    assert!(same(&setup.earn.compute_reward(&user), 30));
    assert!(same(&setup.earn.core_stake(&user), 95));
}

#[test]
fn only_the_owner_sets_up_the_pools() {
    let mut earn = Earn::new();
    let owner = addr("owner");
    let r = earn.init_earn_module_endpoint(&addr("x"), &owner, token(b"A-123456"), token(b"B-123456"), 1);
    assert_eq!(r, Err(ContractError::OnlyOwner));
    assert_eq!(earn.lock_time_seconds(), 0);
    let s = setup_contract();
    assert!(s.earn.core_stake_token().same_as(&token(EARN_STAKE_CORE_TOKEN_ID)));
    assert!(s.earn.lp_stake_token().same_as(&token(EARN_STAKE_LP_TOKEN_ID)));
    assert!(s.owner.same_as(&owner));
}

#[test]
fn large_payments_keep_full_precision() {
    let mut setup = setup_contract();
    let user = addr("user");
    // a stake of 3 whole tokens, a payment of a million whole tokens
    let unit = Amount::power_of_ten(18);
    let stake = Payment {
        token_identifier: token(EARN_STAKE_CORE_TOKEN_ID),
        token_nonce: 0,
        amount: amount(3).times(&unit),
    };
    setup.earn.stake_for_earn_endpoint(&user, 0, stake).unwrap();
    let paid = amount(1_000_000).times(&unit);
    let payment = Payment { token_identifier: token(CORE_TOKEN_ID), token_nonce: 0, amount: paid.duplicate() };
    setup.earn.distribute_to_earn_core_endpoint(&setup.config, &payment).unwrap();
    // reward = 3e18 * floor(1e24 * 1e18 / 3e18) / 1e18 = 3 * floor(1e24 / 3)
    let expected = amount(3).times(&paid.div_floor(&amount(3)));
    assert!(setup.earn.compute_reward(&user).equals(&expected));
    assert!(!setup.earn.compute_reward(&user).equals(&paid));
}

#[test]
fn withdrawing_what_was_just_staked_restores_the_position() {
    let mut setup = setup_contract();
    let user = addr("user");
    setup.earn.stake_for_earn_endpoint(&user, 0, pay(EARN_STAKE_CORE_TOKEN_ID, 40)).unwrap();
    setup.earn.distribute_to_earn_core_endpoint(&setup.config, &pay(CORE_TOKEN_ID, 8)).unwrap();
    let stake_before = setup.earn.core_stake(&user);
    let tally_before = setup.earn.core_reward_tally(&user).to_amount().unwrap();
    let reward_before = setup.earn.compute_reward(&user);
    setup.earn.stake_for_earn_endpoint(&user, 0, pay(EARN_STAKE_CORE_TOKEN_ID, 15)).unwrap();
    setup
        .earn
        .withdraw_from_earn_endpoint(&user, 1000, token(EARN_STAKE_CORE_TOKEN_ID), amount(15))
        .unwrap();
    assert!(setup.earn.core_stake(&user).equals(&stake_before));
    assert!(setup.earn.core_reward_tally(&user).to_amount().unwrap().equals(&tally_before));
    assert!(setup.earn.compute_reward(&user).equals(&reward_before));
    assert!(same(setup.earn.core_stake_total(), 40));
}

fn stored_earn(stake: u64, tally: u64, reward_per_token: u64) -> Option<Earn> {
    let record = Earner::new(
        5,
        Stake::new(amount(stake), SignedAmount::from_amount(&amount(tally))),
        Stake::new(amount(0), SignedAmount::zero()),
    );
    let earners = AddressMap::from_entries(vec![(addr("user"), record)]).unwrap();
    Earn::from_parts(
        10,
        token(EARN_STAKE_CORE_TOKEN_ID),
        amount(stake),
        amount(reward_per_token),
        token(EARN_STAKE_LP_TOKEN_ID),
        amount(0),
        amount(0),
        earners,
    )
}

#[test]
fn stored_tallies_above_the_earned_amount_are_refused() {
    // 2 staked at 3 per token: a tally of 6 leaves nothing earned, 7 would be negative
    let earn = stored_earn(2, 6, 3).unwrap();
    assert!(earn.compute_reward(&addr("user")).is_zero());
    assert!(stored_earn(2, 7, 3).is_none());
}
