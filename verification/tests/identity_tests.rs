use identity::amount::Amount;
use identity::types::{Address, ContractError, Effect, Payment, TokenId};
use identity::config::ConfigModule;
use identity::trust::TrustModule;
use identity::{Identity, IdentityState};

const CORE_TOKEN_ID: &[u8] = b"SUPER-abcdef";
const REWARD_TOKEN_ID: &[u8] = b"SUPERRWD-abcdef";

fn addr(name: &str) -> Address {
    Address::new(name.as_bytes().to_vec())
}

fn token(id: &[u8]) -> TokenId {
    TokenId::new(id.to_vec())
}

fn amount(v: u64) -> Amount {
    Amount::from_u64(v)
}

fn pay(id: &[u8], v: u64) -> Payment {
    Payment { token_identifier: token(id), token_nonce: 0, amount: amount(v) }
}

fn setup_contract(cost: u64) -> IdentityState {
    IdentityState::init(token(CORE_TOKEN_ID), token(REWARD_TOKEN_ID), amount(cost))
}

fn whole_tokens(n: u64) -> Amount {
    amount(n).times(&Amount::power_of_ten(18))
}

#[test]
fn it_initializes_the_contract() {
    let sc = setup_contract(100);
    assert!(sc.config.core_token().same_as(&token(CORE_TOKEN_ID)));
    assert!(sc.config.reward_token().same_as(&token(REWARD_TOKEN_ID)));
    assert!(sc.config.cost_avatar_set().equals(&amount(100)));
}

#[test]
fn it_stores_an_avatar() {
    let mut sc = setup_contract(100);
    let user_address = addr("user");

    let effects = sc
        .set_avatar_endpoint(&user_address, pay(CORE_TOKEN_ID, 100), token(b"COL-123456"), 2)
        .unwrap();

    let (token_id, nonce) = sc.get_avatar_view(&user_address).unwrap();
    assert!(token(b"COL-123456").same_as(&token_id));
    assert_eq!(2, nonce);
    assert_eq!(effects.len(), 1);
    match &effects[0] {
        Effect::Burn { token: t, nonce, amount: a } => {
            assert!(t.same_as(&token(CORE_TOKEN_ID)));
            assert_eq!(*nonce, 0);
            assert!(a.equals(&amount(100)));
        }
        _ => panic!("expected a burn"),
    }
}

#[test]
fn set_avatar_tests_it_fails_when_paid_with_wrong_cost_token() {
    let mut sc = setup_contract(100);
    let user_address = addr("user");

    let result = sc.set_avatar_endpoint(&user_address, pay(CORE_TOKEN_ID, 100), token(b"TEST-123456"), 0);
    assert!(result.is_ok());
}

#[test]
fn set_avatar_tests_it_fails_when_paid_amount_is_less_than_cost_amount() {
    let mut sc = setup_contract(200);
    let user_address = addr("user");

    let result = sc.set_avatar_endpoint(&user_address, pay(CORE_TOKEN_ID, 25), token(b"TEST-123456"), 0);
    assert!(matches!(result, Err(ContractError::InvalidAmount)));
    assert!(sc.get_avatar_view(&user_address).is_none());
}

#[test]
fn it_removes_an_avatar() {
    let mut sc = setup_contract(100);
    let user_address = addr("user");

    sc.set_avatar_endpoint(&user_address, pay(CORE_TOKEN_ID, 100), token(b"COL-123456"), 2).unwrap();
    sc.remove_avatar_endpoint(&user_address);

    assert!(sc.get_avatar_view(&user_address).is_none());
}

#[test]
fn avatars_are_refused_for_bad_collections_and_tokens() {
    let mut sc = setup_contract(100);
    let user = addr("user");
    let r = sc.set_avatar_endpoint(&user, pay(CORE_TOKEN_ID, 100), token(b"col-123456"), 1);
    assert!(matches!(r, Err(ContractError::NotAValidToken)));
    let r = sc.set_avatar_endpoint(&user, pay(b"OTHER-abcdef", 100), token(b"COL-123456"), 1);
    assert!(matches!(r, Err(ContractError::InvalidToken)));
    assert!(sc.get_avatar_view(&user).is_none());
}

#[test]
fn avatars_of_others_are_untouched() {
    let mut sc = setup_contract(100);
    let one = addr("one");
    let two = addr("two");
    sc.set_avatar_endpoint(&one, pay(CORE_TOKEN_ID, 150), token(b"COL-123456"), 1).unwrap();
    sc.set_avatar_endpoint(&two, pay(CORE_TOKEN_ID, 100), token(b"ART-abcdef"), 9).unwrap();
    sc.set_avatar_endpoint(&one, pay(CORE_TOKEN_ID, 100), token(b"COL-123456"), 3).unwrap();
    sc.remove_avatar_endpoint(&two);
    let (t, n) = sc.get_avatar_view(&one).unwrap();
    assert!(t.same_as(&token(b"COL-123456")));
    assert_eq!(n, 3);
    assert!(sc.get_avatar_view(&two).is_none());
}

#[test]
fn the_owner_sets_avatars_for_free() {
    let mut sc = setup_contract(100);
    let owner = addr("owner");
    let user = addr("user");
    let r = sc.set_avatar_admin_endpoint(&user, &owner, user.duplicate(), token(b"COL-123456"), 1);
    assert_eq!(r, Err(ContractError::OnlyOwner));
    let r = sc.set_avatar_admin_endpoint(&owner, &owner, user.duplicate(), token(b"bad"), 1);
    assert_eq!(r, Err(ContractError::NotAValidToken));
    sc.set_avatar_admin_endpoint(&owner, &owner, user.duplicate(), token(b"COL-123456"), 4).unwrap();
    assert_eq!(sc.get_avatar_view(&user).unwrap().1, 4);
}

#[test]
fn burning_core_tokens_earns_trust() {
    let mut sc = setup_contract(100);
    let user = addr("user");
    let payment = Payment { token_identifier: token(CORE_TOKEN_ID), token_nonce: 0, amount: whole_tokens(7) };
    let effects = sc.burn_for_trust_endpoint(&user, payment).unwrap();
    // a new user starts at 1, and 7 whole tokens earn 7
    assert_eq!(sc.trust.get_trust_score(&sc.config, &user), 8);
    assert_eq!(effects.len(), 1);
    assert!(matches!(effects[0], Effect::Burn { .. }));
}

#[test]
fn the_multiplier_amplifies_burnt_tokens() {
    let mut sc = setup_contract(100);
    let owner = addr("owner");
    let user = addr("user");
    sc.config.set_core_token_burn_trust_multiplier_endpoint(&owner, &owner, 3).unwrap();
    // 2.5 tokens round down to 2, times 3
    let paid = amount(25).times(&Amount::power_of_ten(17));
    let payment = Payment { token_identifier: token(CORE_TOKEN_ID), token_nonce: 0, amount: paid };
    sc.burn_for_trust_endpoint(&user, payment).unwrap();
    assert_eq!(sc.trust.get_trust_score(&sc.config, &user), 1 + 6);
    // a multiplier of 0 reads as 1
    sc.config.set_core_token_burn_trust_multiplier_endpoint(&owner, &owner, 0).unwrap();
    let payment = Payment { token_identifier: token(CORE_TOKEN_ID), token_nonce: 0, amount: whole_tokens(4) };
    sc.burn_for_trust_endpoint(&user, payment).unwrap();
    assert_eq!(sc.trust.get_trust_score(&sc.config, &user), 7 + 4);
}

#[test]
fn burning_the_wrong_token_is_refused() {
    let mut sc = setup_contract(100);
    let user = addr("user");
    let r = sc.burn_for_trust_endpoint(&user, pay(REWARD_TOKEN_ID, 5));
    assert!(matches!(r, Err(ContractError::InvalidToken)));
    let r = sc.migrate_to_trust_endpoint(&user, pay(CORE_TOKEN_ID, 5));
    assert!(matches!(r, Err(ContractError::InvalidToken)));
    assert_eq!(sc.config.get_user_id(&user), 0);
}

#[test]
fn migrating_reward_tokens_earns_trust_and_renews_the_stake() {
    let mut sc = setup_contract(100);
    let owner = addr("owner");
    let user = addr("user");
    let payment = Payment { token_identifier: token(REWARD_TOKEN_ID), token_nonce: 5, amount: whole_tokens(499) };
    // 1 + 499 reaches the threshold, and no stake contract is set
    let r = sc.migrate_to_trust_endpoint(&user, payment);
    assert!(matches!(r, Err(ContractError::StakeContractNotSet)));
    assert_eq!(sc.config.get_user_id(&user), 0);
    sc.trust
        .set_trust_stake_contract_endpoint(&owner, &owner, addr("stake-sc"), addr("entity"), true)
        .unwrap();
    let payment = Payment { token_identifier: token(REWARD_TOKEN_ID), token_nonce: 5, amount: whole_tokens(499) };
    let effects = sc.migrate_to_trust_endpoint(&user, payment).unwrap();
    assert_eq!(effects.len(), 2);
    match &effects[1] {
        Effect::RenewVirtualStake { contract, entity, user: u, trust } => {
            assert!(contract.same_as(&addr("stake-sc")));
            assert!(entity.same_as(&addr("entity")));
            assert!(u.same_as(&user));
            assert_eq!(*trust, 500);
        }
        _ => panic!("expected a renewal"),
    }
}

#[test]
fn the_owner_withdraws_cost_tokens() {
    let sc = setup_contract(100);
    let owner = addr("owner");
    let r = sc.withdraw_cost_tokens_endpoint(&addr("user"), &owner, amount(300));
    assert!(matches!(r, Err(ContractError::OnlyOwner)));
    let effects = sc.withdraw_cost_tokens_endpoint(&owner, &owner, amount(300)).unwrap();
    match &effects[0] {
        Effect::Send { to, token: t, nonce, amount: a } => {
            assert!(to.same_as(&owner));
            assert!(t.same_as(&token(CORE_TOKEN_ID)));
            assert_eq!(*nonce, 0);
            assert!(a.equals(&amount(300)));
        }
        _ => panic!("expected a transfer"),
    }
}

#[test]
fn an_upgrade_changes_nothing() {
    let mut sc = setup_contract(100);
    sc.upgrade();
    assert!(sc.config.core_token().same_as(&token(CORE_TOKEN_ID)));
}
