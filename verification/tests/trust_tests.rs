use identity::amount::Amount;
use identity::config::{Config, ConfigModule};
use identity::trust::{Trust, TrustModule};
use identity::types::{Address, ContractError, Effect, TokenId};

fn addr(name: &str) -> Address {
    Address::new(name.as_bytes().to_vec())
}

fn token(id: &[u8]) -> TokenId {
    TokenId::new(id.to_vec())
}

fn modules() -> (Config, Trust) {
    let config = Config::new(token(b"SUPER-abcdef"), token(b"SUPERRWD-abcdef"), Amount::from_u64(100));
    (config, Trust::new())
}

fn with_stake_contract(trust: &mut Trust) {
    let owner = addr("owner");
    trust
        .set_trust_stake_contract_endpoint(&owner, &owner, addr("stake-sc"), addr("entity"), true)
        .unwrap();
}

fn renewed_trust(e: &Effect) -> u64 {
    match e {
        Effect::RenewVirtualStake { trust, .. } => *trust,
        _ => panic!("expected a renewal"),
    }
}

#[test]
fn managers_add_trust_to_new_and_known_users() {
    let (mut config, mut trust) = modules();
    let owner = addr("owner");
    let user = addr("user");
    let effects = trust.add_trust_endpoint(&mut config, &owner, &owner, &user, 10).unwrap();
    assert!(effects.is_empty());
    assert_eq!(config.get_user_id(&user), 1);
    assert_eq!(trust.get_trust_score(&config, &user), 11);
    trust.add_trust_endpoint(&mut config, &owner, &owner, &user, 5).unwrap();
    assert_eq!(trust.get_trust_score(&config, &user), 16);
    assert_eq!(config.get_user_count(), 1);
}

#[test]
fn strangers_cannot_add_trust() {
    let (mut config, mut trust) = modules();
    let owner = addr("owner");
    let r = trust.add_trust_endpoint(&mut config, &addr("mallory"), &owner, &addr("user"), 10);
    assert!(matches!(r, Err(ContractError::CallerNotManager)));
    assert_eq!(config.get_user_count(), 0);
    config.add_manager_endpoint(&owner, &owner, addr("manager")).unwrap();
    trust.add_trust_endpoint(&mut config, &addr("manager"), &owner, &addr("user"), 10).unwrap();
    assert_eq!(trust.get_trust_score(&config, &addr("user")), 11);
}

#[test]
fn reaching_the_threshold_renews_the_virtual_stake() {
    let (mut config, mut trust) = modules();
    let owner = addr("owner");
    let user = addr("user");
    let r = trust.add_trust_endpoint(&mut config, &owner, &owner, &user, 499);
    assert!(matches!(r, Err(ContractError::StakeContractNotSet)));
    assert_eq!(config.get_user_id(&user), 0);
    with_stake_contract(&mut trust);
    let effects = trust.add_trust_endpoint(&mut config, &owner, &owner, &user, 498).unwrap();
    assert!(effects.is_empty());
    let effects = trust.add_trust_endpoint(&mut config, &owner, &owner, &user, 1).unwrap();
    assert_eq!(effects.len(), 1);
    assert_eq!(renewed_trust(&effects[0]), 500);
}

#[test]
fn a_batch_adds_in_order_and_renews_each_score_over_the_threshold() {
    let (mut config, mut trust) = modules();
    let owner = addr("owner");
    with_stake_contract(&mut trust);
    let entries = vec![(addr("a"), 600), (addr("b"), 3), (addr("a"), 10)];
    let effects = trust.add_trust_batch_endpoint(&mut config, &owner, &owner, &entries).unwrap();
    assert_eq!(effects.len(), 2);
    assert_eq!(renewed_trust(&effects[0]), 601);
    assert_eq!(renewed_trust(&effects[1]), 611);
    assert_eq!(trust.get_trust_score(&config, &addr("a")), 611);
    assert_eq!(trust.get_trust_score(&config, &addr("b")), 4);
    assert_eq!(config.get_user_id(&addr("b")), 2);
}

#[test]
fn a_batch_that_cannot_renew_changes_nothing() {
    let (mut config, mut trust) = modules();
    let owner = addr("owner");
    trust.add_trust_endpoint(&mut config, &owner, &owner, &addr("a"), 1).unwrap();
    let entries = vec![(addr("a"), 2), (addr("b"), 3), (addr("c"), 700)];
    let r = trust.add_trust_batch_endpoint(&mut config, &owner, &owner, &entries);
    assert!(matches!(r, Err(ContractError::StakeContractNotSet)));
    assert_eq!(config.get_user_count(), 1);
    assert_eq!(trust.get_trust_score(&config, &addr("a")), 2);
    assert_eq!(trust.get_trust_score(&config, &addr("b")), 0);
}

#[test]
fn banning_drops_the_score_to_zero_and_tells_the_stake_contract() {
    let (mut config, mut trust) = modules();
    let owner = addr("owner");
    let user = addr("user");
    let r = trust.ban_user_endpoint(&mut config, &owner, &owner, &user);
    assert!(matches!(r, Err(ContractError::StakeContractNotSet)));
    with_stake_contract(&mut trust);
    let effects = trust.ban_user_endpoint(&mut config, &owner, &owner, &user).unwrap();
    assert_eq!(renewed_trust(&effects[0]), 0);
    assert_eq!(trust.get_trust_score(&config, &user), 0);
    let r = trust.get_trusted_user_or_fail(&mut config, &user);
    assert_eq!(r, Err(ContractError::TrustBanned));
    let id = config.get_user_id(&user);
    assert_eq!(trust.require_not_banned(id), Err(ContractError::TrustBanned));
}

#[test]
fn restaking_needs_a_known_user() {
    let (mut config, mut trust) = modules();
    let owner = addr("owner");
    with_stake_contract(&mut trust);
    let r = trust.restake_trust_endpoint(&config, &addr("nobody"));
    assert!(matches!(r, Err(ContractError::UserNotFound)));
    trust.add_trust_endpoint(&mut config, &owner, &owner, &addr("low"), 5).unwrap();
    assert!(trust.restake_trust_endpoint(&config, &addr("low")).unwrap().is_empty());
    trust.add_trust_endpoint(&mut config, &owner, &owner, &addr("high"), 900).unwrap();
    let effects = trust.restake_trust_endpoint(&config, &addr("high")).unwrap();
    assert_eq!(renewed_trust(&effects[0]), 901);
}

#[test]
fn trusted_users_are_created_on_demand() {
    let (mut config, mut trust) = modules();
    assert_eq!(trust.get_trust_score(&config, &addr("new")), 0);
    let id = trust.get_trusted_user_or_fail(&mut config, &addr("new")).unwrap();
    assert_eq!(id, 1);
    assert_eq!(trust.get_trust_score(&config, &addr("new")), 1);
    assert_eq!(trust.get_or_create_trusted_user(&mut config, &addr("new")), 1);
    assert_eq!(trust.get_or_create_trusted_user(&mut config, &addr("other")), 2);
    assert!(config.get_user_address(2).same_as(&addr("other")));
}

#[test]
fn increasing_the_score_of_user_zero_is_refused() {
    let (config, mut trust) = modules();
    assert!(matches!(trust.increase_trust_score(&config, 0, 5), Err(ContractError::UserNotFound)));
}

#[test]
fn increasing_a_registered_score() {
    let (mut config, mut trust) = modules();
    let id = trust.get_or_create_trusted_user(&mut config, &addr("u"));
    let effects = trust.increase_trust_score(&config, id, 9).unwrap();
    assert!(effects.is_empty());
    assert_eq!(trust.get_trust_score(&config, &addr("u")), 10);
    let r = trust.renew_trust_stake(&config, id, 0);
    assert!(matches!(r, Err(ContractError::StakeContractNotSet)));
}

#[test]
fn trust_from_tokens_counts_whole_tokens() {
    let unit = Amount::power_of_ten(18);
    let amount = Amount::from_u64(12).times(&unit).plus(&Amount::from_u64(999));
    let (_, trust) = modules();
    assert_eq!(trust.calculate_trust_from_tokens(&amount, 18), 12);
    assert_eq!(trust.calculate_trust_from_tokens(&Amount::from_u64(1234), 2), 12);
    assert_eq!(trust.calculate_trust_from_tokens(&Amount::from_u64(5), 0), 5);
}

#[test]
fn only_smart_contracts_become_the_stake_contract() {
    let (_, mut trust) = modules();
    let owner = addr("owner");
    let r = trust.set_trust_stake_contract_endpoint(&addr("x"), &owner, addr("sc"), addr("e"), true);
    assert_eq!(r, Err(ContractError::OnlyOwner));
    let r = trust.set_trust_stake_contract_endpoint(&owner, &owner, addr("wallet"), addr("e"), false);
    assert_eq!(r, Err(ContractError::InvalidContract));
}

#[test]
fn a_batch_of_one_is_a_single_credit() {
    let owner = addr("owner");
    let (mut c1, mut t1) = modules();
    let (mut c2, mut t2) = modules();
    with_stake_contract(&mut t1);
    with_stake_contract(&mut t2);
    for trust in [3u64, 499, 700] {
        let single = t1.add_trust_endpoint(&mut c1, &owner, &owner, &addr("u"), trust).unwrap();
        let batch = t2
            .add_trust_batch_endpoint(&mut c2, &owner, &owner, &vec![(addr("u"), trust)])
            .unwrap();
        assert_eq!(single.len(), batch.len());
        for (a, b) in single.iter().zip(batch.iter()) {
            assert_eq!(renewed_trust(a), renewed_trust(b));
        }
        assert_eq!(t1.get_trust_score(&c1, &addr("u")), t2.get_trust_score(&c2, &addr("u")));
    }
}
