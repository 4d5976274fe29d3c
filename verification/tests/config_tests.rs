use identity::amount::{Amount, SignedAmount};
use identity::config::{Config, ConfigModule};
use identity::types::{Address, ContractError, TokenId};

fn addr(name: &str) -> Address {
    Address::new(name.as_bytes().to_vec())
}

fn names(list: &[Address]) -> Vec<Vec<u8>> {
    list.iter().map(|a| a.to_bytes()).collect()
}

fn config() -> Config {
    Config::new(
        TokenId::new(b"SUPER-abcdef".to_vec()),
        TokenId::new(b"SUPERRWD-abcdef".to_vec()),
        Amount::from_u64(100),
    )
}

#[test]
fn managers_are_a_set_with_swap_removal() {
    let mut c = config();
    let owner = addr("owner");
    for n in ["a", "b", "c", "d"] {
        c.add_manager_endpoint(&owner, &owner, addr(n)).unwrap();
    }
    c.add_manager_endpoint(&owner, &owner, addr("b")).unwrap();
    assert_eq!(names(&c.managers()), vec![b"a".to_vec(), b"b".to_vec(), b"c".to_vec(), b"d".to_vec()]);
    c.remove_manager_endpoint(&owner, &owner, &addr("b")).unwrap();
    assert_eq!(names(&c.managers()), vec![b"a".to_vec(), b"d".to_vec(), b"c".to_vec()]);
    c.remove_manager_endpoint(&owner, &owner, &addr("zz")).unwrap();
    assert_eq!(c.managers().len(), 3);
    c.remove_manager_endpoint(&owner, &owner, &addr("c")).unwrap();
    assert_eq!(names(&c.managers()), vec![b"a".to_vec(), b"d".to_vec()]);
}

#[test]
fn only_the_owner_configures() {
    let mut c = config();
    let owner = addr("owner");
    let x = addr("x");
    assert_eq!(c.add_manager_endpoint(&x, &owner, addr("a")), Err(ContractError::OnlyOwner));
    assert_eq!(c.remove_manager_endpoint(&x, &owner, &addr("a")), Err(ContractError::OnlyOwner));
    assert_eq!(c.set_core_token_burn_trust_multiplier_endpoint(&x, &owner, 2), Err(ContractError::OnlyOwner));
    assert_eq!(c.core_token_burn_trust_multiplier(), 0);
    c.set_core_token_burn_trust_multiplier_endpoint(&owner, &owner, 2).unwrap();
    assert_eq!(c.core_token_burn_trust_multiplier(), 2);
}

#[test]
fn the_owner_and_managers_pass_the_manager_check() {
    let mut c = config();
    let owner = addr("owner");
    assert_eq!(c.require_caller_manager(&owner, &owner), Ok(()));
    assert_eq!(c.require_caller_manager(&addr("m"), &owner), Err(ContractError::CallerNotManager));
    c.add_manager_endpoint(&owner, &owner, addr("m")).unwrap();
    assert_eq!(c.require_caller_manager(&addr("m"), &owner), Ok(()));
}

#[test]
fn users_get_consecutive_ids() {
    let mut c = config();
    assert_eq!(c.get_or_create_user(&addr("a")), 1);
    assert_eq!(c.get_or_create_user(&addr("b")), 2);
    assert_eq!(c.get_or_create_user(&addr("a")), 1);
    assert_eq!(c.get_user_id(&addr("b")), 2);
    assert_eq!(c.get_user_id(&addr("c")), 0);
    assert_eq!(c.get_user_count(), 2);
}

#[test]
fn token_identifiers_follow_the_chain_rule() {
    let valid = |s: &[u8]| TokenId::new(s.to_vec()).is_valid_esdt_identifier();
    assert!(valid(b"COL-123456"));
    assert!(valid(b"SUPERPOWER-abcdef"));
    assert!(!valid(b"CO-123456"));
    assert!(!valid(b"COLLECTIONS-123456"));
    assert!(!valid(b"Col-123456"));
    assert!(!valid(b"COL_123456"));
    assert!(!valid(b"COL-ABCDEF"));
    assert!(!valid(b""));
}

#[test]
fn amounts_compute_exactly() {
    let a = Amount::from_u64(1_000_000_007);
    let b = Amount::from_u64(3);
    assert_eq!(a.plus(&b).to_u64(), Some(1_000_000_010));
    assert_eq!(a.minus(&b).to_u64(), Some(1_000_000_004));
    assert_eq!(a.times(&b).to_u64(), Some(3_000_000_021));
    assert_eq!(a.div_floor(&b).to_u64(), Some(333_333_335));
    assert_eq!(b.pow(4).to_u64(), Some(81));
    assert!(b.less_than(&a));
    assert!(!a.less_than(&b));
    assert!(!a.less_than(&a.duplicate()));
    assert!(Amount::zero().is_zero());
    assert_eq!(Amount::power_of_ten(3).to_u64(), Some(1000));
    // above i64::MAX there is no u64 to read
    let big = Amount::from_u64(u64::MAX);
    assert_eq!(big.to_u64(), None);
    assert_eq!(Amount::from_u64(i64::MAX as u64).to_u64(), Some(i64::MAX as u64));
    assert!(big.times(&big).div_floor(&big).equals(&big));
}

#[test]
fn signed_amounts_compute_exactly() {
    let five = SignedAmount::from_amount(&Amount::from_u64(5));
    let seven = SignedAmount::from_amount(&Amount::from_u64(7));
    let minus_two = five.minus(&seven);
    assert!(minus_two.to_amount().is_none());
    let back = minus_two.plus(&seven);
    assert!(back.to_amount().unwrap().equals(&Amount::from_u64(5)));
    assert!(SignedAmount::zero().to_amount().unwrap().is_zero());
    assert!(minus_two.duplicate().plus(&SignedAmount::from_amount(&Amount::from_u64(2))).to_amount().unwrap().is_zero());
}

#[test]
fn removing_a_just_added_manager_restores_the_list() {
    let mut c = config();
    let owner = addr("owner");
    c.add_manager_endpoint(&owner, &owner, addr("a")).unwrap();
    c.add_manager_endpoint(&owner, &owner, addr("b")).unwrap();
    let before = names(&c.managers());
    c.add_manager_endpoint(&owner, &owner, addr("new")).unwrap();
    c.remove_manager_endpoint(&owner, &owner, &addr("new")).unwrap();
    assert_eq!(names(&c.managers()), before);
}

#[test]
fn user_ids_never_change() {
    let mut c = config();
    let first = c.get_or_create_user(&addr("first"));
    for n in ["x", "y", "z"] {
        c.get_or_create_user(&addr(n));
    }
    assert_eq!(c.get_user_id(&addr("first")), first);
    assert!(c.get_user_address(first).same_as(&addr("first")));
}
