use group_scraper::candidate::generate_random_group_id;
use group_scraper::probe::{
    classify_balance, classify_ownership, funds_check_address, is_rate_limited,
    owner_check_address, BalanceOutcome, OwnershipOutcome,
};
use group_scraper::MAX_GROUP_ID;

const RATE_LIMIT_BODY: &str = r#"{"errors":[{"message":"TooManyRequests"}]}"#;

#[test]
fn balance_found() {
    assert_eq!(classify_balance(r#"{"robux": 50}"#), BalanceOutcome::Found(50));
    assert_eq!(classify_balance(r#"{"robux": 1}"#), BalanceOutcome::Found(1));
}

#[test]
fn balance_empty() {
    assert_eq!(classify_balance(r#"{"robux": 0}"#), BalanceOutcome::Empty);
}

#[test]
fn balance_rate_limited() {
    assert_eq!(classify_balance(RATE_LIMIT_BODY), BalanceOutcome::RateLimited);
}

#[test]
fn balance_malformed() {
    assert_eq!(classify_balance("not json"), BalanceOutcome::Malformed);
    assert_eq!(classify_balance("{}"), BalanceOutcome::Malformed);
    assert_eq!(classify_balance(r#"{"robux": "50"}"#), BalanceOutcome::Malformed);
    assert_eq!(classify_balance(r#"{"robux": -3}"#), BalanceOutcome::Malformed);
    // a balance that does not fit in u32 is not usable
    assert_eq!(classify_balance(r#"{"robux": 5000000000}"#), BalanceOutcome::Malformed);
}

#[test]
fn balance_other_errors_are_not_rate_limits() {
    assert_eq!(
        classify_balance(r#"{"errors":[{"message":"NotFound"}]}"#),
        BalanceOutcome::Malformed
    );
    assert!(!is_rate_limited(r#"{"errors":[{"message":"NotFound"}]}"#));
    assert!(is_rate_limited(RATE_LIMIT_BODY));
}

#[test]
fn ownership_eligible() {
    let body = r#"{"publicEntryAllowed":true,"owner":null,"isBuildersClubOnly":false,"name":"gg"}"#;
    assert_eq!(
        classify_ownership(body, false),
        OwnershipOutcome::Eligible { name: Some("gg".to_string()) }
    );
}

#[test]
fn ownership_eligible_with_absent_owner_field() {
    let body = r#"{"publicEntryAllowed":true}"#;
    assert_eq!(classify_ownership(body, false), OwnershipOutcome::Eligible { name: None });
}

#[test]
fn ownership_locked_is_ineligible() {
    let body = r#"{"isLocked":true,"publicEntryAllowed":true,"owner":null}"#;
    assert_eq!(classify_ownership(body, false), OwnershipOutcome::Ineligible);
    // any lock marker, even a false one, counts as locked
    let body = r#"{"isLocked":false,"publicEntryAllowed":true,"owner":null}"#;
    assert_eq!(classify_ownership(body, false), OwnershipOutcome::Ineligible);
}

#[test]
fn ownership_private_entry_is_ineligible() {
    assert_eq!(
        classify_ownership(r#"{"publicEntryAllowed":false,"owner":null}"#, false),
        OwnershipOutcome::Ineligible
    );
    assert_eq!(classify_ownership(r#"{"owner":null}"#, false), OwnershipOutcome::Ineligible);
}

#[test]
fn ownership_owned_is_ineligible() {
    let body = r#"{"publicEntryAllowed":true,"owner":{"userId":9}}"#;
    assert_eq!(classify_ownership(body, false), OwnershipOutcome::Ineligible);
}

#[test]
fn ownership_restricted_needs_the_toggle() {
    let body = r#"{"publicEntryAllowed":true,"owner":null,"isBuildersClubOnly":true,"name":"p"}"#;
    assert_eq!(classify_ownership(body, false), OwnershipOutcome::Ineligible);
    assert_eq!(
        classify_ownership(body, true),
        OwnershipOutcome::Eligible { name: Some("p".to_string()) }
    );
}

#[test]
fn ownership_rate_limited_and_malformed() {
    assert_eq!(classify_ownership(RATE_LIMIT_BODY, false), OwnershipOutcome::RateLimited);
    assert_eq!(classify_ownership("not json", false), OwnershipOutcome::Malformed);
}

#[test]
fn probe_addresses() {
    assert_eq!(
        funds_check_address(42, "KEY"),
        "https://economy.roblox.com/v1/groups/42/currency?_=KEY"
    );
    assert_eq!(owner_check_address(42, "KEY"), "https://groups.roblox.com/v1/groups/42?_=KEY");
}

#[test]
fn candidates_stay_in_the_domain() {
    for _ in 0..1000 {
        assert!(generate_random_group_id() < MAX_GROUP_ID);
    }
}
