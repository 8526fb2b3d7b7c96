use gh_credential_helper::creds::auth::{AppAuthFromEnvError, AppIdentity};
use gh_credential_helper::creds::env::Env;
use gh_credential_helper::creds::installation::{
    find_installation, FindInstallationError, FindInstallationStep, Installation,
};
use gh_credential_helper::creds::{GenerateStep, UsernamePasswordPair, OWNER};
use gh_credential_helper::decimal::{parse_u64, u64_to_dec_string};

#[test]
fn renders_decimal_exactly() {
    assert_eq!(u64_to_dec_string(0), "0");
    assert_eq!(u64_to_dec_string(7), "7");
    assert_eq!(u64_to_dec_string(1234567890), "1234567890");
    assert_eq!(u64_to_dec_string(u64::MAX), "18446744073709551615");
}

#[test]
fn parses_decimal_numerals() {
    assert_eq!(parse_u64("0"), Some(0));
    assert_eq!(parse_u64("42"), Some(42));
    assert_eq!(parse_u64("+42"), Some(42));
    assert_eq!(parse_u64("18446744073709551615"), Some(u64::MAX));
    assert_eq!(parse_u64(""), None);
    assert_eq!(parse_u64("+"), None);
    assert_eq!(parse_u64("-1"), None);
    assert_eq!(parse_u64("4a2"), None);
    assert_eq!(parse_u64(" 42"), None);
    assert_eq!(parse_u64("18446744073709551616"), None);
    assert_eq!(parse_u64("999999999999999999999999"), None);
}

#[test]
fn env_read_demands_both_values() {
    match Env::read(None, Some("key".to_string())) {
        Err(e) => assert_eq!(e.name, "GITHUB_APP_ID"),
        Ok(_) => panic!("expected a missing-variable error"),
    }
    match Env::read(Some("42".to_string()), None) {
        Err(e) => assert_eq!(e.name, "GITHUB_APP_KEY"),
        Ok(_) => panic!("expected a missing-variable error"),
    }
    let e = Env::read(Some("42".to_string()), Some("key".to_string())).unwrap();
    assert_eq!(e.app_id, "42");
    assert_eq!(e.app_key, "key");
}

#[test]
fn identity_rejects_bad_app_id() {
    let env = Env { app_id: "not-a-number".to_string(), app_key: "irrelevant".to_string() };
    match AppIdentity::from_env(env) {
        Err(AppAuthFromEnvError::AppIdInvalid { app_id }) => assert_eq!(app_id, "not-a-number"),
        _ => panic!("expected an invalid-identifier error"),
    }
}

#[test]
fn identity_rejects_bad_key_material() {
    let env = Env { app_id: "42".to_string(), app_key: "not a pem".to_string() };
    assert!(matches!(
        AppIdentity::from_env(env),
        Err(AppAuthFromEnvError::AppKeyInvalid(_))
    ));
}

#[test]
fn pair_from_app_token_stringifies_id() {
    let p = UsernamePasswordPair::from_app_token(654321, "ghs_token".to_string());
    assert_eq!(p.username, "654321");
    assert_eq!(p.password, "ghs_token");
}

#[test]
fn generate_uses_cached_pair_when_present() {
    let cached = UsernamePasswordPair { username: "1".to_string(), password: "t".to_string() };
    match UsernamePasswordPair::generate_plan(Some(cached)) {
        GenerateStep::UseCached(c) => {
            assert_eq!(c.username, "1");
            assert_eq!(c.password, "t");
        },
        GenerateStep::AcquireAndStore => panic!("expected the cached pair to be used"),
    }
    assert!(matches!(
        UsernamePasswordPair::generate_plan(None),
        GenerateStep::AcquireAndStore
    ));
}

fn inst(id: u64, login: &str) -> Installation {
    Installation { id, account_login: login.to_string() }
}

#[test]
fn owner_is_compiled_in() {
    assert_eq!(OWNER, "BrainiumLLC");
}

#[test]
fn first_matching_installation_wins() {
    let page = vec![inst(1, "other"), inst(2, "BrainiumLLC"), inst(3, "BrainiumLLC")];
    match find_installation(&page, "BrainiumLLC", 0, Some(5)) {
        Ok(FindInstallationStep::Found(i)) => {
            assert_eq!(i.id, 2);
            assert_eq!(i.account_login, "BrainiumLLC");
        },
        _ => panic!("expected a match on this page"),
    }
}

#[test]
fn matching_is_case_sensitive() {
    let page = vec![inst(1, "brainiumllc")];
    assert!(matches!(
        find_installation(&page, "BrainiumLLC", 0, Some(1)),
        Err(FindInstallationError::NotFound(_))
    ));
}

#[test]
fn no_match_fetches_next_page_until_total() {
    let page = vec![inst(1, "other")];
    match find_installation(&page, "BrainiumLLC", 0, Some(3)) {
        Ok(FindInstallationStep::NextPage(p)) => assert_eq!(p, 1),
        _ => panic!("expected the next page to be asked for"),
    }
    match find_installation(&page, "BrainiumLLC", 2, Some(3)) {
        Err(FindInstallationError::NotFound(o)) => assert_eq!(o, "BrainiumLLC"),
        _ => panic!("expected exhaustion"),
    }
}

#[test]
fn missing_page_total_stops_after_current_page() {
    let page = vec![inst(1, "other")];
    assert!(matches!(
        find_installation(&page, "BrainiumLLC", 0, None),
        Err(FindInstallationError::NotFound(_))
    ));
}

#[test]
fn empty_page_with_larger_total_continues() {
    let page: Vec<Installation> = vec![];
    assert!(matches!(
        find_installation(&page, "BrainiumLLC", 0, Some(2)),
        Ok(FindInstallationStep::NextPage(1))
    ));
}
