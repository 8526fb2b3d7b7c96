use gh_credential_helper::creds::cache::{Cache, CacheFileState, ContentOutcome};
use gh_credential_helper::creds::record::to_record;
use gh_credential_helper::creds::UsernamePasswordPair;
use gh_credential_helper::helper::{run_phase1, run_phase2, HelperError, Operation, Phase1};

fn lines(v: &[&str]) -> Vec<String> {
    v.iter().map(|s| s.to_string()).collect()
}

fn pair(u: &str, p: &str) -> UsernamePasswordPair {
    UsernamePasswordPair { username: u.to_string(), password: p.to_string() }
}

fn cache() -> Cache {
    Cache::new("/tmp".to_string())
}

fn fresh_file(p: &UsernamePasswordPair) -> CacheFileState {
    CacheFileState::Present { age_secs: 5 * 60, content: ContentOutcome::Data(to_record(p)) }
}

#[test]
fn get_with_empty_cache_acquires_and_emits_quit() {
    let input = lines(&["protocol=https", "host=github.com"]);
    let doc = match run_phase1(&Operation::Get, &input, &cache(), &CacheFileState::Absent) {
        Phase1::NeedToken(d) => d,
        _ => panic!("expected acquisition to be asked for"),
    };
    let effects = run_phase2(doc, pair("123", "ghs_new"));
    let out = effects.output.expect("get must produce output").to_string();
    assert_eq!(
        out,
        "protocol=https\nhost=github.com\nusername=123\npassword=ghs_new\nquit=true\n"
    );
    let written = effects.cache_write.expect("the acquired pair must be cached");
    assert_eq!(written.username, "123");
    assert_eq!(written.password, "ghs_new");
    assert!(!effects.cache_delete);
}

#[test]
fn get_with_fresh_cache_answers_without_acquiring() {
    let input = lines(&["protocol=https", "host=github.com"]);
    let cached = pair("123", "ghs_cached");
    match run_phase1(&Operation::Get, &input, &cache(), &fresh_file(&cached)) {
        Phase1::Done(e) => {
            let out = e.output.expect("get must produce output").to_string();
            assert_eq!(
                out,
                "protocol=https\nhost=github.com\nusername=123\npassword=ghs_cached\nquit=true\n"
            );
            assert!(e.cache_write.is_none());
            assert!(!e.cache_delete);
        },
        _ => panic!("a fresh cache must answer the request by itself"),
    }
}

#[test]
fn get_with_stale_cache_acquires() {
    let input = lines(&["protocol=https", "host=github.com"]);
    let old = CacheFileState::Present {
        age_secs: 46 * 60,
        content: ContentOutcome::Data(to_record(&pair("123", "ghs_old"))),
    };
    assert!(matches!(
        run_phase1(&Operation::Get, &input, &cache(), &old),
        Phase1::NeedToken(_)
    ));
}

#[test]
fn mismatched_host_dispatches_nothing() {
    let input = lines(&["protocol=ssh", "host=github.com"]);
    match run_phase1(&Operation::Get, &input, &cache(), &CacheFileState::Absent) {
        Phase1::Done(e) => {
            assert!(e.output.is_none());
            assert!(e.cache_write.is_none());
            assert!(!e.cache_delete);
        },
        _ => panic!("a mismatched host must be a clean no-op"),
    }
}

#[test]
fn store_writes_the_input_credentials_and_stays_silent() {
    let input = lines(&[
        "protocol=https",
        "host=github.com",
        "username=123",
        "password=ghs_x",
    ]);
    match run_phase1(&Operation::Store, &input, &cache(), &CacheFileState::Absent) {
        Phase1::Done(e) => {
            assert!(e.output.is_none());
            let w = e.cache_write.expect("store must write the cache");
            assert_eq!(w.username, "123");
            assert_eq!(w.password, "ghs_x");
            assert!(!e.cache_delete);
        },
        _ => panic!("store with credentials must succeed"),
    }
}

#[test]
fn store_without_credentials_is_a_usage_error() {
    let input = lines(&["protocol=https", "host=github.com"]);
    assert!(matches!(
        run_phase1(&Operation::Store, &input, &cache(), &CacheFileState::Absent),
        Phase1::Fail(HelperError::NoCredsToStore)
    ));
}

#[test]
fn erase_deletes_only_an_exact_match() {
    let cached = pair("123", "ghs_x");
    let matching = lines(&[
        "protocol=https",
        "host=github.com",
        "username=123",
        "password=ghs_x",
    ]);
    match run_phase1(&Operation::Erase, &matching, &cache(), &fresh_file(&cached)) {
        Phase1::Done(e) => {
            assert!(e.cache_delete);
            assert!(e.output.is_none());
            assert!(e.cache_write.is_none());
        },
        _ => panic!("an exact match must delete the cache"),
    }
}

#[test]
fn erase_with_differing_credentials_leaves_cache_alone() {
    let cached = pair("123", "ghs_x");
    let differing = lines(&[
        "protocol=https",
        "host=github.com",
        "username=123",
        "password=ghs_other",
    ]);
    match run_phase1(&Operation::Erase, &differing, &cache(), &fresh_file(&cached)) {
        Phase1::Done(e) => {
            assert!(!e.cache_delete);
            assert!(e.output.is_none());
        },
        _ => panic!("a mismatch must be a silent no-op"),
    }
}

#[test]
fn erase_with_empty_cache_is_silent_no_op() {
    let input = lines(&["protocol=https", "host=github.com", "username=1", "password=2"]);
    match run_phase1(&Operation::Erase, &input, &cache(), &CacheFileState::Absent) {
        Phase1::Done(e) => {
            assert!(!e.cache_delete);
            assert!(e.output.is_none());
        },
        _ => panic!("an empty cache must be a silent no-op"),
    }
}

#[test]
fn erase_without_input_credentials_deletes_nothing() {
    let input = lines(&["protocol=https", "host=github.com"]);
    match run_phase1(&Operation::Erase, &input, &cache(), &fresh_file(&pair("1", "2"))) {
        Phase1::Done(e) => assert!(!e.cache_delete),
        _ => panic!("expected a silent no-op"),
    }
}

#[test]
fn malformed_input_fails_before_any_verb() {
    let input = lines(&["nonsense"]);
    assert!(matches!(
        run_phase1(&Operation::Get, &input, &cache(), &CacheFileState::Absent),
        Phase1::Fail(HelperError::Parse(_))
    ));
}

#[test]
fn url_form_input_dispatches_like_separate_fields() {
    let input = lines(&["url=https://github.com"]);
    assert!(matches!(
        run_phase1(&Operation::Get, &input, &cache(), &CacheFileState::Absent),
        Phase1::NeedToken(_)
    ));
}
