use gh_credential_helper::creds::cache::{
    Cache, CacheFileState, ContentOutcome, ReadError, StatError, MAX_TOKEN_AGE_SECS,
};
use gh_credential_helper::creds::record::{parse_record, to_record};
use gh_credential_helper::creds::UsernamePasswordPair;

fn pair(u: &str, p: &str) -> UsernamePasswordPair {
    UsernamePasswordPair { username: u.to_string(), password: p.to_string() }
}

fn cache() -> Cache {
    Cache::new("/tmp".to_string())
}

#[test]
fn cache_path_is_namespaced() {
    let c = cache();
    assert_eq!(c.path(), "/tmp/com.brainium.gh_credential_helper/creds.json");
    assert_eq!(c.dir_path(), "/tmp/com.brainium.gh_credential_helper");
}

#[test]
fn record_has_fixed_shape() {
    let r = to_record(&pair("42", "tok"));
    assert_eq!(r, "{\"username\":\"42\",\"password\":\"tok\"}");
}

#[test]
fn record_roundtrips_with_escaping() {
    let p = pair("a\"b\\c", "x\\\"y");
    let r = to_record(&p);
    let back = parse_record(&r).unwrap();
    assert_eq!(back.username, p.username);
    assert_eq!(back.password, p.password);
}

#[test]
fn record_rejects_malformed_text() {
    assert!(parse_record("").is_none());
    assert!(parse_record("{\"username\":\"a\"}").is_none());
    assert!(parse_record("{\"username\":\"a\",\"password\":\"b\"} ").is_none());
    assert!(parse_record("{\"username\":\"a\",\"password\":\"b").is_none());
    assert!(parse_record("{\"username\":\"a\",\"password\":\"b\\q\"}").is_none());
}

#[test]
fn record_agrees_with_standard_json() {
    let p = pair("it\"s\\me", "to\"k\\en");
    let r = to_record(&p);
    let v: serde_json::Value = serde_json::from_str(&r).unwrap();
    assert_eq!(v.get("username").unwrap().as_str().unwrap(), p.username);
    assert_eq!(v.get("password").unwrap().as_str().unwrap(), p.password);
}

#[test]
fn absent_file_is_clean_miss() {
    let c = cache();
    assert!(matches!(c.stale(&CacheFileState::Absent), Ok(true)));
    assert!(matches!(c.read(&CacheFileState::Absent), Ok(None)));
}

#[test]
fn staleness_boundary_is_inclusive() {
    let c = cache();
    let fresh = CacheFileState::Present {
        age_secs: MAX_TOKEN_AGE_SECS - 1,
        content: ContentOutcome::Data(to_record(&pair("42", "tok"))),
    };
    let stale = CacheFileState::Present {
        age_secs: MAX_TOKEN_AGE_SECS,
        content: ContentOutcome::Data(to_record(&pair("42", "tok"))),
    };
    assert!(matches!(c.stale(&fresh), Ok(false)));
    assert!(matches!(c.stale(&stale), Ok(true)));
    match c.read(&fresh) {
        Ok(Some(p)) => {
            assert_eq!(p.username, "42");
            assert_eq!(p.password, "tok");
        },
        _ => panic!("expected a hit on a fresh file"),
    }
    assert!(matches!(c.read(&stale), Ok(None)));
}

#[test]
fn fresh_garbage_is_deserialize_error() {
    let c = cache();
    let st = CacheFileState::Present {
        age_secs: 0,
        content: ContentOutcome::Data("not a record".to_string()),
    };
    match c.read(&st) {
        Err(ReadError::DeserializeFailed { path }) => {
            assert_eq!(path, "/tmp/com.brainium.gh_credential_helper/creds.json");
        },
        _ => panic!("expected a deserialize error"),
    }
}

#[test]
fn failed_content_read_is_read_error() {
    let c = cache();
    let st = CacheFileState::Present {
        age_secs: 0,
        content: ContentOutcome::Failed { cause: "permission denied".to_string() },
    };
    match c.read(&st) {
        Err(ReadError::ReadFailed { path, cause }) => {
            assert_eq!(path, c.path());
            assert_eq!(cause, "permission denied");
        },
        _ => panic!("expected a read error"),
    }
}

#[test]
fn stat_failures_are_distinct_errors() {
    let c = cache();
    let stat = CacheFileState::StatFailed { cause: "io".to_string() };
    let modified = CacheFileState::ModifiedFailed { cause: "io".to_string() };
    let elapsed = CacheFileState::ElapsedFailed { cause: "clock".to_string() };
    assert!(matches!(c.stale(&stat), Err(StatError::StatFailed { .. })));
    assert!(matches!(c.stale(&modified), Err(StatError::ModifiedFailed { .. })));
    assert!(matches!(c.stale(&elapsed), Err(StatError::ElapsedFailed { .. })));
    assert!(matches!(
        c.read(&stat),
        Err(ReadError::StatFailed(StatError::StatFailed { .. }))
    ));
}

#[test]
fn stale_file_with_unreadable_content_is_still_clean_miss() {
    let c = cache();
    let st = CacheFileState::Present {
        age_secs: MAX_TOKEN_AGE_SECS + 1,
        content: ContentOutcome::Failed { cause: "io".to_string() },
    };
    assert!(matches!(c.read(&st), Ok(None)));
}
