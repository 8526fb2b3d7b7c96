use gh_credential_helper::doc::{Doc, ReadError};
use gh_credential_helper::creds::UsernamePasswordPair;

fn lines(v: &[&str]) -> Vec<String> {
    v.iter().map(|s| s.to_string()).collect()
}

#[test]
fn parses_all_recognized_keys() {
    let d = Doc::read(&lines(&[
        "protocol=https",
        "host=github.com",
        "path=foo/bar.git",
        "username=alice",
        "password=p=w=d",
        "url=https://github.com",
    ]))
    .unwrap();
    let out = d.to_string();
    assert_eq!(
        out,
        "protocol=https\nhost=github.com\npath=foo/bar.git\nusername=alice\npassword=p=w=d\nurl=https://github.com\n"
    );
}

#[test]
fn parse_trims_surrounding_whitespace() {
    let d = Doc::read(&lines(&["  host=github.com \t"])).unwrap();
    assert!(d.matches_url("https", "github.com") == false);
    let d2 = Doc::read(&lines(&["protocol=https", "  host=github.com \t"])).unwrap();
    assert!(d2.matches_url("https", "github.com"));
}

#[test]
fn parse_missing_delimiter_is_fatal() {
    let r = Doc::read(&lines(&["protocol=https", "hostgithub.com"]));
    match r {
        Err(ReadError::DelimeterMissing(l)) => assert_eq!(l, "hostgithub.com"),
        _ => panic!("expected a missing-delimiter error"),
    }
}

#[test]
fn parse_empty_line_is_fatal() {
    let r = Doc::read(&lines(&["protocol=https", ""]));
    assert!(matches!(r, Err(ReadError::DelimeterMissing(_))));
}

#[test]
fn parse_unrecognized_key_is_fatal() {
    let r = Doc::read(&lines(&["quit=true"]));
    match r {
        Err(ReadError::KeyInvalid(k)) => assert_eq!(k, "quit"),
        _ => panic!("expected an invalid-key error"),
    }
}

#[test]
fn roundtrip_reproduces_fields() {
    let input = lines(&["protocol=https", "host=github.com", "path=x/y", "username=u"]);
    let d = Doc::read(&input).unwrap();
    let out = d.to_string();
    let reread: Vec<String> = out.lines().map(|l| l.to_string()).collect();
    let d2 = Doc::read(&reread).unwrap();
    assert_eq!(d2.to_string(), out);
}

#[test]
fn matches_url_from_separate_fields() {
    let d = Doc::read(&lines(&["protocol=https", "host=github.com"])).unwrap();
    assert!(d.matches_url("https", "github.com"));
    assert!(!d.matches_url("https", "gitlab.com"));
    assert!(!d.matches_url("ssh", "github.com"));
}

#[test]
fn matches_url_from_url_field() {
    let d = Doc::read(&lines(&["url=https://github.com"])).unwrap();
    assert!(d.matches_url("https", "github.com"));
    let pair = d.protocol_host_pair().unwrap();
    assert_eq!(pair.0, "https");
    assert_eq!(pair.1, "github.com");
}

#[test]
fn url_with_path_compares_whole_remainder() {
    let d = Doc::read(&lines(&["url=https://github.com/x"])).unwrap();
    assert!(!d.matches_url("https", "github.com"));
    let pair = d.protocol_host_pair().unwrap();
    assert_eq!(pair.1, "github.com/x");
}

#[test]
fn url_wins_over_separate_fields() {
    let d = Doc::read(&lines(&[
        "protocol=ssh",
        "host=gitlab.com",
        "url=https://github.com",
    ]))
    .unwrap();
    assert!(d.matches_url("https", "github.com"));
    assert!(!d.matches_url("ssh", "gitlab.com"));
}

#[test]
fn url_without_separator_matches_nothing() {
    let d = Doc::read(&lines(&["url=github.com", "protocol=https", "host=github.com"])).unwrap();
    assert!(!d.matches_url("https", "github.com"));
    assert!(d.protocol_host_pair().is_none());
}

#[test]
fn missing_either_field_matches_nothing() {
    let d = Doc::read(&lines(&["protocol=https"])).unwrap();
    assert!(!d.matches_url("https", "github.com"));
    assert!(d.protocol_host_pair().is_none());
}

#[test]
fn creds_present_only_when_both_fields_set() {
    let d = Doc::read(&lines(&["username=alice"])).unwrap();
    assert!(d.creds().is_none());
    let d2 = Doc::read(&lines(&["username=alice", "password=s3cret"])).unwrap();
    let c = d2.creds().unwrap();
    assert_eq!(c.username, "alice");
    assert_eq!(c.password, "s3cret");
}

#[test]
fn matches_creds_is_exact() {
    let d = Doc::read(&lines(&["username=alice", "password=s3cret"])).unwrap();
    assert!(d.matches_creds(&UsernamePasswordPair {
        username: "alice".to_string(),
        password: "s3cret".to_string(),
    }));
    assert!(!d.matches_creds(&UsernamePasswordPair {
        username: "Alice".to_string(),
        password: "s3cret".to_string(),
    }));
    assert!(!d.matches_creds(&UsernamePasswordPair {
        username: "alice".to_string(),
        password: "s3cre".to_string(),
    }));
}

#[test]
fn with_creds_and_with_quit_update_functionally() {
    let d = Doc::read(&lines(&["protocol=https", "host=github.com"])).unwrap();
    let d = d.with_creds(UsernamePasswordPair {
        username: "42".to_string(),
        password: "tok".to_string(),
    });
    let d = d.with_quit(true);
    assert_eq!(
        d.to_string(),
        "protocol=https\nhost=github.com\nusername=42\npassword=tok\nquit=true\n"
    );
    let e = Doc::new().with_quit(false);
    assert_eq!(e.to_string(), "quit=false\n");
}

#[test]
fn later_line_overwrites_earlier_value() {
    let d = Doc::read(&lines(&["host=a", "host=b"])).unwrap();
    assert_eq!(d.to_string(), "host=b\n");
}
