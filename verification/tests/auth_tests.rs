//! Password-file parsing and credential checks.

use hebo::auth::{auth_decision, FileAuth, Password};
use hebo::auth::file_auth::parse_u32;
use hebo::connectors::PgSQLConnConfig;
use hebo::error::{Error, ErrorKind};

// PBKDF2-HMAC-SHA256 with password "password", salt "salt" and one round
// derives 120fb6cffcf8b32c43e7225256c4f837a86548c92ccc35480805987cb70be17b.
const LINE_OK: &str = "alice:pbkdf2-sha256$1$c2FsdA==$Eg+2z/z4syxD5yJSVsT4N6hlSMkszDVICAWYfLcL4Xs=";

#[test]
fn password_parse_record() {
    let parsed: Result<Option<(String, Password)>, Error> = Password::parse(LINE_OK);
    let (user, password) = parsed.unwrap().unwrap();
    assert_eq!(user, "alice");
    assert!(password.is_match(b"password"));
    assert!(!password.is_match(b"Password"));
    assert!(!password.is_match(b""));
}

#[test]
fn password_parse_skips_comments_and_blanks() {
    assert!(Password::parse("").unwrap().is_none());
    assert!(Password::parse("# a comment").unwrap().is_none());
}

#[test]
fn password_parse_rejects_malformed_lines() {
    assert!(Password::parse("no-colon-here").is_err());
    assert!(Password::parse(":empty-user$1$c2FsdA==$AAAA").is_err());
    assert!(Password::parse("u:bcrypt$1$c2FsdA==$AAAA").is_err());
    assert!(Password::parse("u:pbkdf2-sha256$x$c2FsdA==$AAAA").is_err());
    assert!(Password::parse("u:pbkdf2-sha256$1$!notb64$AAAA").is_err());
    assert!(Password::parse("u:pbkdf2-sha256$1$c2FsdA==").is_err());
}

#[test]
fn file_auth_matches_known_users_only() {
    let lines = vec![
        String::from("# users"),
        String::from(LINE_OK),
        String::from(""),
        String::from("bob:pbkdf2-sha256$4096$c2FsdA==$xeR41ZKIyEGqUw22hFxMjZYok6ABzk4RpJY4c6qYE0o="),
    ];
    let auth = FileAuth::from_lines(&lines);
    assert!(auth.is_match("alice", b"password"));
    assert!(!auth.is_match("alice", b"wrong"));
    assert!(auth.is_match("bob", b"password"));
    assert!(!auth.is_match("carol", b"password"));
}

#[test]
fn later_record_replaces_earlier() {
    let lines = vec![
        String::from("u:pbkdf2-sha256$4096$c2FsdA==$xeR41ZKIyEGqUw22hFxMjZYok6ABzk4RpJY4c6qYE0o="),
        String::from("u:pbkdf2-sha256$1$c2FsdA==$Eg+2z/z4syxD5yJSVsT4N6hlSMkszDVICAWYfLcL4Xs="),
    ];
    let auth = FileAuth::from_lines(&lines);
    // Only the one-round record is in force, so one round must match it.
    assert!(auth.is_match("u", b"password"));
}

#[test]
fn decision_rules() {
    let auth = FileAuth::from_lines(&vec![String::from(LINE_OK)]);
    // Empty username: anonymous policy decides.
    assert_eq!(auth_decision(true, Some(&auth), "", b"").unwrap(), true);
    assert_eq!(auth_decision(false, Some(&auth), "", b"").unwrap(), false);
    // Named user: the file decides.
    assert_eq!(auth_decision(false, Some(&auth), "alice", b"password").unwrap(), true);
    assert_eq!(auth_decision(false, Some(&auth), "alice", b"nope").unwrap(), false);
    // No password file: every named user is refused.
    assert_eq!(auth_decision(true, None, "alice", b"password").unwrap(), false);
}

#[test]
fn parse_u32_rules() {
    assert_eq!(parse_u32("0"), Some(0));
    assert_eq!(parse_u32("4096"), Some(4096));
    assert_eq!(parse_u32("4294967295"), Some(u32::MAX));
    assert_eq!(parse_u32("4294967296"), None);
    assert_eq!(parse_u32(""), None);
    assert_eq!(parse_u32("12a"), None);
    assert_eq!(parse_u32("007"), Some(7));
}

#[test]
fn error_type_carries_kind_and_message() {
    let e = Error::new(ErrorKind::PidError, "stale pid");
    assert!(matches!(e.kind(), ErrorKind::PidError));
    assert_eq!(e.message(), "stale pid");
    let e2 = Error::from_string(ErrorKind::ConfigError, String::from("bad value"));
    assert!(matches!(e2.kind(), ErrorKind::ConfigError));
    assert_eq!(e2.message(), "bad value");
}

#[test]
fn pgsql_config_defaults() {
    let c = PgSQLConnConfig::default();
    assert_eq!(c.ip, "127.0.0.1");
    assert_eq!(c.port, 5432);
    assert_eq!(c.database, "hebo-mqtt");
    assert_eq!(c.username, "postgres");
    assert_eq!(c.pool_size, 4);
    assert_eq!(c.query_timeout(), 5);
    assert!(!c.use_uds);
    assert!(c.socket.is_none());
}
