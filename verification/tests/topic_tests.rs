//! Topic parsing, validation and wildcard matching.

use hebo::topic::{Topic, TopicError, TopicPart};

#[test]
fn test_parse() {
    let t_sys = Topic::parse("$SYS/uptime");
    assert!(t_sys.is_ok());
}

#[test]
fn test_topic_match() {
    let t_sys = Topic::parse("$SYS");
    assert!(t_sys.is_ok());
    let t_sys = t_sys.unwrap();

    // A filter whose first level is a wildcard never reaches a topic that
    // starts with `$`, so the bare multi-level wildcard does not match it.
    let t_any = Topic::parse("#").unwrap();
    assert!(!t_any.is_match(t_sys.topic()));

    let t_dev = Topic::parse("dev/#").unwrap();
    assert!(t_dev.is_match("dev/cpu/0"));
}

#[test]
fn match_exact_levels() {
    let f = Topic::parse("a/b/c").unwrap();
    assert!(f.is_match("a/b/c"));
    assert!(!f.is_match("a/b"));
    assert!(!f.is_match("a/b/c/d"));
    assert!(!f.is_match("a/b/x"));
}

#[test]
fn match_single_level_wildcard() {
    let f = Topic::parse("a/+/c").unwrap();
    assert!(f.is_match("a/b/c"));
    assert!(f.is_match("a/x/c"));
    assert!(!f.is_match("a/c"));
    assert!(!f.is_match("a/b/d"));
}

#[test]
fn match_multi_level_wildcard() {
    let f = Topic::parse("a/#").unwrap();
    assert!(f.is_match("a/b/c/d"));
    assert!(f.is_match("a/b/c"));
    assert!(f.is_match("a"));
    assert!(!f.is_match("b/a"));
}

#[test]
fn match_internal_topics_need_explicit_prefix() {
    let any = Topic::parse("#").unwrap();
    assert!(!any.is_match("$SYS/uptime"));

    let plus = Topic::parse("+/uptime").unwrap();
    assert!(!plus.is_match("$SYS/uptime"));

    let sys = Topic::parse("$SYS/#").unwrap();
    assert!(sys.is_match("$SYS/uptime"));
}

#[test]
fn match_empty_topic_matches_nothing() {
    let any = Topic::parse("#").unwrap();
    assert!(!any.is_match(""));
}

#[test]
fn validate_sub_topic_rules() {
    assert!(Topic::validate_sub_topic("sport/tennis/player/#").is_ok());
    assert!(Topic::validate_sub_topic("#").is_ok());
    assert!(Topic::validate_sub_topic("+").is_ok());
    assert!(Topic::validate_sub_topic("+/tennis/#").is_ok());
    assert!(Topic::validate_sub_topic("sport/tennis/player#").is_err());
    assert!(Topic::validate_sub_topic("sport/#/player/ranking").is_err());
    assert!(Topic::validate_sub_topic("sport+").is_err());
    assert!(matches!(Topic::validate_sub_topic(""), Err(TopicError::EmptyTopic)));
}

#[test]
fn validate_pub_topic_rules() {
    assert!(Topic::validate_pub_topic("sport/tennis/player/ranking").is_ok());
    assert!(Topic::validate_pub_topic("sport/tennis/player/#").is_err());
    assert!(Topic::validate_pub_topic("sport/+").is_err());
    assert!(matches!(Topic::validate_pub_topic(""), Err(TopicError::EmptyTopic)));
    let long = "x".repeat(65536);
    assert!(matches!(Topic::validate_pub_topic(&long), Err(TopicError::TooManyData)));
}

#[test]
fn topic_part_classification() {
    assert!(matches!(TopicPart::parse(""), Ok(TopicPart::Empty)));
    assert!(matches!(TopicPart::parse("+"), Ok(TopicPart::SingleWildcard)));
    assert!(matches!(TopicPart::parse("#"), Ok(TopicPart::MultiWildcard)));
    assert!(matches!(TopicPart::parse("$SYS"), Ok(TopicPart::Internal(_))));
    assert!(matches!(TopicPart::parse("dev"), Ok(TopicPart::Normal(_))));
    assert!(TopicPart::parse("de#v").is_err());
}

#[test]
fn topic_accessors() {
    let t = Topic::parse("a/b").unwrap();
    assert_eq!(t.topic(), "a/b");
    assert_eq!(t.len(), 3);
    assert_eq!(t.as_bytes(), b"a/b");
}
