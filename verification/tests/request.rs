use leaky_snowflake_observer::api::{ListsStatuses, Token, Tweet, User, HOST};
use std::cmp::Ordering;

#[test]
fn uri_without_cursor() {
    let req = ListsStatuses::new(123);
    assert_eq!(
        req.uri_str(),
        "/1.1/lists/statuses.json?count=200&include_entities=false&list_id=123"
    );
}

#[test]
fn uri_with_cursor_and_count() {
    let mut req = ListsStatuses::new(123);
    req.count(200);
    req.since_id(Some(456));
    assert_eq!(
        req.uri_str(),
        "/1.1/lists/statuses.json?count=200&include_entities=false&list_id=123&since_id=456"
    );
    req.since_id(None);
    assert_eq!(
        req.uri_str(),
        "/1.1/lists/statuses.json?count=200&include_entities=false&list_id=123"
    );
}

#[test]
fn uri_reflects_count_setter() {
    let mut req = ListsStatuses::new(7);
    req.count(20);
    assert_eq!(
        req.uri_str(),
        "/1.1/lists/statuses.json?count=20&include_entities=false&list_id=7"
    );
}

#[test]
fn uri_formats_zero_and_large_ids() {
    let mut req = ListsStatuses::new(0);
    req.since_id(Some(u64::MAX));
    assert_eq!(
        req.uri_str(),
        "/1.1/lists/statuses.json?count=200&include_entities=false&list_id=0&since_id=18446744073709551615"
    );
}

#[test]
fn bearer_token_builds_header_line() {
    match Token::from_bearer("AAAA%3Dbbb") {
        Some(Token::AppOnly(h)) => assert_eq!(h, "Bearer AAAA%3Dbbb"),
        _ => panic!("expected an app-only credential"),
    }
}

#[test]
fn bearer_token_rejects_control_bytes() {
    assert!(Token::from_bearer("a\nb").is_none());
    assert!(Token::from_bearer("a\x7fb").is_none());
    assert!(Token::from_bearer("a\tb").is_some());
    assert!(Token::from_bearer("").is_some());
}

#[test]
fn host_is_fixed() {
    assert_eq!(HOST, "api.twitter.com");
}

#[test]
fn cmp_rev_id_orders_descending() {
    let a = Tweet {
        id: 10,
        user: User { id: 1 },
    };
    let b = Tweet {
        id: 7,
        user: User { id: 2 },
    };
    assert_eq!(a.cmp_rev_id(&b), Ordering::Less);
    assert_eq!(b.cmp_rev_id(&a), Ordering::Greater);
    assert_eq!(a.cmp_rev_id(&a), Ordering::Equal);
    let mut v = vec![b, a];
    v.sort_by(|x, y| x.cmp_rev_id(y));
    assert_eq!(v[0].id, 10);
    assert_eq!(v[1].id, 7);
}
