use hermod::datetime::parse_date;
use hermod::datetime::Timestamp;
use hermod::models::CompositeItem;
use hermod::models::SubscribedItem;
use hermod::models::User;
use hermod::store::Item;
use hermod::types::Config;

#[test]
fn hash_pw_is_base64_of_the_sha256_digest() {
    // the digest of "password" is well known; this fails if either the
    // hashing or the encoding handed its input back unchanged
    assert_eq!(
        User::hash_pw("password"),
        "XohImNooBHFR0OVvjcYpJ3NgPQ1qq73WKhHvch0VQtg="
    );
    assert_ne!(User::hash_pw("password"), "password");
}

#[test]
fn check_user_accepts_the_matching_password() {
    let stored = User {
        id: 1,
        username: "alice".to_string(),
        password_hash: User::hash_pw("correct horse").into_bytes(),
    };
    let r = User::check_user(Some(stored), "correct horse");
    assert_eq!(r.map(|u| u.id), Some(1));
}

#[test]
fn check_user_rejects_a_wrong_password() {
    let stored = User {
        id: 1,
        username: "alice".to_string(),
        password_hash: User::hash_pw("correct horse").into_bytes(),
    };
    assert!(User::check_user(Some(stored), "battery staple").is_none());
}

#[test]
fn check_user_rejects_when_nobody_was_found() {
    assert!(User::check_user(None, "anything").is_none());
}

#[test]
fn check_user_rejects_a_corrupt_stored_hash() {
    let stored = User {
        id: 1,
        username: "alice".to_string(),
        password_hash: b"!!! not base64 !!!".to_vec(),
    };
    assert!(User::check_user(Some(stored), "anything").is_none());
}

#[test]
fn parse_date_reads_rfc2822() {
    let t = parse_date("Wed, 18 Feb 2015 23:16:09 GMT").unwrap();
    assert_eq!(t, Timestamp { secs: 1424301369, nanos: 0 });
}

#[test]
fn parse_date_falls_back_to_plain_utc() {
    let t = parse_date("2015-02-18T23:16:09Z").unwrap();
    assert_eq!(t, Timestamp { secs: 1424301369, nanos: 0 });
}

#[test]
fn parse_date_rejects_garbage() {
    assert!(parse_date("the day before yesterday").is_none());
}

#[test]
fn composite_from_item_starts_unseen() {
    let item = Item {
        id: 4,
        feed_id: 2,
        guid: "g4".to_string(),
        link: "https://example.org/g4".to_string(),
        title: "four".to_string(),
        summary: Some("s".to_string()),
        content: None,
        published_at: Some(Timestamp { secs: 10, nanos: 0 }),
        updated_at: None,
    };
    let c = CompositeItem::from_item(&item);
    assert_eq!(c.id, 4);
    assert_eq!(c.title, "four");
    assert_eq!(c.summary, Some("s".to_string()));
    assert!(!c.seen);
}

#[test]
fn composite_from_subscribed_keeps_read_state() {
    let row = SubscribedItem {
        id: 4,
        guid: "g4".to_string(),
        link: "https://example.org/g4".to_string(),
        title: "four".to_string(),
        summary: None,
        content: Some("c".to_string()),
        published_at: None,
        updated_at: None,
        feed_id: 2,
        subscribed_item_id: 9,
        user_id: 42,
        seen: true,
    };
    let c = CompositeItem::from_subscribed(&row);
    assert_eq!(c.id, 4);
    assert_eq!(c.content, Some("c".to_string()));
    assert!(c.seen);
}

#[test]
fn config_defaults_puts_the_feed_dir_under_the_data_dir() {
    let c = Config::defaults("/home/alice/.local/share".to_string());
    assert_eq!(c.feed_path, "/home/alice/.local/share/hermod");
}
