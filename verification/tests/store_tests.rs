use hermod::datetime::Timestamp;
use hermod::store::NewFeed;
use hermod::store::NewItem;
use hermod::store::Store;
use hermod::store::StoreError;
use hermod::store::create_admin_user;
use hermod::models::User;

fn ts(secs: i64) -> Timestamp {
    Timestamp { secs, nanos: 0 }
}

fn channel(url: &str) -> NewFeed {
    NewFeed {
        title: "example".to_string(),
        description: Some("an example feed".to_string()),
        site_link: "https://example.org".to_string(),
        feed_link: url.to_string(),
        updated_at: ts(0),
    }
}

fn new_item(fid: i32, guid: &str, published: Option<Timestamp>) -> NewItem {
    NewItem {
        feed_id: fid,
        guid: guid.to_string(),
        link: format!("https://example.org/{}", guid),
        title: guid.to_string(),
        summary: None,
        content: None,
        published_at: published,
        updated_at: None,
    }
}

#[test]
fn insert_channel_generates_sequential_ids() {
    let mut store = Store::new();
    let a = store.insert_channel(channel("https://a.example"));
    let b = store.insert_channel(channel("https://b.example"));
    assert_eq!(a.id, 1);
    assert_eq!(b.id, 2);
    assert_eq!(store.feeds.len(), 2);
    assert_eq!(a.title, "example");
    assert_eq!(a.feed_link, "https://a.example");
}

#[test]
fn find_feed_by_url_hits_and_misses() {
    let mut store = Store::new();
    store.insert_channel(channel("https://a.example"));
    let hit = store.find_feed_by_url("https://a.example");
    assert_eq!(hit.map(|f| f.id), Some(1));
    assert!(store.find_feed_by_url("https://b.example").is_none());
}

#[test]
fn get_feed_id_reports_not_found() {
    let mut store = Store::new();
    store.insert_channel(channel("https://a.example"));
    assert_eq!(store.get_feed_id("https://a.example"), Ok(1));
    assert_eq!(
        store.get_feed_id("https://b.example"),
        Err(StoreError::NotFound)
    );
}

#[test]
fn insert_items_returns_rows_under_generated_ids() {
    let mut store = Store::new();
    let rows = store
        .insert_items(&vec![new_item(1, "g1", Some(ts(5))), new_item(1, "g2", None)])
        .unwrap();
    assert_eq!(rows.len(), 2);
    assert_eq!(rows[0].id, 1);
    assert_eq!(rows[1].id, 2);
    assert_eq!(rows[0].guid, "g1");
    assert_eq!(rows[1].published_at, None);
    assert_eq!(store.items.len(), 2);
    assert_eq!(store.next_item_id, 3);
}

#[test]
fn update_item_overwrites_content_but_not_identity() {
    let mut store = Store::new();
    store.insert_items(&vec![new_item(1, "g1", Some(ts(5)))]).unwrap();
    let mut changed = new_item(1, "ignored-guid", Some(ts(9)));
    changed.title = "revised".to_string();
    changed.link = "https://example.org/elsewhere".to_string();
    store.update_item(1, changed);
    let row = &store.items[0];
    assert_eq!(row.id, 1);
    assert_eq!(row.guid, "g1");
    assert_eq!(row.feed_id, 1);
    assert_eq!(row.title, "revised");
    assert_eq!(row.link, "https://example.org/elsewhere");
    assert_eq!(row.published_at, Some(ts(9)));
}

#[test]
fn find_duplicates_answers_only_offered_guids() {
    let mut store = Store::new();
    store
        .insert_items(&vec![
            new_item(1, "g1", Some(ts(5))),
            new_item(1, "g2", None),
            new_item(2, "g3", Some(ts(7))),
        ])
        .unwrap();
    let dupes = store.find_duplicates(vec!["g1", "g3", "g9"]).unwrap();
    assert_eq!(dupes.len(), 2);
    assert_eq!(dupes[0], (1, "g1".to_string(), Some(ts(5))));
    assert_eq!(dupes[1], (3, "g3".to_string(), Some(ts(7))));
    assert!(store.find_duplicates(vec!["g9"]).is_none());
    assert!(store.find_duplicates(vec![]).is_none());
}

#[test]
fn get_item_ids_is_scoped_to_the_feed() {
    let mut store = Store::new();
    store
        .insert_items(&vec![
            new_item(1, "g1", None),
            new_item(2, "g2", None),
            new_item(1, "g3", None),
        ])
        .unwrap();
    assert_eq!(store.get_item_ids(&1), Some(vec![1, 3]));
    assert_eq!(store.get_item_ids(&2), Some(vec![2]));
    assert_eq!(store.get_item_ids(&9), Some(vec![]));
}

#[test]
fn subscribe_feed_keeps_one_pair() {
    let mut store = Store::new();
    store.subscribe_feed(&42, &1);
    store.subscribe_feed(&42, &1);
    store.subscribe_feed(&43, &1);
    assert_eq!(store.subscribed_feeds, vec![(42, 1), (43, 1)]);
}

#[test]
fn insert_subscribed_items_assigns_row_ids() {
    let mut store = Store::new();
    store.next_item_id = 5;
    store.insert_subscribed_items(vec![(42, 1, false), (43, 2, true)]);
    assert_eq!(store.subscribed_items.len(), 2);
    assert_eq!(store.subscribed_items[0].id, 1);
    assert_eq!(store.subscribed_items[1].id, 2);
    assert_eq!(store.subscribed_items[0].user_id, 42);
    assert_eq!(store.subscribed_items[1].seen, true);
}

#[test]
fn mark_subscribed_item_as_read_flips_only_that_row() {
    let mut store = Store::new();
    store.next_item_id = 5;
    store.insert_subscribed_items(vec![(42, 1, false), (43, 1, false)]);
    store.mark_subscribed_item_as_read(1);
    assert!(store.subscribed_items[0].seen);
    assert!(!store.subscribed_items[1].seen);
}

#[test]
fn create_user_refuses_taken_username() {
    let mut store = Store::new();
    assert_eq!(store.create_user("alice", "hash-a"), Ok(1));
    assert_eq!(
        store.create_user("alice", "hash-b"),
        Err(StoreError::Duplicate)
    );
    assert_eq!(store.users.len(), 1);
    assert_eq!(store.users[0].password_hash, b"hash-a".to_vec());
}

#[test]
fn get_user_finds_by_username() {
    let mut store = Store::new();
    store.create_user("alice", "hash-a").unwrap();
    let u = store.get_user("alice").unwrap();
    assert_eq!(u.id, 1);
    assert_eq!(u.username, "alice");
    assert!(store.get_user("bob").is_none());
}

#[test]
fn scheduler_listing_treats_no_subscribers_as_empty_set() {
    let mut store = Store::new();
    let a = store.insert_channel(channel("https://a.example"));
    let b = store.insert_channel(channel("https://b.example"));
    store.subscribe_feed(&7, &a.id);
    store.subscribe_feed(&9, &a.id);
    let listing = store.get_channel_urls_and_subscribers();
    assert_eq!(listing.len(), 2);
    assert_eq!(listing[0].0, a.id);
    assert_eq!(listing[0].1, "https://a.example");
    assert_eq!(listing[0].2, vec![7, 9]);
    // a feed nobody follows still appears, with an empty subscriber set
    assert_eq!(listing[1].0, b.id);
    assert_eq!(listing[1].2, Vec::<i32>::new());
}

#[test]
fn get_subscribed_item_returns_pre_flip_state_and_marks_seen() {
    let mut store = Store::new();
    store.insert_items(&vec![new_item(1, "g1", Some(ts(5)))]).unwrap();
    store.insert_subscribed_items(vec![(42, 1, false)]);
    let si = store.get_subscribed_item(1, 42).unwrap();
    assert_eq!(si.id, 1);
    assert_eq!(si.guid, "g1");
    assert_eq!(si.user_id, 42);
    assert_eq!(si.subscribed_item_id, 1);
    assert!(!si.seen); // read state from before the flip
    assert!(store.subscribed_items[0].seen); // the row itself is now seen
    // a second read reports it as seen
    let again = store.get_subscribed_item(1, 42).unwrap();
    assert!(again.seen);
}

#[test]
fn get_subscribed_item_misses_without_visibility_row() {
    let mut store = Store::new();
    store.insert_items(&vec![new_item(1, "g1", None)]).unwrap();
    assert!(store.get_subscribed_item(1, 42).is_none());
    assert!(store.get_subscribed_item(9, 42).is_none());
}

#[test]
fn get_latest_item_date_takes_the_maximum() {
    let mut store = Store::new();
    store
        .insert_items(&vec![
            new_item(1, "g1", Some(ts(50))),
            new_item(1, "g2", Some(ts(200))),
            new_item(1, "g3", Some(ts(120))),
            new_item(2, "g4", Some(ts(999))),
        ])
        .unwrap();
    assert_eq!(store.get_latest_item_date(1), Some(ts(200)));
    assert_eq!(store.get_latest_item_date(3), None);
}

#[test]
fn get_latest_item_date_yields_nothing_when_an_item_is_undated() {
    let mut store = Store::new();
    store
        .insert_items(&vec![new_item(1, "g1", Some(ts(50))), new_item(1, "g2", None)])
        .unwrap();
    assert_eq!(store.get_latest_item_date(1), None);
}

#[test]
fn create_admin_user_seeds_once() {
    let mut store = Store::new();
    create_admin_user(&mut store, "s3cret");
    assert_eq!(store.users.len(), 1);
    assert_eq!(store.users[0].username, "admin");
    assert_eq!(
        store.users[0].password_hash,
        User::hash_pw("s3cret").into_bytes()
    );
    // a second seeding leaves the account alone
    create_admin_user(&mut store, "other");
    assert_eq!(store.users.len(), 1);
    assert_eq!(
        store.users[0].password_hash,
        User::hash_pw("s3cret").into_bytes()
    );
}

#[test]
fn get_subscribed_feed_counts_unseen_items() {
    let mut store = Store::new();
    let f = store.insert_channel(channel("https://a.example"));
    store.subscribe_feed(&42, &f.id);
    store
        .insert_items(&vec![
            new_item(f.id, "g1", Some(ts(5))),
            new_item(f.id, "g2", None),
            new_item(99, "g3", None),
        ])
        .unwrap();
    store.insert_subscribed_items(vec![(42, 1, false), (42, 2, true), (42, 3, false)]);
    let sf = store.get_subscribed_feed(&42, &f.id).unwrap();
    assert_eq!(sf.id, f.id);
    assert_eq!(sf.title, "example");
    assert_eq!(sf.user_id, 42);
    // only the unseen row pointing at this feed's own item counts
    assert_eq!(sf.unseen_count, 1);
    // no subscription, no row
    assert!(store.get_subscribed_feed(&7, &f.id).is_none());
    assert!(store.get_subscribed_feed(&42, &55).is_none());
}

#[test]
fn subscribed_items_page_is_newest_first_with_undated_rows_leading() {
    let mut store = Store::new();
    store
        .insert_items(&vec![
            new_item(1, "g1", Some(ts(100))),
            new_item(1, "g2", Some(ts(300))),
            new_item(1, "g3", None),
            new_item(2, "g4", Some(ts(999))),
        ])
        .unwrap();
    store.insert_subscribed_items(vec![
        (42, 1, false),
        (42, 2, true),
        (42, 3, false),
        (42, 4, false),
        (7, 1, false),
    ]);
    let page = store.get_subscribed_items(1, 42, None).unwrap();
    let guids: Vec<&str> = page.iter().map(|r| r.guid.as_str()).collect();
    assert_eq!(guids, vec!["g3", "g2", "g1"]);
    assert!(page[0].published_at.is_none());
    assert!(page[1].seen); // read state rides along
    assert_eq!(page[2].user_id, 42);
}

#[test]
fn subscribed_items_cutoff_drops_later_and_undated_rows() {
    let mut store = Store::new();
    store
        .insert_items(&vec![
            new_item(1, "g1", Some(ts(100))),
            new_item(1, "g2", Some(ts(300))),
            new_item(1, "g3", None),
        ])
        .unwrap();
    store.insert_subscribed_items(vec![(42, 1, false), (42, 2, false), (42, 3, false)]);
    let page = store.get_subscribed_items(1, 42, Some(ts(300))).unwrap();
    let guids: Vec<&str> = page.iter().map(|r| r.guid.as_str()).collect();
    assert_eq!(guids, vec!["g1"]);
}

#[test]
fn subscribed_items_page_stops_at_fifty() {
    let mut store = Store::new();
    let items: Vec<NewItem> = (0..60)
        .map(|n| new_item(1, &format!("g{}", n), Some(ts(n as i64))))
        .collect();
    store.insert_items(&items).unwrap();
    let rows: Vec<(i32, i32, bool)> = (1..=60).map(|iid| (42, iid, false)).collect();
    store.insert_subscribed_items(rows);
    let page = store.get_subscribed_items(1, 42, None).unwrap();
    assert_eq!(page.len(), 50);
    // newest first, so the page starts at the latest date and stops
    // before the ten oldest
    assert_eq!(page[0].published_at, Some(ts(59)));
    assert_eq!(page[49].published_at, Some(ts(10)));
}

#[test]
fn subscribed_feeds_list_ascends_by_title() {
    let mut store = Store::new();
    let mut zeta = channel("https://z.example");
    zeta.title = "zeta".to_string();
    let mut alpha = channel("https://al.example");
    alpha.title = "alpha".to_string();
    let mut mu = channel("https://m.example");
    mu.title = "mu".to_string();
    let z = store.insert_channel(zeta);
    let a = store.insert_channel(alpha);
    let m = store.insert_channel(mu);
    store.subscribe_feed(&42, &z.id);
    store.subscribe_feed(&42, &a.id);
    store.subscribe_feed(&42, &m.id);
    store.subscribe_feed(&7, &z.id);
    store.insert_items(&vec![new_item(z.id, "g1", None)]).unwrap();
    store.insert_subscribed_items(vec![(42, 1, false)]);
    let feeds = store.get_subscribed_feeds(&42).unwrap();
    let titles: Vec<&str> = feeds.iter().map(|f| f.title.as_str()).collect();
    assert_eq!(titles, vec!["alpha", "mu", "zeta"]);
    assert_eq!(feeds[2].unseen_count, 1);
    assert_eq!(feeds[0].unseen_count, 0);
    assert!(store.get_subscribed_feeds(&99).unwrap().is_empty());
}
