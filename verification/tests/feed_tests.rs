use hermod::datetime::Timestamp;
use hermod::feed::update_feed;
use hermod::feed::subscribe;
use hermod::feed::subscribe_new_items;
use hermod::feed::FetchError;
use hermod::feed::FetchedItem;
use hermod::store::NewFeed;
use hermod::store::Store;

fn ts(secs: i64) -> Timestamp {
    Timestamp { secs, nanos: 0 }
}

fn entry(guid: &str, title: &str, published: Option<Timestamp>) -> FetchedItem {
    FetchedItem {
        guid: guid.to_string(),
        link: format!("https://example.org/{}", guid),
        title: title.to_string(),
        summary: None,
        content: Some(format!("body of {}", title)),
        published_at: published,
    }
}

fn channel(url: &str) -> NewFeed {
    NewFeed {
        title: "example".to_string(),
        description: None,
        site_link: "https://example.org".to_string(),
        feed_link: url.to_string(),
        updated_at: ts(0),
    }
}

fn store_with_feed(url: &str) -> (Store, i32) {
    let mut store = Store::new();
    let feed = store.insert_channel(channel(url));
    (store, feed.id)
}

#[test]
fn first_sync_inserts_and_fans_out() {
    let (mut store, fid) = store_with_feed("https://example.org/feed");
    let fetched = vec![entry("g1", "one", Some(ts(100))), entry("g2", "two", Some(ts(200)))];
    let r = update_feed(&mut store, fid, Ok(fetched), vec![7, 9]);
    let inserted = r.unwrap().unwrap();
    assert_eq!(inserted.len(), 2);
    assert_eq!(store.items.len(), 2);
    assert_eq!(store.items[0].guid, "g1");
    assert_eq!(store.items[1].guid, "g2");
    assert_eq!(store.items[0].feed_id, fid);
    // one unseen visibility row per (subscriber, item) pair
    assert_eq!(store.subscribed_items.len(), 4);
    for row in &store.subscribed_items {
        assert!(!row.seen);
    }
    assert_eq!(store.subscribed_items[0].user_id, 7);
    assert_eq!(store.subscribed_items[0].item_id, inserted[0].id);
    assert_eq!(store.subscribed_items[1].item_id, inserted[1].id);
    assert_eq!(store.subscribed_items[2].user_id, 9);
}

#[test]
fn unchanged_refetch_writes_nothing() {
    let (mut store, fid) = store_with_feed("https://example.org/feed");
    let fetched = vec![entry("g1", "one", Some(ts(100)))];
    update_feed(&mut store, fid, Ok(fetched), vec![7]).unwrap();
    let items_before: Vec<(i32, String)> =
        store.items.iter().map(|i| (i.id, i.title.clone())).collect();
    let rows_before = store.subscribed_items.len();

    // same guid, same published_at: classified unchanged, no write
    let again = vec![entry("g1", "renamed", Some(ts(100)))];
    let r = update_feed(&mut store, fid, Ok(again), vec![7]);
    assert!(matches!(r, Ok(None)));
    let items_after: Vec<(i32, String)> =
        store.items.iter().map(|i| (i.id, i.title.clone())).collect();
    assert_eq!(items_before, items_after);
    assert_eq!(store.subscribed_items.len(), rows_before);
}

#[test]
fn rerun_of_unchanged_feed_adds_no_rows() {
    let (mut store, fid) = store_with_feed("https://example.org/feed");
    let fetched = || vec![entry("g1", "one", Some(ts(100))), entry("g2", "two", None)];
    update_feed(&mut store, fid, Ok(fetched()), vec![7, 9]).unwrap();
    let items = store.items.len();
    let vis = store.subscribed_items.len();
    let r = update_feed(&mut store, fid, Ok(fetched()), vec![7, 9]);
    assert!(matches!(r, Ok(None)));
    assert_eq!(store.items.len(), items);
    assert_eq!(store.subscribed_items.len(), vis);
}

#[test]
fn changed_date_updates_in_place_and_new_item_is_inserted() {
    // stored: g1 at t1; remote now has g1 at t2 and brand-new g2
    let (mut store, fid) = store_with_feed("https://example.org/feed");
    update_feed(&mut store, fid, Ok(vec![entry("g1", "one", Some(ts(100)))]), vec![7]).unwrap();
    let g1_id = store.items[0].id;
    let vis_before = store.subscribed_items.len();

    let remote = vec![entry("g1", "one revised", Some(ts(200))), entry("g2", "two", Some(ts(300)))];
    let r = update_feed(&mut store, fid, Ok(remote), vec![7]);
    let inserted = r.unwrap().unwrap();
    assert_eq!(inserted.len(), 1);
    assert_eq!(inserted[0].guid, "g2");

    // g1 row overwritten in place, identity kept
    assert_eq!(store.items.len(), 2);
    assert_eq!(store.items[0].id, g1_id);
    assert_eq!(store.items[0].guid, "g1");
    assert_eq!(store.items[0].title, "one revised");
    assert_eq!(store.items[0].published_at, Some(ts(200)));

    // visibility rows only for g2
    assert_eq!(store.subscribed_items.len(), vis_before + 1);
    let new_row = store.subscribed_items.last().unwrap();
    assert_eq!(new_row.user_id, 7);
    assert_eq!(new_row.item_id, inserted[0].id);
    assert!(!new_row.seen);
}

#[test]
fn failed_fetch_leaves_store_untouched() {
    let (mut store, fid) = store_with_feed("https://example.org/feed");
    update_feed(&mut store, fid, Ok(vec![entry("g1", "one", Some(ts(100)))]), vec![7]).unwrap();
    let items = store.items.len();
    let vis = store.subscribed_items.len();
    let r = update_feed(&mut store, fid, Err(FetchError::Timeout), vec![7]);
    assert!(matches!(r, Err(FetchError::Timeout)));
    assert_eq!(store.items.len(), items);
    assert_eq!(store.subscribed_items.len(), vis);
}

#[test]
fn feed_with_zero_subscribers_syncs_without_visibility_rows() {
    let (mut store, fid) = store_with_feed("https://example.org/feed");
    let r = update_feed(
        &mut store,
        fid,
        Ok(vec![entry("g1", "one", Some(ts(100)))]),
        vec![],
    );
    let inserted = r.unwrap().unwrap();
    assert_eq!(inserted.len(), 1);
    assert_eq!(store.items.len(), 1);
    assert!(store.subscribed_items.is_empty());
}

#[test]
fn subscribe_backfills_existing_items_unseen() {
    let (mut store, fid) = store_with_feed("https://example.org/feed");
    let fetched = vec![
        entry("g1", "one", Some(ts(100))),
        entry("g2", "two", Some(ts(200))),
        entry("g3", "three", Some(ts(300))),
    ];
    update_feed(&mut store, fid, Ok(fetched), vec![]).unwrap();
    assert!(store.subscribed_items.is_empty());

    let r = subscribe(&mut store, "https://example.org/feed", 42, None);
    assert_eq!(r, Some(fid));
    assert_eq!(store.subscribed_feeds, vec![(42, fid)]);
    // exactly N = 3 backfilled rows, all unseen, all for the new reader
    assert_eq!(store.subscribed_items.len(), 3);
    for (row, item) in store.subscribed_items.iter().zip(store.items.iter()) {
        assert_eq!(row.user_id, 42);
        assert_eq!(row.item_id, item.id);
        assert!(!row.seen);
    }
}

#[test]
fn subscribe_unknown_url_inserts_fresh_feed_without_backfill() {
    let mut store = Store::new();
    let r = subscribe(
        &mut store,
        "https://example.org/new",
        42,
        Some(channel("https://example.org/new")),
    );
    let fid = r.unwrap();
    assert_eq!(store.feeds.len(), 1);
    assert_eq!(store.feeds[0].id, fid);
    assert_eq!(store.feeds[0].feed_link, "https://example.org/new");
    assert_eq!(store.subscribed_feeds, vec![(42, fid)]);
    assert!(store.subscribed_items.is_empty());
}

#[test]
fn subscribe_unknown_url_without_metadata_does_nothing() {
    let mut store = Store::new();
    let r = subscribe(&mut store, "https://example.org/missing", 42, None);
    assert_eq!(r, None);
    assert!(store.feeds.is_empty());
    assert!(store.subscribed_feeds.is_empty());
    assert!(store.subscribed_items.is_empty());
}

#[test]
fn duplicate_subscription_is_kept_single() {
    let (mut store, fid) = store_with_feed("https://example.org/feed");
    subscribe(&mut store, "https://example.org/feed", 42, None);
    subscribe(&mut store, "https://example.org/feed", 42, None);
    assert_eq!(store.subscribed_feeds, vec![(42, fid)]);
}

#[test]
fn fan_out_is_cartesian_and_unseen() {
    let mut store = Store::new();
    store.next_item_id = 10;
    subscribe_new_items(&mut store, &vec![3, 4], &vec![1, 2]);
    let triples: Vec<(i32, i32, bool)> = store
        .subscribed_items
        .iter()
        .map(|r| (r.user_id, r.item_id, r.seen))
        .collect();
    assert_eq!(
        triples,
        vec![(1, 3, false), (1, 4, false), (2, 3, false), (2, 4, false)]
    );
}

#[test]
fn empty_fetch_is_a_clean_no_op() {
    let (mut store, fid) = store_with_feed("https://example.org/feed");
    let r = update_feed(&mut store, fid, Ok(vec![]), vec![7]);
    assert!(matches!(r, Ok(None)));
    assert!(store.items.is_empty());
    assert!(store.subscribed_items.is_empty());
}
