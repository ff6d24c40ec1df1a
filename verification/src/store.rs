use vstd::prelude::*;
use vstd::string::StrSliceExecFns;
use vstd::string::StringSliceAdditionalSpecFns;

verus! {

use crate::datetime::Timestamp;
use crate::models::SubscribedFeed;
use crate::models::SubscribedItem;
use crate::models::User;
use crate::models::clone_opt_string;

/// A stored feed row.
pub struct Feed {
    pub id: i32,
    pub title: String,
    pub description: Option<String>,
    pub site_link: String,
    pub feed_link: String,
    pub updated_at: Timestamp,
}

/// Channel metadata ready to be stored as a new feed row.
pub struct NewFeed {
    pub title: String,
    pub description: Option<String>,
    pub site_link: String,
    pub feed_link: String,
    pub updated_at: Timestamp,
}

/// A stored item row.
pub struct Item {
    pub id: i32,
    pub feed_id: i32,
    pub guid: String,
    pub link: String,
    pub title: String,
    pub summary: Option<String>,
    pub content: Option<String>,
    pub published_at: Option<Timestamp>,
    pub updated_at: Option<Timestamp>,
}

/// A fetched entry with its owning feed attached, ready to be stored.
pub struct NewItem {
    pub feed_id: i32,
    pub guid: String,
    pub link: String,
    pub title: String,
    pub summary: Option<String>,
    pub content: Option<String>,
    pub published_at: Option<Timestamp>,
    pub updated_at: Option<Timestamp>,
}

/// A per-user visibility record for one item.
#[derive(PartialEq, Eq, Structural, Clone, Copy, Debug)]
pub struct SubscribedItemRow {
    pub id: i32,
    pub user_id: i32,
    pub item_id: i32,
    pub seen: bool,
}

/// Why a storage operation was refused.
#[derive(PartialEq, Eq, Structural, Clone, Copy, Debug)]
pub enum StoreError {
    NotFound,
    Duplicate,
}

/// Relies on str's `PartialEq`: true exactly when the two strings hold the
/// same characters.
#[verifier::external_body]
pub(crate) fn str_eq(a: &str, b: &str) -> (r: bool)
    ensures
        r == (a@ == b@),
{
    a == b
}

/// Copy a byte vector element by element.
pub fn copy_bytes(v: &Vec<u8>) -> (r: Vec<u8>)
    ensures
        r@ == v@,
{
    let mut out: Vec<u8> = Vec::new();
    let mut i: usize = 0;
    while i < v.len()
        invariant
            0 <= i <= v@.len(),
            out@ == v@.subrange(0, i as int),
        decreases v@.len() - i,
    {
        out.push(v[i]);
        proof {
            assert(out@ =~= v@.subrange(0, i + 1 as int));
        }
        i = i + 1;
    }
    proof {
        assert(v@.subrange(0, v@.len() as int) =~= v@);
    }
    out
}

/// Copy an item row, field for field.
pub fn clone_item(it: &Item) -> (r: Item)
    ensures
        r == *it,
{
    Item {
        id: it.id,
        feed_id: it.feed_id,
        guid: it.guid.clone(),
        link: it.link.clone(),
        title: it.title.clone(),
        summary: clone_opt_string(&it.summary),
        content: clone_opt_string(&it.content),
        published_at: it.published_at,
        updated_at: it.updated_at,
    }
}

/// Copy a feed row, field for field.
pub fn clone_feed(f: &Feed) -> (r: Feed)
    ensures
        r == *f,
{
    Feed {
        id: f.id,
        title: f.title.clone(),
        description: clone_opt_string(&f.description),
        site_link: f.site_link.clone(),
        feed_link: f.feed_link.clone(),
        updated_at: f.updated_at,
    }
}

/// Whether one of the offered guid strings reads `g`.
pub open spec fn guid_listed(guids: Seq<&str>, g: Seq<char>) -> bool {
    exists|k: int| 0 <= k < guids.len() && #[trigger] guids[k]@ == g
}

/// Whether a stored item carries the guid `g`.
pub open spec fn guid_known(stored: Seq<Item>, g: Seq<char>) -> bool {
    exists|j: int| 0 <= j < stored.len() && #[trigger] stored[j].guid@ == g
}

/// The first stored item carrying the guid `g`, if any.
pub open spec fn first_known(stored: Seq<Item>, g: Seq<char>) -> Option<Item>
    decreases stored.len(),
{
    if stored.len() == 0 {
        None
    } else {
        let r = first_known(stored.drop_last(), g);
        if r is Some {
            r
        } else if stored.last().guid@ == g {
            Some(stored.last())
        } else {
            None
        }
    }
}

/// The `(id, guid, published_at)` rows of the stored items whose guid is
/// among the offered ones, in storage order.
pub open spec fn dupe_rows(stored: Seq<Item>, guids: Seq<&str>) -> Seq<(i32, String, Option<
    Timestamp,
>)>
    decreases stored.len(),
{
    if stored.len() == 0 {
        Seq::empty()
    } else {
        let rest = dupe_rows(stored.drop_last(), guids);
        if guid_listed(guids, stored.last().guid@) {
            rest.push((stored.last().id, stored.last().guid, stored.last().published_at))
        } else {
            rest
        }
    }
}

/// The ids of the stored items of one feed, in storage order.
pub open spec fn item_ids_for_feed(stored: Seq<Item>, fid: i32) -> Seq<i32>
    decreases stored.len(),
{
    if stored.len() == 0 {
        Seq::empty()
    } else {
        let rest = item_ids_for_feed(stored.drop_last(), fid);
        if stored.last().feed_id == fid {
            rest.push(stored.last().id)
        } else {
            rest
        }
    }
}

/// The stored row a new item becomes under a generated id.
pub open spec fn item_of(n: NewItem, id: int) -> Item {
    Item {
        id: id as i32,
        feed_id: n.feed_id,
        guid: n.guid,
        link: n.link,
        title: n.title,
        summary: n.summary,
        content: n.content,
        published_at: n.published_at,
        updated_at: n.updated_at,
    }
}

/// The stored rows a list of new items becomes, under ids counted up from
/// `first_id`.
pub open spec fn inserted_items(new: Seq<NewItem>, first_id: int) -> Seq<Item> {
    Seq::new(new.len(), |k: int| item_of(new[k], first_id + k))
}

/// A stored row overwritten in place by a fetched entry: content, title,
/// link, summary and publication date change; identity does not.
pub open spec fn updated_fields(orig: Item, n: NewItem) -> Item {
    Item { title: n.title, link: n.link, summary: n.summary, published_at: n.published_at, content: n.content, ..orig }
}

/// The stored items after the row with id `iid` is overwritten by `n`.
pub open spec fn apply_one(stored: Seq<Item>, iid: i32, n: NewItem) -> Seq<Item> {
    Seq::new(
        stored.len(),
        |j: int| if stored[j].id == iid {
            updated_fields(stored[j], n)
        } else {
            stored[j]
        },
    )
}

/// The visibility rows a list of `(user, item, seen)` triples becomes,
/// under ids counted up from `first_id`.
pub open spec fn sub_rows_of(rows: Seq<(i32, i32, bool)>, first_id: int) -> Seq<
    SubscribedItemRow,
> {
    Seq::new(
        rows.len(),
        |k: int| SubscribedItemRow {
            id: (first_id + k) as i32,
            user_id: rows[k].0,
            item_id: rows[k].1,
            seen: rows[k].2,
        },
    )
}

/// The visibility rows after every row with id `iid` is marked seen.
pub open spec fn mark_seen(rows: Seq<SubscribedItemRow>, iid: i32) -> Seq<SubscribedItemRow> {
    Seq::new(
        rows.len(),
        |j: int| if rows[j].id == iid {
            SubscribedItemRow { seen: true, ..rows[j] }
        } else {
            rows[j]
        },
    )
}

/// Whether `(uid, fid)` is among the subscription pairs.
pub open spec fn pair_subscribed(subs: Seq<(i32, i32)>, uid: i32, fid: i32) -> bool {
    exists|j: int| 0 <= j < subs.len() && #[trigger] subs[j] == (uid, fid)
}

/// Whether a stored account carries the username `name`.
pub open spec fn username_taken(users: Seq<User>, name: Seq<char>) -> bool {
    exists|j: int| 0 <= j < users.len() && #[trigger] users[j].username@ == name
}

/// The persistence gateway: every table the pipeline reads or writes,
/// with the next generated id of each.
pub struct Store {
    pub feeds: Vec<Feed>,
    pub items: Vec<Item>,
    pub users: Vec<User>,
    pub subscribed_feeds: Vec<(i32, i32)>,
    pub subscribed_items: Vec<SubscribedItemRow>,
    pub next_feed_id: i32,
    pub next_item_id: i32,
    pub next_user_id: i32,
    pub next_subscribed_item_id: i32,
}

impl Store {
    /// Every stored id lies below its generator, and visibility rows point
    /// at ids the item generator has produced.
    pub open spec fn wf(self) -> bool {
        &&& forall|j: int|
            0 <= j < self.items@.len() ==> (#[trigger] self.items@[j]).id < self.next_item_id
        &&& forall|j: int|
            0 <= j < self.feeds@.len() ==> (#[trigger] self.feeds@[j]).id < self.next_feed_id
        &&& forall|j: int|
            0 <= j < self.users@.len() ==> (#[trigger] self.users@[j]).id < self.next_user_id
        &&& forall|j: int|
            0 <= j < self.subscribed_items@.len() ==> (#[trigger] self.subscribed_items@[j]).id
                < self.next_subscribed_item_id
        &&& forall|j: int|
            0 <= j < self.subscribed_items@.len() ==> (#[trigger] self.subscribed_items@[j]).item_id
                < self.next_item_id
    }

    /// The feed table and its id generator agree between two states.
    pub open spec fn same_feeds(self, other: Store) -> bool {
        self.feeds == other.feeds && self.next_feed_id == other.next_feed_id
    }

    /// The item table and its id generator agree between two states.
    pub open spec fn same_items(self, other: Store) -> bool {
        self.items == other.items && self.next_item_id == other.next_item_id
    }

    /// The account table and its id generator agree between two states.
    pub open spec fn same_users(self, other: Store) -> bool {
        self.users == other.users && self.next_user_id == other.next_user_id
    }

    /// The subscription pairs agree between two states.
    pub open spec fn same_subscriptions(self, other: Store) -> bool {
        self.subscribed_feeds == other.subscribed_feeds
    }

    /// The visibility rows and their id generator agree between two states.
    pub open spec fn same_visibility(self, other: Store) -> bool {
        self.subscribed_items == other.subscribed_items && self.next_subscribed_item_id
            == other.next_subscribed_item_id
    }

    /// An empty gateway: no rows, every generator at one.
    pub fn new() -> (s: Store)
        ensures
            s.wf(),
            s.feeds@ == Seq::<Feed>::empty(),
            s.items@ == Seq::<Item>::empty(),
            s.users@ == Seq::<User>::empty(),
            s.subscribed_feeds@ == Seq::<(i32, i32)>::empty(),
            s.subscribed_items@ == Seq::<SubscribedItemRow>::empty(),
            s.next_feed_id == 1,
            s.next_item_id == 1,
            s.next_user_id == 1,
            s.next_subscribed_item_id == 1,
    {
        Store {
            feeds: Vec::new(),
            items: Vec::new(),
            users: Vec::new(),
            subscribed_feeds: Vec::new(),
            subscribed_items: Vec::new(),
            next_feed_id: 1,
            next_item_id: 1,
            next_user_id: 1,
            next_subscribed_item_id: 1,
        }
    }

    /// Look a feed up by its source URL; the earliest stored row wins.
    pub fn find_feed_by_url(&self, url: &str) -> (r: Option<Feed>)
        ensures
            r == feed_with_url(self.feeds@, url@),
    {
        let mut j: usize = 0;
        while j < self.feeds.len()
            invariant
                0 <= j <= self.feeds@.len(),
                forall|k: int| 0 <= k < j ==> (#[trigger] self.feeds@[k]).feed_link@ != url@,
            decreases self.feeds@.len() - j,
        {
            if str_eq(self.feeds[j].feed_link.as_str(), url) {
                proof {
                    lemma_feed_with_url_at(self.feeds@, url@, j as int);
                }
                return Some(clone_feed(&self.feeds[j]));
            }
            j = j + 1;
        }
        proof {
            lemma_feed_with_url_none(self.feeds@, url@);
        }
        None
    }

    /// The id of the feed stored under a source URL, or `NotFound`.
    pub fn get_feed_id(&self, url: &str) -> (r: Result<i32, StoreError>)
        ensures
            match feed_with_url(self.feeds@, url@) {
                Some(f) => r == Ok::<i32, StoreError>(f.id),
                None => r == Err::<i32, StoreError>(StoreError::NotFound),
            },
    {
        let mut j: usize = 0;
        while j < self.feeds.len()
            invariant
                0 <= j <= self.feeds@.len(),
                forall|k: int| 0 <= k < j ==> (#[trigger] self.feeds@[k]).feed_link@ != url@,
            decreases self.feeds@.len() - j,
        {
            if str_eq(self.feeds[j].feed_link.as_str(), url) {
                proof {
                    lemma_feed_with_url_at(self.feeds@, url@, j as int);
                }
                return Ok(self.feeds[j].id);
            }
            j = j + 1;
        }
        proof {
            lemma_feed_with_url_none(self.feeds@, url@);
        }
        Err(StoreError::NotFound)
    }

    /// Everything the scheduler needs for one cycle: each stored feed's id
    /// and URL next to all of its subscribers, an empty set being as good
    /// an answer as any.
    pub fn get_channel_urls_and_subscribers(&self) -> (r: Vec<(i32, String, Vec<i32>)>)
        ensures
            r@.len() == self.feeds@.len(),
            forall|k: int|
                0 <= k < self.feeds@.len() ==> {
                    &&& (#[trigger] r@[k]).0 == self.feeds@[k].id
                    &&& r@[k].1 == self.feeds@[k].feed_link
                    &&& r@[k].2@ == subscribers_of(self.subscribed_feeds@, self.feeds@[k].id)
                },
    {
        let mut out: Vec<(i32, String, Vec<i32>)> = Vec::new();
        let mut k: usize = 0;
        while k < self.feeds.len()
            invariant
                0 <= k <= self.feeds@.len(),
                out@.len() == k,
                forall|t: int|
                    0 <= t < k ==> {
                        &&& (#[trigger] out@[t]).0 == self.feeds@[t].id
                        &&& out@[t].1 == self.feeds@[t].feed_link
                        &&& out@[t].2@ == subscribers_of(self.subscribed_feeds@, self.feeds@[t].id)
                    },
            decreases self.feeds@.len() - k,
        {
            let fid = self.feeds[k].id;
            let mut subs: Vec<i32> = Vec::new();
            let mut p: usize = 0;
            while p < self.subscribed_feeds.len()
                invariant
                    0 <= p <= self.subscribed_feeds@.len(),
                    subs@ == subscribers_of(self.subscribed_feeds@.subrange(0, p as int), fid),
                decreases self.subscribed_feeds@.len() - p,
            {
                proof {
                    assert(self.subscribed_feeds@.subrange(0, p + 1 as int).drop_last()
                        =~= self.subscribed_feeds@.subrange(0, p as int));
                    assert(self.subscribed_feeds@.subrange(0, p + 1 as int).last()
                        == self.subscribed_feeds@[p as int]);
                }
                let pair = self.subscribed_feeds[p];
                if pair.1 == fid {
                    subs.push(pair.0);
                }
                p = p + 1;
            }
            proof {
                assert(self.subscribed_feeds@.subrange(0, self.subscribed_feeds@.len() as int)
                    =~= self.subscribed_feeds@);
            }
            out.push((fid, self.feeds[k].feed_link.clone(), subs));
            k = k + 1;
        }
        out
    }

    /// Store channel metadata as a new feed row under a generated id.
    pub fn insert_channel(&mut self, channel: NewFeed) -> (f: Feed)
        requires
            old(self).wf(),
            old(self).next_feed_id < i32::MAX,
        ensures
            final(self).wf(),
            f.id == old(self).next_feed_id,
            f.title == channel.title,
            f.description == channel.description,
            f.site_link == channel.site_link,
            f.feed_link == channel.feed_link,
            f.updated_at == channel.updated_at,
            final(self).feeds@ == old(self).feeds@.push(f),
            final(self).next_feed_id == old(self).next_feed_id + 1,
            final(self).same_items(*old(self)),
            final(self).same_users(*old(self)),
            final(self).same_subscriptions(*old(self)),
            final(self).same_visibility(*old(self)),
    {
        let f = Feed {
            id: self.next_feed_id,
            title: channel.title,
            description: channel.description,
            site_link: channel.site_link,
            feed_link: channel.feed_link,
            updated_at: channel.updated_at,
        };
        let copy = clone_feed(&f);
        self.feeds.push(f);
        self.next_feed_id = self.next_feed_id + 1;
        copy
    }

    /// The `(id, guid, published_at)` rows of items whose guid is among the
    /// offered ones; nothing stands for an empty answer.
    pub fn find_duplicates(&self, guids: Vec<&str>) -> (r: Option<
        Vec<(i32, String, Option<Timestamp>)>,
    >)
        ensures
            r is Some <==> dupe_rows(self.items@, guids@).len() > 0,
            r is Some ==> r.unwrap()@ == dupe_rows(self.items@, guids@),
    {
        let mut out: Vec<(i32, String, Option<Timestamp>)> = Vec::new();
        let mut i: usize = 0;
        while i < self.items.len()
            invariant
                0 <= i <= self.items@.len(),
                out@ == dupe_rows(self.items@.subrange(0, i as int), guids@),
            decreases self.items@.len() - i,
        {
            let it = &self.items[i];
            let listed = guid_in_list(&guids, it.guid.as_str());
            proof {
                assert(self.items@.subrange(0, i + 1 as int).drop_last() =~= self.items@.subrange(
                    0,
                    i as int,
                ));
                assert(self.items@.subrange(0, i + 1 as int).last() == self.items@[i as int]);
            }
            if listed {
                out.push((it.id, it.guid.clone(), it.published_at));
            }
            i = i + 1;
        }
        proof {
            assert(self.items@.subrange(0, self.items@.len() as int) =~= self.items@);
        }
        if out.len() == 0 {
            None
        } else {
            Some(out)
        }
    }

    /// Store new items under generated ids, returning the stored rows.
    pub fn insert_items(&mut self, new_items: &Vec<NewItem>) -> (r: Option<Vec<Item>>)
        requires
            old(self).wf(),
            i32::MAX - old(self).next_item_id >= new_items@.len(),
        ensures
            final(self).wf(),
            r is Some,
            r.unwrap()@ == inserted_items(new_items@, old(self).next_item_id as int),
            final(self).items@ == old(self).items@ + inserted_items(
                new_items@,
                old(self).next_item_id as int,
            ),
            final(self).next_item_id == old(self).next_item_id + new_items@.len(),
            final(self).same_feeds(*old(self)),
            final(self).same_users(*old(self)),
            final(self).same_subscriptions(*old(self)),
            final(self).same_visibility(*old(self)),
    {
        let ghost id0 = old(self).next_item_id as int;
        let mut out: Vec<Item> = Vec::new();
        let mut k: usize = 0;
        while k < new_items.len()
            invariant
                0 <= k <= new_items@.len(),
                i32::MAX - id0 >= new_items@.len(),
                self.next_item_id == id0 + k,
                out@ == inserted_items(new_items@.subrange(0, k as int), id0),
                self.items@ == old(self).items@ + out@,
                self.feeds == old(self).feeds,
                self.next_feed_id == old(self).next_feed_id,
                self.users == old(self).users,
                self.next_user_id == old(self).next_user_id,
                self.subscribed_feeds == old(self).subscribed_feeds,
                self.subscribed_items == old(self).subscribed_items,
                self.next_subscribed_item_id == old(self).next_subscribed_item_id,
            decreases new_items@.len() - k,
        {
            let n = &new_items[k];
            let row = Item {
                id: self.next_item_id,
                feed_id: n.feed_id,
                guid: n.guid.clone(),
                link: n.link.clone(),
                title: n.title.clone(),
                summary: clone_opt_string(&n.summary),
                content: clone_opt_string(&n.content),
                published_at: n.published_at,
                updated_at: n.updated_at,
            };
            let copy = clone_item(&row);
            proof {
                assert(row == item_of(new_items@[k as int], id0 + k));
            }
            self.items.push(row);
            out.push(copy);
            self.next_item_id = self.next_item_id + 1;
            proof {
                assert(out@ =~= inserted_items(new_items@.subrange(0, k + 1 as int), id0));
                assert(self.items@ =~= old(self).items@ + out@);
            }
            k = k + 1;
        }
        proof {
            assert(new_items@.subrange(0, new_items@.len() as int) =~= new_items@);
        }
        Some(out)
    }

    /// Overwrite the stored row with id `iid` in place with a fetched
    /// entry's fields.
    pub fn update_item(&mut self, iid: i32, item: NewItem)
        requires
            old(self).wf(),
        ensures
            final(self).wf(),
            final(self).items@ == apply_one(old(self).items@, iid, item),
            final(self).next_item_id == old(self).next_item_id,
            final(self).same_feeds(*old(self)),
            final(self).same_users(*old(self)),
            final(self).same_subscriptions(*old(self)),
            final(self).same_visibility(*old(self)),
    {
        let mut j: usize = 0;
        while j < self.items.len()
            invariant
                0 <= j <= self.items@.len(),
                self.items@.len() == old(self).items@.len(),
                forall|t: int|
                    0 <= t < old(self).items@.len() ==> self.items@[t] == (if t < j && old(self).items@[t].id == iid {
                        updated_fields(old(self).items@[t], item)
                    } else {
                        old(self).items@[t]
                    }),
                self.next_item_id == old(self).next_item_id,
                self.feeds == old(self).feeds,
                self.next_feed_id == old(self).next_feed_id,
                self.users == old(self).users,
                self.next_user_id == old(self).next_user_id,
                self.subscribed_feeds == old(self).subscribed_feeds,
                self.subscribed_items == old(self).subscribed_items,
                self.next_subscribed_item_id == old(self).next_subscribed_item_id,
            decreases self.items@.len() - j,
        {
            if self.items[j].id == iid {
                let row = Item {
                    id: self.items[j].id,
                    feed_id: self.items[j].feed_id,
                    guid: self.items[j].guid.clone(),
                    link: item.link.clone(),
                    title: item.title.clone(),
                    summary: clone_opt_string(&item.summary),
                    content: clone_opt_string(&item.content),
                    published_at: item.published_at,
                    updated_at: self.items[j].updated_at,
                };
                proof {
                    assert(row == updated_fields(old(self).items@[j as int], item));
                }
                self.items[j] = row;
            }
            j = j + 1;
        }
        proof {
            assert(self.items@ =~= apply_one(old(self).items@, iid, item));
        }
    }

    /// The ids of all stored items of one feed.
    pub fn get_item_ids(&self, fid: &i32) -> (r: Option<Vec<i32>>)
        ensures
            r is Some,
            r.unwrap()@ == item_ids_for_feed(self.items@, *fid),
    {
        let mut out: Vec<i32> = Vec::new();
        let mut i: usize = 0;
        while i < self.items.len()
            invariant
                0 <= i <= self.items@.len(),
                out@ == item_ids_for_feed(self.items@.subrange(0, i as int), *fid),
            decreases self.items@.len() - i,
        {
            proof {
                assert(self.items@.subrange(0, i + 1 as int).drop_last() =~= self.items@.subrange(
                    0,
                    i as int,
                ));
                assert(self.items@.subrange(0, i + 1 as int).last() == self.items@[i as int]);
            }
            if self.items[i].feed_id == *fid {
                out.push(self.items[i].id);
            }
            i = i + 1;
        }
        proof {
            assert(self.items@.subrange(0, self.items@.len() as int) =~= self.items@);
        }
        Some(out)
    }

    /// The first stored account under a username.
    pub fn get_user(&self, uname: &str) -> (r: Option<User>)
        ensures
            match r {
                Some(u) => exists|j: int|
                    0 <= j < self.users@.len() && (#[trigger] self.users@[j]).username@ == uname@
                        && u.id == self.users@[j].id && u.username == self.users@[j].username
                        && u.password_hash@ == self.users@[j].password_hash@ && (forall|k: int|
                        0 <= k < j ==> (#[trigger] self.users@[k]).username@ != uname@),
                None => forall|j: int|
                    0 <= j < self.users@.len() ==> (#[trigger] self.users@[j]).username@ != uname@,
            },
    {
        let mut j: usize = 0;
        while j < self.users.len()
            invariant
                0 <= j <= self.users@.len(),
                forall|k: int| 0 <= k < j ==> (#[trigger] self.users@[k]).username@ != uname@,
            decreases self.users@.len() - j,
        {
            if str_eq(self.users[j].username.as_str(), uname) {
                let u = &self.users[j];
                return Some(
                    User {
                        id: u.id,
                        username: u.username.clone(),
                        password_hash: copy_bytes(&u.password_hash),
                    },
                );
            }
            j = j + 1;
        }
        None
    }

    /// Store a new account, refusing a taken username; returns the number
    /// of rows written.
    pub fn create_user(&mut self, uname: &str, pw_hash: &str) -> (r: Result<usize, StoreError>)
        requires
            old(self).wf(),
            old(self).next_user_id < i32::MAX,
        ensures
            final(self).wf(),
            username_taken(old(self).users@, uname@) ==> r == Err::<usize, StoreError>(
                StoreError::Duplicate,
            ) && *final(self) == *old(self),
            !username_taken(old(self).users@, uname@) ==> {
                &&& r == Ok::<usize, StoreError>(1usize)
                &&& final(self).users@.len() == old(self).users@.len() + 1
                &&& final(self).users@.subrange(0, old(self).users@.len() as int) == old(self).users@
                &&& final(self).users@.last().id == old(self).next_user_id
                &&& final(self).users@.last().username@ == uname@
                &&& final(self).users@.last().password_hash@ == pw_hash.spec_bytes()
                &&& final(self).next_user_id == old(self).next_user_id + 1
            },
            final(self).same_feeds(*old(self)),
            final(self).same_items(*old(self)),
            final(self).same_subscriptions(*old(self)),
            final(self).same_visibility(*old(self)),
    {
        let mut j: usize = 0;
        while j < self.users.len()
            invariant
                0 <= j <= self.users@.len(),
                old(self).wf(),
                self.feeds == old(self).feeds,
                self.items == old(self).items,
                self.users == old(self).users,
                self.subscribed_feeds == old(self).subscribed_feeds,
                self.subscribed_items == old(self).subscribed_items,
                self.next_feed_id == old(self).next_feed_id,
                self.next_item_id == old(self).next_item_id,
                self.next_user_id == old(self).next_user_id,
                self.next_subscribed_item_id == old(self).next_subscribed_item_id,
                forall|k: int| 0 <= k < j ==> (#[trigger] self.users@[k]).username@ != uname@,
            decreases self.users@.len() - j,
        {
            if str_eq(self.users[j].username.as_str(), uname) {
                proof {
                    assert(*self == *old(self));
                }
                return Err(StoreError::Duplicate);
            }
            j = j + 1;
        }
        let user = User {
            id: self.next_user_id,
            username: uname.to_owned(),
            password_hash: password_bytes(pw_hash),
        };
        self.users.push(user);
        self.next_user_id = self.next_user_id + 1;
        proof {
            assert(final(self).users@.subrange(0, old(self).users@.len() as int) =~= old(self).users@);
        }
        Ok(1)
    }

    /// Record that a user follows a feed; a pair already present is left
    /// alone.
    pub fn subscribe_feed(&mut self, uid: &i32, fid: &i32)
        requires
            old(self).wf(),
        ensures
            final(self).wf(),
            pair_subscribed(old(self).subscribed_feeds@, *uid, *fid) ==> *final(self) == *old(self),
            !pair_subscribed(old(self).subscribed_feeds@, *uid, *fid) ==> final(self).subscribed_feeds@ == old(self).subscribed_feeds@.push((*uid, *fid)),
            final(self).same_feeds(*old(self)),
            final(self).same_items(*old(self)),
            final(self).same_users(*old(self)),
            final(self).same_visibility(*old(self)),
    {
        let mut j: usize = 0;
        while j < self.subscribed_feeds.len()
            invariant
                0 <= j <= self.subscribed_feeds@.len(),
                old(self).wf(),
                self.feeds == old(self).feeds,
                self.items == old(self).items,
                self.users == old(self).users,
                self.subscribed_feeds == old(self).subscribed_feeds,
                self.subscribed_items == old(self).subscribed_items,
                self.next_feed_id == old(self).next_feed_id,
                self.next_item_id == old(self).next_item_id,
                self.next_user_id == old(self).next_user_id,
                self.next_subscribed_item_id == old(self).next_subscribed_item_id,
                forall|k: int|
                    0 <= k < j ==> #[trigger] self.subscribed_feeds@[k] != (*uid, *fid),
            decreases self.subscribed_feeds@.len() - j,
        {
            let p = self.subscribed_feeds[j];
            if p.0 == *uid && p.1 == *fid {
                return ;
            }
            j = j + 1;
        }
        self.subscribed_feeds.push((*uid, *fid));
    }

    /// Bulk-create visibility rows from `(user, item, seen)` triples, under
    /// generated ids.
    pub fn insert_subscribed_items(&mut self, rows: Vec<(i32, i32, bool)>)
        requires
            old(self).wf(),
            i32::MAX - old(self).next_subscribed_item_id >= rows@.len(),
            forall|k: int| 0 <= k < rows@.len() ==> (#[trigger] rows@[k]).1 < old(self).next_item_id,
        ensures
            final(self).wf(),
            final(self).subscribed_items@ == old(self).subscribed_items@ + sub_rows_of(
                rows@,
                old(self).next_subscribed_item_id as int,
            ),
            final(self).next_subscribed_item_id == old(self).next_subscribed_item_id
                + rows@.len(),
            final(self).same_feeds(*old(self)),
            final(self).same_items(*old(self)),
            final(self).same_users(*old(self)),
            final(self).same_subscriptions(*old(self)),
    {
        let ghost id0 = old(self).next_subscribed_item_id as int;
        let mut k: usize = 0;
        while k < rows.len()
            invariant
                0 <= k <= rows@.len(),
                i32::MAX - id0 >= rows@.len(),
                forall|t: int| 0 <= t < rows@.len() ==> (#[trigger] rows@[t]).1 < old(self).next_item_id,
                self.next_subscribed_item_id == id0 + k,
                self.subscribed_items@ == old(self).subscribed_items@ + sub_rows_of(
                    rows@.subrange(0, k as int),
                    id0,
                ),
                self.feeds == old(self).feeds,
                self.next_feed_id == old(self).next_feed_id,
                self.items == old(self).items,
                self.next_item_id == old(self).next_item_id,
                self.users == old(self).users,
                self.next_user_id == old(self).next_user_id,
                self.subscribed_feeds == old(self).subscribed_feeds,
            decreases rows@.len() - k,
        {
            let (u, it, seen) = rows[k];
            let row = SubscribedItemRow {
                id: self.next_subscribed_item_id,
                user_id: u,
                item_id: it,
                seen,
            };
            self.subscribed_items.push(row);
            self.next_subscribed_item_id = self.next_subscribed_item_id + 1;
            proof {
                assert(self.subscribed_items@ =~= old(self).subscribed_items@ + sub_rows_of(
                    rows@.subrange(0, k + 1 as int),
                    id0,
                ));
            }
            k = k + 1;
        }
        proof {
            assert(rows@.subrange(0, rows@.len() as int) =~= rows@);
        }
    }

    /// Mark the visibility row with id `iid` as seen.
    pub fn mark_subscribed_item_as_read(&mut self, iid: i32)
        requires
            old(self).wf(),
        ensures
            final(self).wf(),
            final(self).subscribed_items@ == mark_seen(old(self).subscribed_items@, iid),
            final(self).next_subscribed_item_id == old(self).next_subscribed_item_id,
            final(self).same_feeds(*old(self)),
            final(self).same_items(*old(self)),
            final(self).same_users(*old(self)),
            final(self).same_subscriptions(*old(self)),
    {
        let mut j: usize = 0;
        while j < self.subscribed_items.len()
            invariant
                0 <= j <= self.subscribed_items@.len(),
                self.subscribed_items@.len() == old(self).subscribed_items@.len(),
                forall|t: int|
                    0 <= t < old(self).subscribed_items@.len() ==> self.subscribed_items@[t] == (
                    if t < j && old(self).subscribed_items@[t].id == iid {
                        SubscribedItemRow { seen: true, ..old(self).subscribed_items@[t] }
                    } else {
                        old(self).subscribed_items@[t]
                    }),
                self.next_subscribed_item_id == old(self).next_subscribed_item_id,
                self.feeds == old(self).feeds,
                self.next_feed_id == old(self).next_feed_id,
                self.items == old(self).items,
                self.next_item_id == old(self).next_item_id,
                self.users == old(self).users,
                self.next_user_id == old(self).next_user_id,
                self.subscribed_feeds == old(self).subscribed_feeds,
            decreases self.subscribed_items@.len() - j,
        {
            if self.subscribed_items[j].id == iid {
                let mut row = self.subscribed_items[j];
                row.seen = true;
                self.subscribed_items[j] = row;
            }
            j = j + 1;
        }
        proof {
            assert(self.subscribed_items@ =~= mark_seen(old(self).subscribed_items@, iid));
        }
    }
}

/// Whether one of the guid strings in the list reads the same as `g`.
fn guid_in_list(guids: &Vec<&str>, g: &str) -> (r: bool)
    ensures
        r == guid_listed(guids@, g@),
{
    let mut k: usize = 0;
    while k < guids.len()
        invariant
            0 <= k <= guids@.len(),
            forall|t: int| 0 <= t < k ==> (#[trigger] guids@[t])@ != g@,
        decreases guids@.len() - k,
    {
        if str_eq(guids[k], g) {
            return true;
        }
        k = k + 1;
    }
    false
}

/// The bytes of a password hash string, for storage.
fn password_bytes(s: &str) -> (r: Vec<u8>)
    ensures
        r@ == s.spec_bytes(),
{
    s.as_bytes_vec()
}

/// Publication order: by seconds, then by the subsecond part.
pub open spec fn ts_le(a: Timestamp, b: Timestamp) -> bool {
    a.secs < b.secs || (a.secs == b.secs && a.nanos <= b.nanos)
}

impl Store {
    /// The position of the first stored item with id `iid`.
    fn index_of_item(&self, iid: i32) -> (r: Option<usize>)
        ensures
            match r {
                Some(j) => 0 <= j < self.items@.len() && self.items@[j as int].id == iid
                    && (forall|t: int| 0 <= t < j ==> (#[trigger] self.items@[t]).id != iid),
                None => forall|t: int|
                    0 <= t < self.items@.len() ==> (#[trigger] self.items@[t]).id != iid,
            },
    {
        let mut j: usize = 0;
        while j < self.items.len()
            invariant
                0 <= j <= self.items@.len(),
                forall|t: int| 0 <= t < j ==> (#[trigger] self.items@[t]).id != iid,
            decreases self.items@.len() - j,
        {
            if self.items[j].id == iid {
                return Some(j);
            }
            j = j + 1;
        }
        None
    }

    /// The position of the first visibility row pairing `uid` with `iid`.
    fn index_of_visibility(&self, iid: i32, uid: i32) -> (r: Option<usize>)
        ensures
            match r {
                Some(k) => 0 <= k < self.subscribed_items@.len()
                    && self.subscribed_items@[k as int].item_id == iid
                    && self.subscribed_items@[k as int].user_id == uid && (forall|t: int|
                    0 <= t < k ==> !((#[trigger] self.subscribed_items@[t]).item_id == iid
                        && self.subscribed_items@[t].user_id == uid)),
                None => forall|t: int|
                    0 <= t < self.subscribed_items@.len() ==> !((
                    #[trigger] self.subscribed_items@[t]).item_id == iid
                        && self.subscribed_items@[t].user_id == uid),
            },
    {
        let mut k: usize = 0;
        while k < self.subscribed_items.len()
            invariant
                0 <= k <= self.subscribed_items@.len(),
                forall|t: int|
                    0 <= t < k ==> !((#[trigger] self.subscribed_items@[t]).item_id == iid
                        && self.subscribed_items@[t].user_id == uid),
            decreases self.subscribed_items@.len() - k,
        {
            let row = self.subscribed_items[k];
            if row.item_id == iid && row.user_id == uid {
                return Some(k);
            }
            k = k + 1;
        }
        None
    }

    /// Read one item as a given reader sees it and mark it seen: the first
    /// stored item with id `iid` joined with the reader's first visibility
    /// row for it. Reading flips that row to seen; the returned read state
    /// is the one from before the flip.
    pub fn get_subscribed_item(&mut self, iid: i32, uid: i32) -> (r: Option<SubscribedItem>)
        requires
            old(self).wf(),
        ensures
            final(self).wf(),
            final(self).same_feeds(*old(self)),
            final(self).same_items(*old(self)),
            final(self).same_users(*old(self)),
            final(self).same_subscriptions(*old(self)),
            final(self).next_subscribed_item_id == old(self).next_subscribed_item_id,
            match r {
                Some(si) => exists|j: int, k: int|
                    {
                        &&& 0 <= j < old(self).items@.len()
                        &&& (#[trigger] old(self).items@[j]).id == iid
                        &&& (forall|t: int| 0 <= t < j ==> old(self).items@[t].id != iid)
                        &&& 0 <= k < old(self).subscribed_items@.len()
                        &&& (#[trigger] old(self).subscribed_items@[k]).item_id == iid
                        &&& old(self).subscribed_items@[k].user_id == uid
                        &&& (forall|t: int|
                            0 <= t < k ==> !(old(self).subscribed_items@[t].item_id == iid
                                && old(self).subscribed_items@[t].user_id == uid))
                        &&& si.id == old(self).items@[j].id
                        &&& si.guid == old(self).items@[j].guid
                        &&& si.link == old(self).items@[j].link
                        &&& si.title == old(self).items@[j].title
                        &&& si.summary == old(self).items@[j].summary
                        &&& si.content == old(self).items@[j].content
                        &&& si.published_at == old(self).items@[j].published_at
                        &&& si.updated_at == old(self).items@[j].updated_at
                        &&& si.feed_id == old(self).items@[j].feed_id
                        &&& si.subscribed_item_id == old(self).subscribed_items@[k].id
                        &&& si.user_id == uid
                        &&& si.seen == old(self).subscribed_items@[k].seen
                        &&& final(self).subscribed_items@ == mark_seen(
                            old(self).subscribed_items@,
                            old(self).subscribed_items@[k].id,
                        )
                    },
                None => final(self).same_visibility(*old(self)) && ((forall|t: int|
                    0 <= t < old(self).items@.len() ==> (#[trigger] old(self).items@[t]).id != iid)
                    || (forall|t: int|
                    0 <= t < old(self).subscribed_items@.len() ==> !((
                    #[trigger] old(self).subscribed_items@[t]).item_id == iid && old(
                    self,
                    ).subscribed_items@[t].user_id == uid))),
            },
    {
        let item_at = match self.index_of_item(iid) {
            Some(j) => j,
            None => {
                return None;
            },
        };
        let vis_at = match self.index_of_visibility(iid, uid) {
            Some(k) => k,
            None => {
                return None;
            },
        };
        let row = self.subscribed_items[vis_at];
        let it = &self.items[item_at];
        let si = SubscribedItem {
            id: it.id,
            guid: it.guid.clone(),
            link: it.link.clone(),
            title: it.title.clone(),
            summary: clone_opt_string(&it.summary),
            content: clone_opt_string(&it.content),
            published_at: it.published_at,
            updated_at: it.updated_at,
            feed_id: it.feed_id,
            subscribed_item_id: row.id,
            user_id: uid,
            seen: row.seen,
        };
        self.mark_subscribed_item_as_read(row.id);
        Some(si)
    }

    /// The latest publication date among one feed's stored items: nothing
    /// for a feed with no items, and nothing when an undated item sorts
    /// first.
    pub fn get_latest_item_date(&self, fid: i32) -> (r: Option<Timestamp>)
        ensures
            match r {
                Some(t) => {
                    &&& exists|j: int|
                        0 <= j < self.items@.len() && (#[trigger] self.items@[j]).feed_id == fid
                            && self.items@[j].published_at == Some(t)
                    &&& forall|j: int|
                        0 <= j < self.items@.len() && (#[trigger] self.items@[j]).feed_id == fid
                            ==> self.items@[j].published_at is Some && ts_le(
                            self.items@[j].published_at.unwrap(),
                            t,
                        )
                },
                None => (forall|j: int|
                    0 <= j < self.items@.len() ==> (#[trigger] self.items@[j]).feed_id != fid) || (
                exists|j: int|
                    0 <= j < self.items@.len() && (#[trigger] self.items@[j]).feed_id == fid
                        && self.items@[j].published_at is None),
            },
    {
        let mut best: Option<Timestamp> = None;
        let mut saw_undated = false;
        let mut i: usize = 0;
        while i < self.items.len()
            invariant
                0 <= i <= self.items@.len(),
                saw_undated <==> exists|j: int|
                    0 <= j < i && (#[trigger] self.items@[j]).feed_id == fid
                        && self.items@[j].published_at is None,
                !saw_undated ==> ((best is Some) <==> exists|j: int|
                    0 <= j < i && (#[trigger] self.items@[j]).feed_id == fid),
                (!saw_undated && best is Some) ==> exists|j: int|
                    0 <= j < i && (#[trigger] self.items@[j]).feed_id == fid
                        && self.items@[j].published_at == Some(best.unwrap()),
                (!saw_undated && best is Some) ==> forall|j: int|
                    0 <= j < i && (#[trigger] self.items@[j]).feed_id == fid
                        ==> self.items@[j].published_at is Some && ts_le(
                        self.items@[j].published_at.unwrap(),
                        best.unwrap(),
                    ),
            decreases self.items@.len() - i,
        {
            if self.items[i].feed_id == fid {
                match self.items[i].published_at {
                    None => {
                        saw_undated = true;
                    },
                    Some(d) => {
                        match best {
                            None => {
                                best = Some(d);
                            },
                            Some(b) => {
                                if !(d.secs < b.secs || (d.secs == b.secs && d.nanos <= b.nanos)) {
                                    best = Some(d);
                                }
                            },
                        }
                    },
                }
            }
            i = i + 1;
        }
        if saw_undated {
            None
        } else {
            best
        }
    }

    /// Whether a subscription pair is on record.
    fn pair_exists(&self, uid: i32, fid: i32) -> (r: bool)
        ensures
            r == pair_subscribed(self.subscribed_feeds@, uid, fid),
    {
        let mut p: usize = 0;
        while p < self.subscribed_feeds.len()
            invariant
                0 <= p <= self.subscribed_feeds@.len(),
                forall|t: int| 0 <= t < p ==> #[trigger] self.subscribed_feeds@[t] != (uid, fid),
            decreases self.subscribed_feeds@.len() - p,
        {
            let pair = self.subscribed_feeds[p];
            if pair.0 == uid && pair.1 == fid {
                return true;
            }
            p = p + 1;
        }
        false
    }

    /// The position of the first stored feed with id `fid`.
    fn index_of_feed(&self, fid: i32) -> (r: Option<usize>)
        ensures
            match r {
                Some(j) => 0 <= j < self.feeds@.len() && self.feeds@[j as int].id == fid && (
                forall|t: int| 0 <= t < j ==> (#[trigger] self.feeds@[t]).id != fid),
                None => forall|t: int|
                    0 <= t < self.feeds@.len() ==> (#[trigger] self.feeds@[t]).id != fid,
            },
    {
        let mut j: usize = 0;
        while j < self.feeds.len()
            invariant
                0 <= j <= self.feeds@.len(),
                forall|t: int| 0 <= t < j ==> (#[trigger] self.feeds@[t]).id != fid,
            decreases self.feeds@.len() - j,
        {
            if self.feeds[j].id == fid {
                return Some(j);
            }
            j = j + 1;
        }
        None
    }

    /// Whether the item with id `iid` is stored and belongs to feed `fid`.
    fn feed_owns_item(&self, iid: i32, fid: i32) -> (r: bool)
        ensures
            r == item_owned_by(self.items@, iid, fid),
    {
        let mut j: usize = 0;
        while j < self.items.len()
            invariant
                0 <= j <= self.items@.len(),
                forall|t: int|
                    0 <= t < j ==> !((#[trigger] self.items@[t]).id == iid && self.items@[t].feed_id
                        == fid),
            decreases self.items@.len() - j,
        {
            if self.items[j].id == iid && self.items[j].feed_id == fid {
                return true;
            }
            j = j + 1;
        }
        false
    }

    /// One row of the per-user feed view: the feed's metadata next to how
    /// many of its items the reader has not yet seen; nothing unless the
    /// reader follows that feed.
    pub fn get_subscribed_feed(&self, uid: &i32, fid: &i32) -> (r: Option<SubscribedFeed>)
        requires
            self.subscribed_items@.len() <= i32::MAX,
        ensures
            match r {
                Some(sf) => {
                    &&& pair_subscribed(self.subscribed_feeds@, *uid, *fid)
                    &&& feed_with_id(self.feeds@, *fid) is Some
                    &&& sf.id == feed_with_id(self.feeds@, *fid).unwrap().id
                    &&& sf.title == feed_with_id(self.feeds@, *fid).unwrap().title
                    &&& sf.description == feed_with_id(self.feeds@, *fid).unwrap().description
                    &&& sf.site_link == feed_with_id(self.feeds@, *fid).unwrap().site_link
                    &&& sf.feed_link == feed_with_id(self.feeds@, *fid).unwrap().feed_link
                    &&& sf.updated_at == feed_with_id(self.feeds@, *fid).unwrap().updated_at
                    &&& sf.user_id == *uid
                    &&& sf.unseen_count == unseen_count(
                        self.subscribed_items@,
                        self.items@,
                        *uid,
                        *fid,
                    )
                },
                None => !pair_subscribed(self.subscribed_feeds@, *uid, *fid) || feed_with_id(
                    self.feeds@,
                    *fid,
                ) is None,
            },
    {
        if !self.pair_exists(*uid, *fid) {
            return None;
        }
        let j = match self.index_of_feed(*fid) {
            Some(j) => j,
            None => {
                proof {
                    lemma_feed_with_id_none(self.feeds@, *fid);
                }
                return None;
            },
        };
        proof {
            lemma_feed_with_id_at(self.feeds@, *fid, j as int);
        }
        let mut ctr: usize = 0;
        let mut k: usize = 0;
        while k < self.subscribed_items.len()
            invariant
                0 <= k <= self.subscribed_items@.len(),
                ctr <= k,
                ctr as int == unseen_count(
                    self.subscribed_items@.subrange(0, k as int),
                    self.items@,
                    *uid,
                    *fid,
                ),
            decreases self.subscribed_items@.len() - k,
        {
            proof {
                assert(self.subscribed_items@.subrange(0, k + 1 as int).drop_last()
                    =~= self.subscribed_items@.subrange(0, k as int));
                assert(self.subscribed_items@.subrange(0, k + 1 as int).last()
                    == self.subscribed_items@[k as int]);
            }
            let row = self.subscribed_items[k];
            if row.user_id == *uid && !row.seen && self.feed_owns_item(row.item_id, *fid) {
                ctr = ctr + 1;
            }
            k = k + 1;
        }
        proof {
            assert(self.subscribed_items@.subrange(0, self.subscribed_items@.len() as int)
                =~= self.subscribed_items@);
        }
        let f = &self.feeds[j];
        Some(
            SubscribedFeed {
                id: f.id,
                title: f.title.clone(),
                description: clone_opt_string(&f.description),
                site_link: f.site_link.clone(),
                feed_link: f.feed_link.clone(),
                updated_at: f.updated_at,
                user_id: *uid,
                unseen_count: ctr as i32,
            },
        )
    }
}

/// The first stored item with id `iid`, if any.
pub open spec fn first_item_with_id(stored: Seq<Item>, iid: i32) -> Option<Item>
    decreases stored.len(),
{
    if stored.len() == 0 {
        None
    } else {
        let r = first_item_with_id(stored.drop_last(), iid);
        if r is Some {
            r
        } else if stored.last().id == iid {
            Some(stored.last())
        } else {
            None
        }
    }
}

/// No item is found under an id that none carries.
pub proof fn lemma_first_item_none(stored: Seq<Item>, iid: i32)
    requires
        forall|t: int| 0 <= t < stored.len() ==> (#[trigger] stored[t]).id != iid,
    ensures
        first_item_with_id(stored, iid) is None,
    decreases stored.len(),
{
    if stored.len() == 0 {
    } else {
        assert(forall|t: int|
            0 <= t < stored.drop_last().len() ==> (#[trigger] stored.drop_last()[t]).id != iid);
        lemma_first_item_none(stored.drop_last(), iid);
    }
}

/// The item found under an id is the one at the first matching position.
pub proof fn lemma_first_item_at(stored: Seq<Item>, iid: i32, j: int)
    requires
        0 <= j < stored.len(),
        stored[j].id == iid,
        forall|t: int| 0 <= t < j ==> (#[trigger] stored[t]).id != iid,
    ensures
        first_item_with_id(stored, iid) == Some(stored[j]),
    decreases stored.len(),
{
    if j == stored.len() - 1 {
        assert(forall|t: int|
            0 <= t < stored.drop_last().len() ==> (#[trigger] stored.drop_last()[t]).id != iid);
        lemma_first_item_none(stored.drop_last(), iid);
    } else {
        assert(stored.drop_last()[j] == stored[j]);
        assert(forall|t: int| 0 <= t < j ==> (#[trigger] stored.drop_last()[t]).id != iid) by {
            assert(forall|t: int| 0 <= t < j ==> stored.drop_last()[t] == stored[t]);
        }
        lemma_first_item_at(stored.drop_last(), iid, j);
    }
}

/// `a` may stand at or before `b` in the view's descending order: an
/// undated row sorts first, and later dates come before earlier ones.
pub open spec fn view_before(a: Option<Timestamp>, b: Option<Timestamp>) -> bool {
    match a {
        None => true,
        Some(x) => match b {
            None => false,
            Some(y) => ts_le(y, x),
        },
    }
}

/// Whether a publication date clears the reader's paging cutoff: no
/// cutoff admits everything, a cutoff admits only strictly earlier dated
/// rows.
pub open spec fn date_passes(p: Option<Timestamp>, updated: Option<Timestamp>) -> bool {
    match updated {
        None => true,
        Some(d) => match p {
            None => false,
            Some(x) => x.secs < d.secs || (x.secs == d.secs && x.nanos < d.nanos),
        },
    }
}

/// The view row an item makes together with one reader's visibility row.
pub open spec fn view_row_of(it: Item, row: SubscribedItemRow) -> SubscribedItem {
    SubscribedItem {
        id: it.id,
        guid: it.guid,
        link: it.link,
        title: it.title,
        summary: it.summary,
        content: it.content,
        published_at: it.published_at,
        updated_at: it.updated_at,
        feed_id: it.feed_id,
        subscribed_item_id: row.id,
        user_id: row.user_id,
        seen: row.seen,
    }
}

/// The unordered rows of one reader's item view for one feed, under a
/// paging cutoff: each of the reader's visibility rows joined with the
/// first stored item it points at, kept when that item belongs to the
/// feed and clears the cutoff.
pub open spec fn view_candidates(
    rows: Seq<SubscribedItemRow>,
    stored: Seq<Item>,
    fid: i32,
    uid: i32,
    updated: Option<Timestamp>,
) -> Seq<SubscribedItem>
    decreases rows.len(),
{
    if rows.len() == 0 {
        Seq::empty()
    } else {
        let rest = view_candidates(rows.drop_last(), stored, fid, uid, updated);
        let row = rows.last();
        if row.user_id == uid {
            match first_item_with_id(stored, row.item_id) {
                Some(it) => {
                    if it.feed_id == fid && date_passes(it.published_at, updated) {
                        rest.push(view_row_of(it, row))
                    } else {
                        rest
                    }
                },
                None => rest,
            }
        } else {
            rest
        }
    }
}

/// Stable insertion into a run of view rows that descends by publication
/// date: the new row goes behind every row that may stand before it.
pub open spec fn insert_desc(s: Seq<SubscribedItem>, x: SubscribedItem) -> Seq<SubscribedItem>
    decreases s.len(),
{
    if s.len() == 0 {
        seq![x]
    } else if view_before(s[0].published_at, x.published_at) {
        seq![s[0]] + insert_desc(s.drop_first(), x)
    } else {
        seq![x] + s
    }
}

/// The view rows in descending publication order, ties and undated rows
/// keeping their storage order.
pub open spec fn sort_view(s: Seq<SubscribedItem>) -> Seq<SubscribedItem>
    decreases s.len(),
{
    if s.len() == 0 {
        Seq::empty()
    } else {
        insert_desc(sort_view(s.drop_last()), s.last())
    }
}

/// A run of view rows that descends by publication date.
pub open spec fn sorted_desc(s: Seq<SubscribedItem>) -> bool {
    forall|i: int, j: int|
        0 <= i < j < s.len() ==> view_before(
            (#[trigger] s[i]).published_at,
            (#[trigger] s[j]).published_at,
        )
}

/// A date that stands before a row and before a whole run stands before
/// the run with that row inserted.
pub proof fn lemma_insert_desc_bound(s: Seq<SubscribedItem>, x: SubscribedItem, b: Option<
    Timestamp,
>)
    requires
        view_before(b, x.published_at),
        forall|j: int| 0 <= j < s.len() ==> view_before(b, (#[trigger] s[j]).published_at),
    ensures
        forall|k: int|
            0 <= k < insert_desc(s, x).len() ==> view_before(
                b,
                (#[trigger] insert_desc(s, x)[k]).published_at,
            ),
    decreases s.len(),
{
    if s.len() == 0 {
    } else if view_before(s[0].published_at, x.published_at) {
        assert(forall|j: int|
            0 <= j < s.drop_first().len() ==> view_before(
                b,
                (#[trigger] s.drop_first()[j]).published_at,
            )) by {
            assert(forall|j: int|
                0 <= j < s.drop_first().len() ==> s.drop_first()[j] == s[j + 1]);
        }
        lemma_insert_desc_bound(s.drop_first(), x, b);
        let r = seq![s[0]] + insert_desc(s.drop_first(), x);
        assert(forall|k: int|
            1 <= k < r.len() ==> r[k] == insert_desc(s.drop_first(), x)[k - 1]);
    } else {
    }
}

/// Inserting into a descending run keeps it descending.
pub proof fn lemma_insert_desc_sorted(s: Seq<SubscribedItem>, x: SubscribedItem)
    requires
        sorted_desc(s),
    ensures
        sorted_desc(insert_desc(s, x)),
    decreases s.len(),
{
    if s.len() == 0 {
    } else if view_before(s[0].published_at, x.published_at) {
        assert(sorted_desc(s.drop_first())) by {
            assert(forall|j: int|
                0 <= j < s.drop_first().len() ==> s.drop_first()[j] == s[j + 1]);
        }
        lemma_insert_desc_sorted(s.drop_first(), x);
        assert(forall|j: int|
            0 <= j < s.drop_first().len() ==> view_before(
                s[0].published_at,
                (#[trigger] s.drop_first()[j]).published_at,
            )) by {
            assert(forall|j: int|
                0 <= j < s.drop_first().len() ==> s.drop_first()[j] == s[j + 1]);
        }
        lemma_insert_desc_bound(s.drop_first(), x, s[0].published_at);
        let r = seq![s[0]] + insert_desc(s.drop_first(), x);
        assert(forall|k: int|
            1 <= k < r.len() ==> r[k] == insert_desc(s.drop_first(), x)[k - 1]);
    } else {
        let r = seq![x] + s;
        assert(forall|k: int| 1 <= k < r.len() ==> r[k] == s[k - 1]);
        assert(view_before(x.published_at, s[0].published_at));
        assert(forall|k: int|
            1 <= k < r.len() ==> view_before(x.published_at, (#[trigger] r[k]).published_at));
    }
}

/// Ordering the view rows really leaves them descending.
pub proof fn lemma_sort_view_sorted(s: Seq<SubscribedItem>)
    ensures
        sorted_desc(sort_view(s)),
    decreases s.len(),
{
    if s.len() == 0 {
    } else {
        lemma_sort_view_sorted(s.drop_last());
        lemma_insert_desc_sorted(sort_view(s.drop_last()), s.last());
    }
}

/// Inserting one row grows a run by one.
pub proof fn lemma_insert_desc_len(s: Seq<SubscribedItem>, x: SubscribedItem)
    ensures
        insert_desc(s, x).len() == s.len() + 1,
    decreases s.len(),
{
    if s.len() == 0 {
    } else if view_before(s[0].published_at, x.published_at) {
        lemma_insert_desc_len(s.drop_first(), x);
    } else {
    }
}

/// Ordering loses no view row.
pub proof fn lemma_sort_view_len(s: Seq<SubscribedItem>)
    ensures
        sort_view(s).len() == s.len(),
    decreases s.len(),
{
    if s.len() == 0 {
    } else {
        lemma_sort_view_len(s.drop_last());
        lemma_insert_desc_len(sort_view(s.drop_last()), s.last());
    }
}

/// Whether a publication date clears the reader's paging cutoff.
fn date_passes_exec(p: &Option<Timestamp>, updated: &Option<Timestamp>) -> (r: bool)
    ensures
        r == date_passes(*p, *updated),
{
    match updated {
        None => true,
        Some(d) => match p {
            None => false,
            Some(x) => x.secs < d.secs || (x.secs == d.secs && x.nanos < d.nanos),
        },
    }
}

/// Whether `a` may stand at or before `b` in the view's descending order.
fn view_before_exec(a: &Option<Timestamp>, b: &Option<Timestamp>) -> (r: bool)
    ensures
        r == view_before(*a, *b),
{
    match a {
        None => true,
        Some(x) => match b {
            None => false,
            Some(y) => y.secs < x.secs || (y.secs == x.secs && y.nanos <= x.nanos),
        },
    }
}

/// Copy a view row, field for field.
fn clone_subscribed_item(si: &SubscribedItem) -> (r: SubscribedItem)
    ensures
        r == *si,
{
    SubscribedItem {
        id: si.id,
        guid: si.guid.clone(),
        link: si.link.clone(),
        title: si.title.clone(),
        summary: clone_opt_string(&si.summary),
        content: clone_opt_string(&si.content),
        published_at: si.published_at,
        updated_at: si.updated_at,
        feed_id: si.feed_id,
        subscribed_item_id: si.subscribed_item_id,
        user_id: si.user_id,
        seen: si.seen,
    }
}

impl Store {
    /// One page of a reader's item view for one feed: the joined rows in
    /// descending publication order, undated rows first, strictly before
    /// the cutoff when one is given, and at most fifty of them.
    pub fn get_subscribed_items(&self, fid: i32, uid: i32, updated: Option<Timestamp>) -> (r:
        Option<Vec<SubscribedItem>>)
        ensures
            r is Some,
            ({
                let sorted = sort_view(
                    view_candidates(self.subscribed_items@, self.items@, fid, uid, updated),
                );
                r.unwrap()@ == sorted.subrange(
                    0,
                    if sorted.len() <= 50 {
                        sorted.len() as int
                    } else {
                        50int
                    },
                )
            }),
            sorted_desc(r.unwrap()@),
    {
        let mut cand: Vec<SubscribedItem> = Vec::new();
        let mut k: usize = 0;
        while k < self.subscribed_items.len()
            invariant
                0 <= k <= self.subscribed_items@.len(),
                cand@ == view_candidates(
                    self.subscribed_items@.subrange(0, k as int),
                    self.items@,
                    fid,
                    uid,
                    updated,
                ),
            decreases self.subscribed_items@.len() - k,
        {
            proof {
                assert(self.subscribed_items@.subrange(0, k + 1 as int).drop_last()
                    =~= self.subscribed_items@.subrange(0, k as int));
                assert(self.subscribed_items@.subrange(0, k + 1 as int).last()
                    == self.subscribed_items@[k as int]);
            }
            let row = self.subscribed_items[k];
            if row.user_id == uid {
                match self.index_of_item(row.item_id) {
                    Some(j) => {
                        proof {
                            lemma_first_item_at(self.items@, row.item_id, j as int);
                        }
                        let it = &self.items[j];
                        if it.feed_id == fid && date_passes_exec(&it.published_at, &updated) {
                            let si = SubscribedItem {
                                id: it.id,
                                guid: it.guid.clone(),
                                link: it.link.clone(),
                                title: it.title.clone(),
                                summary: clone_opt_string(&it.summary),
                                content: clone_opt_string(&it.content),
                                published_at: it.published_at,
                                updated_at: it.updated_at,
                                feed_id: it.feed_id,
                                subscribed_item_id: row.id,
                                user_id: row.user_id,
                                seen: row.seen,
                            };
                            proof {
                                assert(si == view_row_of(self.items@[j as int], row));
                            }
                            cand.push(si);
                        }
                    },
                    None => {
                        proof {
                            lemma_first_item_none(self.items@, row.item_id);
                        }
                    },
                }
            }
            k = k + 1;
        }
        proof {
            assert(self.subscribed_items@.subrange(0, self.subscribed_items@.len() as int)
                =~= self.subscribed_items@);
        }
        let ghost candv = cand@;
        let mut out: Vec<SubscribedItem> = Vec::new();
        let mut i: usize = 0;
        while i < cand.len()
            invariant
                0 <= i <= candv.len(),
                cand@ == candv,
                out@ == sort_view(candv.subrange(0, i as int)),
            decreases candv.len() - i,
        {
            let c = clone_subscribed_item(&cand[i]);
            let ghost cval = candv[i as int];
            let mut pos: usize = 0;
            proof {
                assert(out@.skip(0) =~= out@);
                assert(out@.subrange(0, 0) + insert_desc(out@.skip(0), cval) =~= insert_desc(
                    out@,
                    cval,
                ));
            }
            while pos < out.len() && view_before_exec(&out[pos].published_at, &c.published_at)
                invariant
                    0 <= pos <= out@.len(),
                    c == cval,
                    insert_desc(out@, cval) == out@.subrange(0, pos as int) + insert_desc(
                        out@.skip(pos as int),
                        cval,
                    ),
                decreases out@.len() - pos,
            {
                proof {
                    let tail = out@.skip(pos as int);
                    assert(tail[0] == out@[pos as int]);
                    assert(tail.drop_first() =~= out@.skip(pos + 1 as int));
                    assert(insert_desc(tail, cval) == seq![out@[pos as int]] + insert_desc(
                        out@.skip(pos + 1 as int),
                        cval,
                    ));
                    assert(out@.subrange(0, pos as int) + (seq![out@[pos as int]] + insert_desc(
                        out@.skip(pos + 1 as int),
                        cval,
                    )) =~= out@.subrange(0, pos + 1 as int) + insert_desc(
                        out@.skip(pos + 1 as int),
                        cval,
                    ));
                }
                pos = pos + 1;
            }
            proof {
                let tail = out@.skip(pos as int);
                if pos < out@.len() {
                    assert(tail[0] == out@[pos as int]);
                    assert(insert_desc(tail, cval) == seq![cval] + tail);
                } else {
                    assert(tail.len() == 0);
                    assert(insert_desc(tail, cval) =~= seq![cval] + tail);
                }
                assert(out@.subrange(0, pos as int) + (seq![cval] + tail) =~= out@.insert(
                    pos as int,
                    cval,
                ));
                assert(insert_desc(out@, cval) == out@.insert(pos as int, cval));
            }
            out.insert(pos, c);
            proof {
                assert(candv.subrange(0, i + 1 as int).drop_last() =~= candv.subrange(0, i as int));
                assert(candv.subrange(0, i + 1 as int).last() == candv[i as int]);
            }
            i = i + 1;
        }
        proof {
            assert(candv.subrange(0, candv.len() as int) =~= candv);
            lemma_sort_view_len(candv);
            assert(out@ =~= sort_view(candv).subrange(0, out@.len() as int));
        }
        let ghost min_len: int = if sort_view(candv).len() <= 50 {
            sort_view(candv).len() as int
        } else {
            50int
        };
        while out.len() > 50
            invariant
                out@.len() <= sort_view(candv).len(),
                out@ == sort_view(candv).subrange(0, out@.len() as int),
                out@.len() >= min_len,
                min_len == (if sort_view(candv).len() <= 50 {
                    sort_view(candv).len() as int
                } else {
                    50int
                }),
            decreases out@.len(),
        {
            let ghost before = out@;
            out.pop();
            proof {
                assert(out@ =~= before.drop_last());
                assert(before.drop_last() =~= sort_view(candv).subrange(
                    0,
                    before.len() - 1,
                ));
            }
        }
        proof {
            lemma_sort_view_sorted(candv);
        }
        Some(out)
    }
}

/// Strict lexicographic order on byte sequences.
pub open spec fn bytes_lt(a: Seq<u8>, b: Seq<u8>) -> bool
    decreases a.len(),
{
    if b.len() == 0 {
        false
    } else if a.len() == 0 {
        true
    } else if a[0] != b[0] {
        a[0] < b[0]
    } else {
        bytes_lt(a.drop_first(), b.drop_first())
    }
}

/// `a` may stand at or before `b` when titles order lexicographically by
/// their encoded bytes.
pub open spec fn title_before(a: SubscribedFeed, b: SubscribedFeed) -> bool {
    bytes_lt(vstd::utf8::encode_utf8(a.title@), vstd::utf8::encode_utf8(b.title@))
        || vstd::utf8::encode_utf8(a.title@) == vstd::utf8::encode_utf8(b.title@)
}

/// Relies on str's `Ord`: strings order lexicographically by their bytes,
/// and the encoding of equal strings is equal.
#[verifier::external_body]
fn str_le(a: &str, b: &str) -> (r: bool)
    ensures
        r == (bytes_lt(vstd::utf8::encode_utf8(a@), vstd::utf8::encode_utf8(b@))
            || vstd::utf8::encode_utf8(a@) == vstd::utf8::encode_utf8(b@)),
{
    a <= b
}

/// Stable insertion into a run of feed rows that ascends by title: the
/// new row goes behind every row that may stand before it.
pub open spec fn insert_by_title(s: Seq<SubscribedFeed>, x: SubscribedFeed) -> Seq<
    SubscribedFeed,
>
    decreases s.len(),
{
    if s.len() == 0 {
        seq![x]
    } else if title_before(s[0], x) {
        seq![s[0]] + insert_by_title(s.drop_first(), x)
    } else {
        seq![x] + s
    }
}

/// The feed rows in ascending title order, equal titles keeping their
/// subscription order.
pub open spec fn sort_by_title(s: Seq<SubscribedFeed>) -> Seq<SubscribedFeed>
    decreases s.len(),
{
    if s.len() == 0 {
        Seq::empty()
    } else {
        insert_by_title(sort_by_title(s.drop_last()), s.last())
    }
}

/// One reader's feed view rows, in subscription order: each subscription
/// pair of the reader joined with its stored feed and the count of the
/// reader's unseen items there.
pub open spec fn feed_view_rows(
    pairs: Seq<(i32, i32)>,
    feeds: Seq<Feed>,
    rows: Seq<SubscribedItemRow>,
    stored: Seq<Item>,
    uid: i32,
) -> Seq<SubscribedFeed>
    decreases pairs.len(),
{
    if pairs.len() == 0 {
        Seq::empty()
    } else {
        let rest = feed_view_rows(pairs.drop_last(), feeds, rows, stored, uid);
        let p = pairs.last();
        if p.0 == uid {
            match feed_with_id(feeds, p.1) {
                Some(f) => rest.push(
                    SubscribedFeed {
                        id: f.id,
                        title: f.title,
                        description: f.description,
                        site_link: f.site_link,
                        feed_link: f.feed_link,
                        updated_at: f.updated_at,
                        user_id: uid,
                        unseen_count: unseen_count(rows, stored, uid, p.1) as i32,
                    },
                ),
                None => rest,
            }
        } else {
            rest
        }
    }
}

/// Whether the item with id `iid` is stored as belonging to feed `fid`.
pub open spec fn item_owned_by(stored: Seq<Item>, iid: i32, fid: i32) -> bool {
    exists|j: int|
        0 <= j < stored.len() && (#[trigger] stored[j]).id == iid && stored[j].feed_id == fid
}

/// How many of one reader's visibility rows point, still unseen, at items
/// of one feed.
pub open spec fn unseen_count(
    rows: Seq<SubscribedItemRow>,
    stored: Seq<Item>,
    uid: i32,
    fid: i32,
) -> int
    decreases rows.len(),
{
    if rows.len() == 0 {
        0
    } else {
        unseen_count(rows.drop_last(), stored, uid, fid) + (if rows.last().user_id == uid
            && !rows.last().seen && item_owned_by(stored, rows.last().item_id, fid) {
            1int
        } else {
            0int
        })
    }
}

/// The first stored feed with id `fid`, if any.
pub open spec fn feed_with_id(feeds: Seq<Feed>, fid: i32) -> Option<Feed>
    decreases feeds.len(),
{
    if feeds.len() == 0 {
        None
    } else {
        let r = feed_with_id(feeds.drop_last(), fid);
        if r is Some {
            r
        } else if feeds.last().id == fid {
            Some(feeds.last())
        } else {
            None
        }
    }
}

/// No feed is found under an id that none carries.
pub proof fn lemma_feed_with_id_none(feeds: Seq<Feed>, fid: i32)
    requires
        forall|k: int| 0 <= k < feeds.len() ==> (#[trigger] feeds[k]).id != fid,
    ensures
        feed_with_id(feeds, fid) is None,
    decreases feeds.len(),
{
    if feeds.len() == 0 {
    } else {
        assert(forall|k: int|
            0 <= k < feeds.drop_last().len() ==> (#[trigger] feeds.drop_last()[k]).id != fid);
        lemma_feed_with_id_none(feeds.drop_last(), fid);
    }
}

/// Copy a feed view row, field for field.
fn clone_subscribed_feed(sf: &SubscribedFeed) -> (r: SubscribedFeed)
    ensures
        r == *sf,
{
    SubscribedFeed {
        id: sf.id,
        title: sf.title.clone(),
        description: clone_opt_string(&sf.description),
        site_link: sf.site_link.clone(),
        feed_link: sf.feed_link.clone(),
        updated_at: sf.updated_at,
        user_id: sf.user_id,
        unseen_count: sf.unseen_count,
    }
}

impl Store {
    /// A reader's whole feed view: one row per subscription, each feed's
    /// metadata next to the reader's unseen count there, in ascending
    /// title order with titles compared by their bytes.
    pub fn get_subscribed_feeds(&self, uid: &i32) -> (r: Option<Vec<SubscribedFeed>>)
        requires
            self.subscribed_items@.len() <= i32::MAX,
        ensures
            r is Some,
            r.unwrap()@ == sort_by_title(
                feed_view_rows(
                    self.subscribed_feeds@,
                    self.feeds@,
                    self.subscribed_items@,
                    self.items@,
                    *uid,
                ),
            ),
    {
        let mut cand: Vec<SubscribedFeed> = Vec::new();
        let mut k: usize = 0;
        while k < self.subscribed_feeds.len()
            invariant
                0 <= k <= self.subscribed_feeds@.len(),
                self.subscribed_items@.len() <= i32::MAX,
                cand@ == feed_view_rows(
                    self.subscribed_feeds@.subrange(0, k as int),
                    self.feeds@,
                    self.subscribed_items@,
                    self.items@,
                    *uid,
                ),
            decreases self.subscribed_feeds@.len() - k,
        {
            proof {
                assert(self.subscribed_feeds@.subrange(0, k + 1 as int).drop_last()
                    =~= self.subscribed_feeds@.subrange(0, k as int));
                assert(self.subscribed_feeds@.subrange(0, k + 1 as int).last()
                    == self.subscribed_feeds@[k as int]);
            }
            let pair = self.subscribed_feeds[k];
            if pair.0 == *uid {
                proof {
                    assert(pair_subscribed(self.subscribed_feeds@, *uid, pair.1));
                }
                match self.get_subscribed_feed(uid, &pair.1) {
                    Some(sf) => {
                        cand.push(sf);
                    },
                    None => {},
                }
            }
            k = k + 1;
        }
        proof {
            assert(self.subscribed_feeds@.subrange(0, self.subscribed_feeds@.len() as int)
                =~= self.subscribed_feeds@);
        }
        let ghost candv = cand@;
        let mut out: Vec<SubscribedFeed> = Vec::new();
        let mut i: usize = 0;
        while i < cand.len()
            invariant
                0 <= i <= candv.len(),
                cand@ == candv,
                out@ == sort_by_title(candv.subrange(0, i as int)),
            decreases candv.len() - i,
        {
            let c = clone_subscribed_feed(&cand[i]);
            let ghost cval = candv[i as int];
            let mut pos: usize = 0;
            proof {
                assert(out@.skip(0) =~= out@);
                assert(out@.subrange(0, 0) + insert_by_title(out@.skip(0), cval)
                    =~= insert_by_title(out@, cval));
            }
            while pos < out.len() && str_le(out[pos].title.as_str(), c.title.as_str())
                invariant
                    0 <= pos <= out@.len(),
                    c == cval,
                    insert_by_title(out@, cval) == out@.subrange(0, pos as int) + insert_by_title(
                        out@.skip(pos as int),
                        cval,
                    ),
                decreases out@.len() - pos,
            {
                proof {
                    let tail = out@.skip(pos as int);
                    assert(tail[0] == out@[pos as int]);
                    assert(tail.drop_first() =~= out@.skip(pos + 1 as int));
                    assert(insert_by_title(tail, cval) == seq![out@[pos as int]] + insert_by_title(
                        out@.skip(pos + 1 as int),
                        cval,
                    ));
                    assert(out@.subrange(0, pos as int) + (seq![out@[pos as int]]
                        + insert_by_title(out@.skip(pos + 1 as int), cval)) =~= out@.subrange(
                        0,
                        pos + 1 as int,
                    ) + insert_by_title(out@.skip(pos + 1 as int), cval));
                }
                pos = pos + 1;
            }
            proof {
                let tail = out@.skip(pos as int);
                if pos < out@.len() {
                    assert(tail[0] == out@[pos as int]);
                    assert(insert_by_title(tail, cval) == seq![cval] + tail);
                } else {
                    assert(tail.len() == 0);
                    assert(insert_by_title(tail, cval) =~= seq![cval] + tail);
                }
                assert(out@.subrange(0, pos as int) + (seq![cval] + tail) =~= out@.insert(
                    pos as int,
                    cval,
                ));
                assert(insert_by_title(out@, cval) == out@.insert(pos as int, cval));
            }
            out.insert(pos, c);
            proof {
                assert(candv.subrange(0, i + 1 as int).drop_last() =~= candv.subrange(0, i as int));
                assert(candv.subrange(0, i + 1 as int).last() == candv[i as int]);
            }
            i = i + 1;
        }
        proof {
            assert(candv.subrange(0, candv.len() as int) =~= candv);
        }
        Some(out)
    }
}

/// The feed found under an id is the one at the first matching position.
pub proof fn lemma_feed_with_id_at(feeds: Seq<Feed>, fid: i32, j: int)
    requires
        0 <= j < feeds.len(),
        feeds[j].id == fid,
        forall|k: int| 0 <= k < j ==> (#[trigger] feeds[k]).id != fid,
    ensures
        feed_with_id(feeds, fid) == Some(feeds[j]),
    decreases feeds.len(),
{
    if j == feeds.len() - 1 {
        assert(forall|k: int|
            0 <= k < feeds.drop_last().len() ==> (#[trigger] feeds.drop_last()[k]).id != fid);
        lemma_feed_with_id_none(feeds.drop_last(), fid);
    } else {
        assert(feeds.drop_last()[j] == feeds[j]);
        assert(forall|k: int| 0 <= k < j ==> (#[trigger] feeds.drop_last()[k]).id != fid) by {
            assert(forall|k: int| 0 <= k < j ==> feeds.drop_last()[k] == feeds[k]);
        }
        lemma_feed_with_id_at(feeds.drop_last(), fid, j);
    }
}

/// Seed the administrator account: when no account is named `admin`, one
/// is stored under the given password's hash; an existing one is left
/// alone.
pub fn create_admin_user(store: &mut Store, admin_pass: &str)
    requires
        old(store).wf(),
        old(store).next_user_id < i32::MAX,
    ensures
        final(store).wf(),
        username_taken(final(store).users@, "admin"@),
        username_taken(old(store).users@, "admin"@) ==> *final(store) == *old(store),
        !username_taken(old(store).users@, "admin"@) ==> {
            &&& final(store).users@.len() == old(store).users@.len() + 1
            &&& final(store).users@.subrange(0, old(store).users@.len() as int) == old(
                store,
            ).users@
            &&& final(store).users@.last().username@ == "admin"@
            &&& final(store).users@.last().id == old(store).next_user_id
            &&& exists|s: &str|
                s@ == crate::models::base64_of(crate::models::sha256_of(admin_pass@))
                    && final(store).users@.last().password_hash@ == (#[trigger] s.spec_bytes())
            &&& final(store).next_user_id == old(store).next_user_id + 1
        },
        final(store).same_feeds(*old(store)),
        final(store).same_items(*old(store)),
        final(store).same_subscriptions(*old(store)),
        final(store).same_visibility(*old(store)),
{
    match store.get_user("admin") {
        Some(_) => {},
        None => {
            let pwh = User::hash_pw(admin_pass);
            let pwh_str = pwh.as_str();
            let _ = store.create_user("admin", pwh_str);
            proof {
                assert(pwh_str@ == crate::models::base64_of(
                    crate::models::sha256_of(admin_pass@),
                ));
                assert(store.users@.last().password_hash@ == pwh_str.spec_bytes());
            }
        },
    }
}

/// The first stored feed under a source URL, if any.
pub open spec fn feed_with_url(feeds: Seq<Feed>, url: Seq<char>) -> Option<Feed>
    decreases feeds.len(),
{
    if feeds.len() == 0 {
        None
    } else {
        let r = feed_with_url(feeds.drop_last(), url);
        if r is Some {
            r
        } else if feeds.last().feed_link@ == url {
            Some(feeds.last())
        } else {
            None
        }
    }
}

/// No feed is found under a URL that none carries.
pub proof fn lemma_feed_with_url_none(feeds: Seq<Feed>, url: Seq<char>)
    requires
        forall|k: int| 0 <= k < feeds.len() ==> (#[trigger] feeds[k]).feed_link@ != url,
    ensures
        feed_with_url(feeds, url) is None,
    decreases feeds.len(),
{
    if feeds.len() == 0 {
    } else {
        assert(forall|k: int|
            0 <= k < feeds.drop_last().len() ==> (#[trigger] feeds.drop_last()[k]).feed_link@
                != url);
        lemma_feed_with_url_none(feeds.drop_last(), url);
    }
}

/// The feed found under a URL is the one at the first matching position.
pub proof fn lemma_feed_with_url_at(feeds: Seq<Feed>, url: Seq<char>, j: int)
    requires
        0 <= j < feeds.len(),
        feeds[j].feed_link@ == url,
        forall|k: int| 0 <= k < j ==> (#[trigger] feeds[k]).feed_link@ != url,
    ensures
        feed_with_url(feeds, url) == Some(feeds[j]),
    decreases feeds.len(),
{
    if j == feeds.len() - 1 {
        assert(forall|k: int|
            0 <= k < feeds.drop_last().len() ==> (#[trigger] feeds.drop_last()[k]).feed_link@
                != url);
        lemma_feed_with_url_none(feeds.drop_last(), url);
    } else {
        assert(feeds.drop_last()[j] == feeds[j]);
        assert(forall|k: int|
            0 <= k < j ==> (#[trigger] feeds.drop_last()[k]).feed_link@ != url) by {
            assert(forall|k: int| 0 <= k < j ==> feeds.drop_last()[k] == feeds[k]);
        }
        lemma_feed_with_url_at(feeds.drop_last(), url, j);
    }
}

/// The users subscribed to one feed, in the order their pairs were stored.
pub open spec fn subscribers_of(pairs: Seq<(i32, i32)>, fid: i32) -> Seq<i32>
    decreases pairs.len(),
{
    if pairs.len() == 0 {
        Seq::empty()
    } else {
        let rest = subscribers_of(pairs.drop_last(), fid);
        if pairs.last().1 == fid {
            rest.push(pairs.last().0)
        } else {
            rest
        }
    }
}

/// A feed has no more item ids than there are items, and each is the id
/// of some stored item.
pub proof fn lemma_item_ids_bounds(stored: Seq<Item>, fid: i32)
    ensures
        item_ids_for_feed(stored, fid).len() <= stored.len(),
        forall|k: int|
            0 <= k < item_ids_for_feed(stored, fid).len() ==> exists|j: int|
                0 <= j < stored.len() && #[trigger] item_ids_for_feed(stored, fid)[k] == stored[j].id,
    decreases stored.len(),
{
    if stored.len() == 0 {
    } else {
        lemma_item_ids_bounds(stored.drop_last(), fid);
        let rest = item_ids_for_feed(stored.drop_last(), fid);
        assert forall|k: int| 0 <= k < item_ids_for_feed(stored, fid).len() implies exists|j: int|
            0 <= j < stored.len() && #[trigger] item_ids_for_feed(stored, fid)[k] == stored[j].id by {
            if k < rest.len() {
                let j = choose|j: int|
                    0 <= j < stored.drop_last().len() && rest[k] == stored.drop_last()[j].id;
                assert(item_ids_for_feed(stored, fid)[k] == rest[k]);
                assert(stored[j].id == stored.drop_last()[j].id);
            } else {
                assert(stored.last().feed_id == fid);
                assert(item_ids_for_feed(stored, fid)[k] == stored[stored.len() - 1].id);
            }
        }
    }
}

} // verus!
