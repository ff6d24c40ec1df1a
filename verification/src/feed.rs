use vstd::prelude::*;

verus! {

use crate::datetime::Timestamp;
use crate::store::Item;
use crate::store::NewItem;
use crate::store::Store;
use crate::store::apply_one;
use crate::models::clone_opt_string;
use crate::store::dupe_rows;
use crate::store::first_known;
use crate::store::guid_known;
use crate::store::guid_listed;
use crate::store::str_eq;

/// Why a feed could not be brought in this cycle.
#[derive(PartialEq, Eq, Structural, Clone, Copy, Debug)]
pub enum FetchError {
    FetchFailed,
    ParseFailed,
    Timeout,
}

/// One entry of a fetched feed document, normalized by the parser; no
/// owning feed is attached yet.
pub struct FetchedItem {
    pub guid: String,
    pub link: String,
    pub title: String,
    pub summary: Option<String>,
    pub content: Option<String>,
    pub published_at: Option<Timestamp>,
}

/// The first offered row carrying the guid `g`, if any.
pub open spec fn first_row(
    rows: Seq<(i32, String, Option<Timestamp>)>,
    g: Seq<char>,
) -> Option<(i32, String, Option<Timestamp>)>
    decreases rows.len(),
{
    if rows.len() == 0 {
        None
    } else {
        let r = first_row(rows.drop_last(), g);
        if r is Some {
            r
        } else if rows.last().1@ == g {
            Some(rows.last())
        } else {
            None
        }
    }
}

/// The fetched entries whose guid no stored item carries, in fetch order.
pub open spec fn fresh_wrt(fetched: Seq<NewItem>, stored: Seq<Item>) -> Seq<NewItem>
    decreases fetched.len(),
{
    if fetched.len() == 0 {
        Seq::empty()
    } else {
        let rest = fresh_wrt(fetched.drop_last(), stored);
        if !guid_known(stored, fetched.last().guid@) {
            rest.push(fetched.last())
        } else {
            rest
        }
    }
}

/// The in-place overwrites a fetch causes: for each fetched entry whose
/// guid is stored under a different publication date, the stored row's id
/// paired with the entry, in fetch order.
pub open spec fn updates_wrt(fetched: Seq<NewItem>, stored: Seq<Item>) -> Seq<(i32, NewItem)>
    decreases fetched.len(),
{
    if fetched.len() == 0 {
        Seq::empty()
    } else {
        let rest = updates_wrt(fetched.drop_last(), stored);
        match first_known(stored, fetched.last().guid@) {
            Some(it) => {
                if it.published_at != fetched.last().published_at {
                    rest.push((it.id, fetched.last()))
                } else {
                    rest
                }
            },
            None => rest,
        }
    }
}

/// The stored items after a list of overwrites is applied in order.
pub open spec fn apply_updates(stored: Seq<Item>, ups: Seq<(i32, NewItem)>) -> Seq<Item>
    decreases ups.len(),
{
    if ups.len() == 0 {
        stored
    } else {
        apply_one(apply_updates(stored, ups.drop_last()), ups.last().0, ups.last().1)
    }
}

/// A stored guid is found exactly when some stored item carries it.
pub proof fn lemma_first_known_some(stored: Seq<Item>, g: Seq<char>)
    ensures
        guid_known(stored, g) <==> first_known(stored, g) is Some,
        first_known(stored, g) is Some ==> exists|j: int|
            0 <= j < stored.len() && stored[j] == first_known(stored, g).unwrap(),
    decreases stored.len(),
{
    if stored.len() == 0 {
    } else {
        lemma_first_known_some(stored.drop_last(), g);
        if guid_known(stored.drop_last(), g) {
            let j = choose|j: int|
                0 <= j < stored.drop_last().len() && stored.drop_last()[j].guid@ == g;
            assert(stored[j].guid@ == g);
        } else if stored.last().guid@ == g {
            assert(stored[stored.len() - 1].guid@ == g);
        } else {
            if guid_known(stored, g) {
                let j = choose|j: int| 0 <= j < stored.len() && stored[j].guid@ == g;
                assert(j < stored.len() - 1 ==> stored.drop_last()[j].guid@ == g);
            }
        }
    }
}

/// No offered row carries `g` when none matches it.
pub proof fn lemma_first_row_none(rows: Seq<(i32, String, Option<Timestamp>)>, g: Seq<char>)
    requires
        forall|t: int| 0 <= t < rows.len() ==> (#[trigger] rows[t]).1@ != g,
    ensures
        first_row(rows, g) is None,
    decreases rows.len(),
{
    if rows.len() == 0 {
    } else {
        assert(forall|t: int|
            0 <= t < rows.drop_last().len() ==> (#[trigger] rows.drop_last()[t]).1@ != g);
        lemma_first_row_none(rows.drop_last(), g);
    }
}

/// The first matching row is the one at the first matching position.
pub proof fn lemma_first_row_at(
    rows: Seq<(i32, String, Option<Timestamp>)>,
    g: Seq<char>,
    k: int,
)
    requires
        0 <= k < rows.len(),
        rows[k].1@ == g,
        forall|t: int| 0 <= t < k ==> (#[trigger] rows[t]).1@ != g,
    ensures
        first_row(rows, g) == Some(rows[k]),
    decreases rows.len(),
{
    if k == rows.len() - 1 {
        assert(forall|t: int|
            0 <= t < rows.drop_last().len() ==> (#[trigger] rows.drop_last()[t]).1@ != g);
        lemma_first_row_none(rows.drop_last(), g);
    } else {
        assert(rows.drop_last()[k] == rows[k]);
        assert(forall|t: int|
            0 <= t < k ==> (#[trigger] rows.drop_last()[t]).1@ != g) by {
            assert(forall|t: int| 0 <= t < k ==> rows.drop_last()[t] == rows[t]);
        }
        lemma_first_row_at(rows.drop_last(), g, k);
    }
}

/// Looking a guid up among the duplicate rows answers exactly as looking
/// it up among the stored items, as long as the guid was offered.
pub proof fn lemma_dupe_lookup(stored: Seq<Item>, guids: Seq<&str>, g: Seq<char>)
    requires
        guid_listed(guids, g),
    ensures
        first_row(dupe_rows(stored, guids), g) == match first_known(stored, g) {
            Some(it) => Some((it.id, it.guid, it.published_at)),
            None => None::<(i32, String, Option<Timestamp>)>,
        },
    decreases stored.len(),
{
    if stored.len() == 0 {
    } else {
        lemma_dupe_lookup(stored.drop_last(), guids, g);
        let rest = dupe_rows(stored.drop_last(), guids);
        if guid_listed(guids, stored.last().guid@) {
            let row = (stored.last().id, stored.last().guid, stored.last().published_at);
            assert(dupe_rows(stored, guids) == rest.push(row));
            assert(rest.push(row).drop_last() =~= rest);
            assert(rest.push(row).last() == row);
        } else {
            assert(dupe_rows(stored, guids) == rest);
            if stored.last().guid@ == g {
                assert(guid_listed(guids, stored.last().guid@));
            }
        }
    }
}

/// Copy a fetched entry ready for storage, field for field.
pub fn clone_new_item(n: &NewItem) -> (r: NewItem)
    ensures
        r == *n,
{
    NewItem {
        feed_id: n.feed_id,
        guid: n.guid.clone(),
        link: n.link.clone(),
        title: n.title.clone(),
        summary: clone_opt_string(&n.summary),
        content: clone_opt_string(&n.content),
        published_at: n.published_at,
        updated_at: n.updated_at,
    }
}

/// Whether two optional publication dates agree.
fn opt_ts_eq(a: &Option<Timestamp>, b: &Option<Timestamp>) -> (r: bool)
    ensures
        r == (*a == *b),
{
    match a {
        Some(x) => match b {
            Some(y) => x.secs == y.secs && x.nanos == y.nanos,
            None => false,
        },
        None => match b {
            Some(_) => false,
            None => true,
        },
    }
}

/// The id and stored publication date of the first duplicate row carrying
/// the guid `g`, if any.
fn find_dupe(dupes: &Vec<(i32, String, Option<Timestamp>)>, g: &str) -> (r: Option<
    (i32, Option<Timestamp>),
>)
    ensures
        match first_row(dupes@, g@) {
            Some(row) => r == Some((row.0, row.2)),
            None => r is None,
        },
{
    let mut k: usize = 0;
    while k < dupes.len()
        invariant
            0 <= k <= dupes@.len(),
            forall|t: int| 0 <= t < k ==> (#[trigger] dupes@[t]).1@ != g@,
        decreases dupes@.len() - k,
    {
        if str_eq(dupes[k].1.as_str(), g) {
            proof {
                lemma_first_row_at(dupes@, g@, k as int);
            }
            return Some((dupes[k].0, dupes[k].2));
        }
        k = k + 1;
    }
    proof {
        lemma_first_row_none(dupes@, g@);
    }
    None
}

/// Reconcile fetched entries against storage: entries with a stored guid
/// and a changed publication date overwrite their stored row in place;
/// entries with an unknown guid come back as the new ones, or nothing when
/// every entry was seen before.
pub fn process_duplicates(store: &mut Store, items: Vec<NewItem>) -> (r: Option<Vec<NewItem>>)
    requires
        old(store).wf(),
    ensures
        final(store).wf(),
        final(store).items@ == apply_updates(
            old(store).items@,
            updates_wrt(items@, old(store).items@),
        ),
        final(store).next_item_id == old(store).next_item_id,
        final(store).same_feeds(*old(store)),
        final(store).same_users(*old(store)),
        final(store).same_subscriptions(*old(store)),
        final(store).same_visibility(*old(store)),
        r is Some <==> fresh_wrt(items@, old(store).items@).len() > 0,
        r is Some ==> r.unwrap()@ == fresh_wrt(items@, old(store).items@),
{
    let mut guid_strs: Vec<&str> = Vec::new();
    let mut k: usize = 0;
    while k < items.len()
        invariant
            0 <= k <= items@.len(),
            guid_strs@.len() == k,
            forall|t: int| 0 <= t < k ==> (#[trigger] guid_strs@[t])@ == items@[t].guid@,
        decreases items@.len() - k,
    {
        guid_strs.push(items[k].guid.as_str());
        k = k + 1;
    }
    let ghost gview = guid_strs@;
    let dupes_opt = store.find_duplicates(guid_strs);
    let dupes = match dupes_opt {
        Some(v) => v,
        None => Vec::new(),
    };
    proof {
        if dupes_opt is None {
            assert(dupes@ =~= dupe_rows(old(store).items@, gview));
        }
    }
    let mut new_items: Vec<NewItem> = Vec::new();
    let mut i: usize = 0;
    while i < items.len()
        invariant
            0 <= i <= items@.len(),
            old(store).wf(),
            store.wf(),
            dupes@ == dupe_rows(old(store).items@, gview),
            gview.len() == items@.len(),
            forall|t: int| 0 <= t < items@.len() ==> (#[trigger] gview[t])@ == items@[t].guid@,
            new_items@ == fresh_wrt(items@.subrange(0, i as int), old(store).items@),
            store.items@ == apply_updates(
                old(store).items@,
                updates_wrt(items@.subrange(0, i as int), old(store).items@),
            ),
            store.next_item_id == old(store).next_item_id,
            store.same_feeds(*old(store)),
            store.same_users(*old(store)),
            store.same_subscriptions(*old(store)),
            store.same_visibility(*old(store)),
        decreases items@.len() - i,
    {
        let it = &items[i];
        proof {
            assert(gview[i as int]@ == items@[i as int].guid@);
            assert(guid_listed(gview, it.guid@));
            lemma_dupe_lookup(old(store).items@, gview, it.guid@);
            lemma_first_known_some(old(store).items@, it.guid@);
            assert(items@.subrange(0, i + 1 as int).drop_last() =~= items@.subrange(0, i as int));
            assert(items@.subrange(0, i + 1 as int).last() == items@[i as int]);
        }
        match find_dupe(&dupes, it.guid.as_str()) {
            None => {
                new_items.push(clone_new_item(it));
            },
            Some((stored_id, stored_published)) => {
                if !opt_ts_eq(&stored_published, &it.published_at) {
                    let ghost ups_before = updates_wrt(
                        items@.subrange(0, i as int),
                        old(store).items@,
                    );
                    store.update_item(stored_id, clone_new_item(it));
                    proof {
                        let ups_now = updates_wrt(
                            items@.subrange(0, i + 1 as int),
                            old(store).items@,
                        );
                        assert(ups_now == ups_before.push((stored_id, items@[i as int])));
                        assert(ups_now.drop_last() =~= ups_before);
                    }
                }
            },
        }
        i = i + 1;
    }
    proof {
        assert(items@.subrange(0, items@.len() as int) =~= items@);
    }
    if new_items.len() == 0 {
        None
    } else {
        Some(new_items)
    }
}

/// The visibility triples one subscriber gets for a list of item ids:
/// `(subscriber, item, unseen)`, in item order.
pub open spec fn fanout_block(s: i32, ids: Seq<i32>) -> Seq<(i32, i32, bool)>
    decreases ids.len(),
{
    if ids.len() == 0 {
        Seq::empty()
    } else {
        fanout_block(s, ids.drop_last()).push((s, ids.last(), false))
    }
}

/// The visibility triples of all subscribers for a list of item ids, one
/// subscriber's block after another.
pub open spec fn fanout(subs: Seq<i32>, ids: Seq<i32>) -> Seq<(i32, i32, bool)>
    decreases subs.len(),
{
    if subs.len() == 0 {
        Seq::empty()
    } else {
        fanout(subs.drop_last(), ids) + fanout_block(subs.last(), ids)
    }
}

/// One subscriber's block pairs that subscriber with each id in order,
/// every triple unseen.
pub proof fn lemma_fanout_block_props(s: i32, ids: Seq<i32>)
    ensures
        fanout_block(s, ids).len() == ids.len(),
        forall|t: int| 0 <= t < ids.len() ==> #[trigger] fanout_block(s, ids)[t] == (s, ids[t], false),
    decreases ids.len(),
{
    if ids.len() == 0 {
    } else {
        lemma_fanout_block_props(s, ids.drop_last());
    }
}

/// The fan-out writes exactly one triple per subscriber and item.
pub proof fn lemma_fanout_len(subs: Seq<i32>, ids: Seq<i32>)
    ensures
        fanout(subs, ids).len() == subs.len() * ids.len(),
    decreases subs.len(),
{
    if subs.len() == 0 {
    } else {
        lemma_fanout_len(subs.drop_last(), ids);
        lemma_fanout_block_props(subs.last(), ids);
        assert((subs.len() - 1) * ids.len() + ids.len() == subs.len() * ids.len())
            by (nonlinear_arith);
    }
}

/// Every fanned-out triple names one of the given subscribers and one of
/// the given item ids, and is unseen.
pub proof fn lemma_fanout_elems(subs: Seq<i32>, ids: Seq<i32>)
    ensures
        forall|k: int|
            0 <= k < fanout(subs, ids).len() ==> exists|a: int, t: int|
                0 <= a < subs.len() && 0 <= t < ids.len() && #[trigger] fanout(subs, ids)[k] == (
                subs[a],
                ids[t],
                false,
                ),
    decreases subs.len(),
{
    if subs.len() == 0 {
    } else {
        lemma_fanout_elems(subs.drop_last(), ids);
        lemma_fanout_block_props(subs.last(), ids);
        let rec = fanout(subs.drop_last(), ids);
        assert forall|k: int| 0 <= k < fanout(subs, ids).len() implies exists|a: int, t: int|
            0 <= a < subs.len() && 0 <= t < ids.len() && #[trigger] fanout(subs, ids)[k] == (
            subs[a],
            ids[t],
            false,
            ) by {
            if k < rec.len() {
                let (a, t) = choose|a: int, t: int|
                    0 <= a < subs.drop_last().len() && 0 <= t < ids.len() && rec[k] == (
                    subs.drop_last()[a],
                    ids[t],
                    false,
                    );
                assert(subs.drop_last()[a] == subs[a]);
                assert(fanout(subs, ids)[k] == rec[k]);
            } else {
                let t = k - rec.len();
                assert(fanout(subs, ids)[k] == fanout_block(subs.last(), ids)[t]);
                assert(fanout_block(subs.last(), ids)[t] == (subs[subs.len() - 1], ids[t], false));
            }
        }
    }
}

/// No more entries come back fresh than were fetched.
pub proof fn lemma_fresh_len(fetched: Seq<NewItem>, stored: Seq<Item>)
    ensures
        fresh_wrt(fetched, stored).len() <= fetched.len(),
    decreases fetched.len(),
{
    if fetched.len() == 0 {
    } else {
        lemma_fresh_len(fetched.drop_last(), stored);
    }
}

/// Create one unseen visibility record per `(subscriber, inserted item)`
/// pair, in a single bulk write.
pub fn subscribe_new_items(store: &mut Store, inserted_items: &Vec<i32>, subscribers: &Vec<i32>)
    requires
        old(store).wf(),
        forall|k: int|
            0 <= k < inserted_items@.len() ==> #[trigger] inserted_items@[k] < old(
                store,
            ).next_item_id,
        i32::MAX - old(store).next_subscribed_item_id >= subscribers@.len()
            * inserted_items@.len(),
    ensures
        final(store).wf(),
        final(store).subscribed_items@ == old(store).subscribed_items@
            + crate::store::sub_rows_of(
            fanout(subscribers@, inserted_items@),
            old(store).next_subscribed_item_id as int,
        ),
        final(store).next_subscribed_item_id == old(store).next_subscribed_item_id
            + subscribers@.len() * inserted_items@.len(),
        final(store).same_feeds(*old(store)),
        final(store).same_items(*old(store)),
        final(store).same_users(*old(store)),
        final(store).same_subscriptions(*old(store)),
{
    let mut rows: Vec<(i32, i32, bool)> = Vec::new();
    let mut s: usize = 0;
    while s < subscribers.len()
        invariant
            0 <= s <= subscribers@.len(),
            rows@ == fanout(subscribers@.subrange(0, s as int), inserted_items@),
        decreases subscribers@.len() - s,
    {
        let uid = subscribers[s];
        let ghost rows_before = rows@;
        let mut t: usize = 0;
        while t < inserted_items.len()
            invariant
                0 <= t <= inserted_items@.len(),
                0 <= s < subscribers@.len(),
                uid == subscribers@[s as int],
                rows_before == fanout(subscribers@.subrange(0, s as int), inserted_items@),
                rows@ == rows_before + fanout_block(uid, inserted_items@.subrange(0, t as int)),
            decreases inserted_items@.len() - t,
        {
            proof {
                assert(inserted_items@.subrange(0, t + 1 as int).drop_last()
                    =~= inserted_items@.subrange(0, t as int));
                assert(inserted_items@.subrange(0, t + 1 as int).last()
                    == inserted_items@[t as int]);
            }
            rows.push((uid, inserted_items[t], false));
            proof {
                assert(rows@ =~= rows_before + fanout_block(
                    uid,
                    inserted_items@.subrange(0, t + 1 as int),
                ));
            }
            t = t + 1;
        }
        proof {
            assert(inserted_items@.subrange(0, inserted_items@.len() as int) =~= inserted_items@);
            assert(subscribers@.subrange(0, s + 1 as int).drop_last() =~= subscribers@.subrange(
                0,
                s as int,
            ));
            assert(subscribers@.subrange(0, s + 1 as int).last() == subscribers@[s as int]);
            assert(rows@ =~= fanout(subscribers@.subrange(0, s + 1 as int), inserted_items@));
        }
        s = s + 1;
    }
    proof {
        assert(subscribers@.subrange(0, subscribers@.len() as int) =~= subscribers@);
        lemma_fanout_len(subscribers@, inserted_items@);
        lemma_fanout_elems(subscribers@, inserted_items@);
    }
    store.insert_subscribed_items(rows);
}

/// The fetched entries with their owning feed attached.
pub open spec fn spec_attach(fetched: Seq<FetchedItem>, fid: i32) -> Seq<NewItem> {
    Seq::new(
        fetched.len(),
        |k: int| NewItem {
            feed_id: fid,
            guid: fetched[k].guid,
            link: fetched[k].link,
            title: fetched[k].title,
            summary: fetched[k].summary,
            content: fetched[k].content,
            published_at: fetched[k].published_at,
            updated_at: None,
        },
    )
}

/// Attach the owning feed to each fetched entry.
fn attach_feed(fetched: &Vec<FetchedItem>, fid: i32) -> (r: Vec<NewItem>)
    ensures
        r@ == spec_attach(fetched@, fid),
{
    let mut out: Vec<NewItem> = Vec::new();
    let mut k: usize = 0;
    while k < fetched.len()
        invariant
            0 <= k <= fetched@.len(),
            out@ == spec_attach(fetched@.subrange(0, k as int), fid),
        decreases fetched@.len() - k,
    {
        let f = &fetched[k];
        out.push(
            NewItem {
                feed_id: fid,
                guid: f.guid.clone(),
                link: f.link.clone(),
                title: f.title.clone(),
                summary: clone_opt_string(&f.summary),
                content: clone_opt_string(&f.content),
                published_at: f.published_at,
                updated_at: None,
            },
        );
        proof {
            assert(out@ =~= spec_attach(fetched@.subrange(0, k + 1 as int), fid));
        }
        k = k + 1;
    }
    proof {
        assert(fetched@.subrange(0, fetched@.len() as int) =~= fetched@);
    }
    out
}

/// The ids a run of the item generator hands out, starting at `first_id`.
pub open spec fn new_item_ids(first_id: int, n: nat) -> Seq<i32> {
    Seq::new(n, |k: int| (first_id + k) as i32)
}

/// How one successful synchronization changes the gateway: entries with a
/// stored guid and a changed publication date overwrite their row, entries
/// with an unknown guid are inserted under fresh ids, and exactly the
/// inserted ones are fanned out to the subscribers as unseen.
pub open spec fn sync_ok(
    pre: Store,
    post: Store,
    feed_id: i32,
    fetched: Seq<FetchedItem>,
    subs: Seq<i32>,
) -> bool {
    let att = spec_attach(fetched, feed_id);
    let fresh = fresh_wrt(att, pre.items@);
    let ids = new_item_ids(pre.next_item_id as int, fresh.len());
    &&& post.items@ == apply_updates(pre.items@, updates_wrt(att, pre.items@))
        + crate::store::inserted_items(fresh, pre.next_item_id as int)
    &&& post.next_item_id == pre.next_item_id + fresh.len()
    &&& post.subscribed_items@ == pre.subscribed_items@ + crate::store::sub_rows_of(
        fanout(subs, ids),
        pre.next_subscribed_item_id as int,
    )
    &&& post.next_subscribed_item_id == pre.next_subscribed_item_id + subs.len() * fresh.len()
    &&& post.same_feeds(pre)
    &&& post.same_users(pre)
    &&& post.same_subscriptions(pre)
}

/// One feed's synchronization task after the fetch resolved: a failed
/// fetch leaves storage untouched and is handed back; a successful one is
/// reconciled and fanned out, and the newly inserted items come back.
pub fn update_feed(
    store: &mut Store,
    feed_id: i32,
    fetched: Result<Vec<FetchedItem>, FetchError>,
    subscriber_ids: Vec<i32>,
) -> (r: Result<Option<Vec<Item>>, FetchError>)
    requires
        old(store).wf(),
        fetched is Ok ==> i32::MAX - old(store).next_item_id >= fetched.unwrap()@.len(),
        fetched is Ok ==> i32::MAX - old(store).next_subscribed_item_id >= subscriber_ids@.len()
            * fetched.unwrap()@.len(),
    ensures
        final(store).wf(),
        fetched is Err ==> *final(store) == *old(store) && r == Err::<
            Option<Vec<Item>>,
            FetchError,
        >(fetched->Err_0),
        fetched is Ok ==> sync_ok(
            *old(store),
            *final(store),
            feed_id,
            fetched.unwrap()@,
            subscriber_ids@,
        ),
        fetched is Ok ==> {
            let fresh = fresh_wrt(
                spec_attach(fetched.unwrap()@, feed_id),
                old(store).items@,
            );
            &&& (fresh.len() == 0 ==> r == Ok::<Option<Vec<Item>>, FetchError>(None))
            &&& (fresh.len() > 0 ==> r is Ok && r.unwrap() is Some && r.unwrap().unwrap()@
                == crate::store::inserted_items(fresh, old(store).next_item_id as int))
        },
{
    match fetched {
        Err(e) => Err(e),
        Ok(fitems) => {
            let ghost attv = spec_attach(fitems@, feed_id);
            let ghost pre = *old(store);
            let att = attach_feed(&fitems, feed_id);
            let maybe_new = process_duplicates(store, att);
            match maybe_new {
                Some(new_items) => {
                    proof {
                        lemma_fresh_len(attv, pre.items@);
                    }
                    let stored_opt = store.insert_items(&new_items);
                    let stored = stored_opt.unwrap();
                    let ghost id0 = pre.next_item_id as int;
                    let mut item_ids: Vec<i32> = Vec::new();
                    let mut k: usize = 0;
                    while k < stored.len()
                        invariant
                            0 <= k <= stored@.len(),
                            stored@ == crate::store::inserted_items(
                                fresh_wrt(attv, pre.items@),
                                id0,
                            ),
                            item_ids@ == new_item_ids(id0, k as nat),
                        decreases stored@.len() - k,
                    {
                        item_ids.push(stored[k].id);
                        proof {
                            assert(item_ids@ =~= new_item_ids(id0, (k + 1) as nat));
                        }
                        k = k + 1;
                    }
                    proof {
                        let fresh = fresh_wrt(attv, pre.items@);
                        let flen = fresh.len() as int;
                        let tlen = fitems@.len() as int;
                        let slen = subscriber_ids@.len() as int;
                        assert(slen * flen <= slen * tlen) by (nonlinear_arith)
                            requires
                                flen <= tlen,
                                slen >= 0,
                        ;
                    }
                    subscribe_new_items(store, &item_ids, &subscriber_ids);
                    Ok(Some(stored))
                },
                None => {
                    proof {
                        let fresh = fresh_wrt(attv, pre.items@);
                        assert(fresh.len() == 0);
                        assert(store.items@ =~= apply_updates(
                            pre.items@,
                            updates_wrt(attv, pre.items@),
                        ) + crate::store::inserted_items(fresh, pre.next_item_id as int));
                        lemma_fanout_len(subscriber_ids@, new_item_ids(pre.next_item_id as int, 0));
                        assert(fanout(subscriber_ids@, new_item_ids(pre.next_item_id as int, 0))
                            =~= Seq::<(i32, i32, bool)>::empty());
                        assert(store.subscribed_items@ =~= pre.subscribed_items@
                            + crate::store::sub_rows_of(
                            fanout(subscriber_ids@, new_item_ids(pre.next_item_id as int, 0)),
                            pre.next_subscribed_item_id as int,
                        ));
                    }
                    Ok(None)
                },
            }
        },
    }
}

/// Attach one new reader to a feed: resolve the URL against storage, fall
/// back to freshly fetched channel metadata for an unknown URL, record the
/// subscription, and mark the feed's existing backlog unseen for the new
/// reader. Nothing happens when the URL is unknown and no metadata came.
pub fn subscribe(
    store: &mut Store,
    url: &str,
    user_id: i32,
    fetched_channel: Option<crate::store::NewFeed>,
) -> (r: Option<i32>)
    requires
        old(store).wf(),
        old(store).next_feed_id < i32::MAX,
        i32::MAX - old(store).next_subscribed_item_id >= old(store).items@.len(),
    ensures
        final(store).wf(),
        match crate::store::feed_with_url(old(store).feeds@, url@) {
            Some(f) => {
                let ids = crate::store::item_ids_for_feed(old(store).items@, f.id);
                &&& r == Some(f.id)
                &&& final(store).same_feeds(*old(store))
                &&& final(store).same_items(*old(store))
                &&& final(store).same_users(*old(store))
                &&& (if crate::store::pair_subscribed(
                    old(store).subscribed_feeds@,
                    user_id,
                    f.id,
                ) {
                    final(store).subscribed_feeds == old(store).subscribed_feeds
                } else {
                    final(store).subscribed_feeds@ == old(store).subscribed_feeds@.push(
                        (user_id, f.id),
                    )
                })
                &&& final(store).subscribed_items@ == old(store).subscribed_items@
                    + crate::store::sub_rows_of(
                    fanout(seq![user_id], ids),
                    old(store).next_subscribed_item_id as int,
                )
                &&& final(store).next_subscribed_item_id == old(store).next_subscribed_item_id
                    + ids.len()
            },
            None => match fetched_channel {
                Some(ch) => {
                    &&& r == Some(old(store).next_feed_id)
                    &&& final(store).feeds@ == old(store).feeds@.push(
                        crate::store::Feed {
                            id: old(store).next_feed_id,
                            title: ch.title,
                            description: ch.description,
                            site_link: ch.site_link,
                            feed_link: ch.feed_link,
                            updated_at: ch.updated_at,
                        },
                    )
                    &&& final(store).next_feed_id == old(store).next_feed_id + 1
                    &&& final(store).same_items(*old(store))
                    &&& final(store).same_users(*old(store))
                    &&& final(store).same_visibility(*old(store))
                    &&& (if crate::store::pair_subscribed(
                        old(store).subscribed_feeds@,
                        user_id,
                        old(store).next_feed_id,
                    ) {
                        final(store).subscribed_feeds == old(store).subscribed_feeds
                    } else {
                        final(store).subscribed_feeds@ == old(store).subscribed_feeds@.push(
                            (user_id, old(store).next_feed_id),
                        )
                    })
                },
                None => r is None && *final(store) == *old(store),
            },
        },
{
    match store.get_feed_id(url) {
        Ok(feed_id) => {
            let ids_opt = store.get_item_ids(&feed_id);
            store.subscribe_feed(&user_id, &feed_id);
            let item_ids = ids_opt.unwrap();
            let mut single: Vec<i32> = Vec::new();
            single.push(user_id);
            proof {
                assert(single@ =~= seq![user_id]);
                crate::store::lemma_item_ids_bounds(old(store).items@, feed_id);
                assert(forall|k: int|
                    0 <= k < item_ids@.len() ==> #[trigger] item_ids@[k]
                        < old(store).next_item_id);
                assert(1 * item_ids@.len() == item_ids@.len());
            }
            subscribe_new_items(store, &item_ids, &single);
            Some(feed_id)
        },
        Err(_) => match fetched_channel {
            Some(ch) => {
                let f = store.insert_channel(ch);
                store.subscribe_feed(&user_id, &f.id);
                Some(f.id)
            },
            None => None,
        },
    }
}

/// Overwriting rows never changes how many items there are, nor any row's
/// identity: id, guid and owning feed stay put.
pub proof fn lemma_apply_updates_shape(stored: Seq<Item>, ups: Seq<(i32, NewItem)>)
    ensures
        apply_updates(stored, ups).len() == stored.len(),
        forall|j: int|
            0 <= j < stored.len() ==> {
                &&& (#[trigger] apply_updates(stored, ups)[j]).id == stored[j].id
                &&& apply_updates(stored, ups)[j].guid == stored[j].guid
                &&& apply_updates(stored, ups)[j].feed_id == stored[j].feed_id
            },
    decreases ups.len(),
{
    if ups.len() == 0 {
    } else {
        lemma_apply_updates_shape(stored, ups.drop_last());
    }
}

/// An entry whose guid storage has never seen comes back as new.
pub proof fn lemma_fresh_has_unknown(fetched: Seq<NewItem>, stored: Seq<Item>, k: int)
    requires
        0 <= k < fetched.len(),
        !guid_known(stored, fetched[k].guid@),
    ensures
        exists|p: int|
            0 <= p < fresh_wrt(fetched, stored).len() && #[trigger] fresh_wrt(fetched, stored)[p]
                == fetched[k],
    decreases fetched.len(),
{
    let fresh = fresh_wrt(fetched, stored);
    if k == fetched.len() - 1 {
        assert(fresh[fresh.len() - 1] == fetched[k]);
    } else {
        assert(fetched.drop_last()[k] == fetched[k]);
        lemma_fresh_has_unknown(fetched.drop_last(), stored, k);
        let rest = fresh_wrt(fetched.drop_last(), stored);
        let p = choose|p: int| 0 <= p < rest.len() && rest[p] == fetched[k];
        assert(fresh[p] == fetched[k]);
    }
}

/// Once every fetched guid is stored, nothing is fresh any more.
pub proof fn lemma_fresh_all_known(fetched: Seq<NewItem>, stored: Seq<Item>)
    requires
        forall|k: int| 0 <= k < fetched.len() ==> guid_known(stored, (#[trigger] fetched[k]).guid@),
    ensures
        fresh_wrt(fetched, stored).len() == 0,
    decreases fetched.len(),
{
    if fetched.len() == 0 {
    } else {
        assert(forall|k: int|
            0 <= k < fetched.drop_last().len() ==> guid_known(
                stored,
                (#[trigger] fetched.drop_last()[k]).guid@,
            )) by {
            assert(forall|k: int|
                0 <= k < fetched.drop_last().len() ==> fetched.drop_last()[k] == fetched[k]);
        }
        lemma_fresh_all_known(fetched.drop_last(), stored);
        assert(guid_known(stored, fetched[fetched.len() - 1].guid@));
    }
}

/// Law: re-fetching entries whose stored publication dates are unchanged
/// writes nothing at all — nothing is inserted, no row is overwritten.
pub proof fn lemma_unchanged_refetch_writes_nothing(fetched: Seq<NewItem>, stored: Seq<Item>)
    requires
        forall|k: int| 0 <= k < fetched.len() ==> guid_known(stored, (#[trigger] fetched[k]).guid@),
        forall|k: int|
            0 <= k < fetched.len() ==> first_known(
                stored,
                (#[trigger] fetched[k]).guid@,
            ).unwrap().published_at == fetched[k].published_at,
    ensures
        fresh_wrt(fetched, stored) == Seq::<NewItem>::empty(),
        updates_wrt(fetched, stored) == Seq::<(i32, NewItem)>::empty(),
        apply_updates(stored, updates_wrt(fetched, stored)) == stored,
    decreases fetched.len(),
{
    if fetched.len() == 0 {
        assert(fresh_wrt(fetched, stored) =~= Seq::<NewItem>::empty());
        assert(updates_wrt(fetched, stored) =~= Seq::<(i32, NewItem)>::empty());
    } else {
        assert(forall|k: int|
            0 <= k < fetched.drop_last().len() ==> fetched.drop_last()[k] == fetched[k]);
        lemma_unchanged_refetch_writes_nothing(fetched.drop_last(), stored);
        let last = fetched[fetched.len() - 1];
        assert(guid_known(stored, last.guid@));
        lemma_first_known_some(stored, last.guid@);
        assert(first_known(stored, last.guid@).unwrap().published_at == last.published_at);
    }
}

/// Law: synchronizing against a document whose entries all sit in storage
/// under unchanged publication dates leaves the whole store as it was.
pub proof fn lemma_unchanged_refetch_is_noop(
    s0: Store,
    s1: Store,
    feed_id: i32,
    fetched: Seq<FetchedItem>,
    subs: Seq<i32>,
)
    requires
        sync_ok(s0, s1, feed_id, fetched, subs),
        forall|k: int|
            0 <= k < fetched.len() ==> guid_known(
                s0.items@,
                (#[trigger] spec_attach(fetched, feed_id)[k]).guid@,
            ),
        forall|k: int|
            0 <= k < fetched.len() ==> first_known(
                s0.items@,
                (#[trigger] spec_attach(fetched, feed_id)[k]).guid@,
            ).unwrap().published_at == spec_attach(fetched, feed_id)[k].published_at,
    ensures
        s1.items@ == s0.items@,
        s1.subscribed_items@ == s0.subscribed_items@,
        s1.next_item_id == s0.next_item_id,
        s1.next_subscribed_item_id == s0.next_subscribed_item_id,
{
    let att = spec_attach(fetched, feed_id);
    lemma_unchanged_refetch_writes_nothing(att, s0.items@);
    let fresh = fresh_wrt(att, s0.items@);
    assert(crate::store::inserted_items(fresh, s0.next_item_id as int).len() == 0);
    assert(s1.items@ =~= s0.items@);
    let ids = new_item_ids(s0.next_item_id as int, 0);
    lemma_fanout_len(subs, ids);
    assert(subs.len() * ids.len() == 0);
    assert(crate::store::sub_rows_of(fanout(subs, ids), s0.next_subscribed_item_id as int).len()
        == 0);
    assert(s1.subscribed_items@ =~= s0.subscribed_items@);
}

/// Law: running a feed's synchronization a second time against an
/// unchanged remote feed adds no item row and no visibility row.
pub proof fn lemma_second_sync_adds_nothing(
    s0: Store,
    s1: Store,
    s2: Store,
    feed_id: i32,
    fetched: Seq<FetchedItem>,
    subs: Seq<i32>,
)
    requires
        sync_ok(s0, s1, feed_id, fetched, subs),
        sync_ok(s1, s2, feed_id, fetched, subs),
    ensures
        s2.items@.len() == s1.items@.len(),
        s2.subscribed_items@ == s1.subscribed_items@,
        s2.next_item_id == s1.next_item_id,
{
    let att = spec_attach(fetched, feed_id);
    let ups1 = updates_wrt(att, s0.items@);
    let fresh1 = fresh_wrt(att, s0.items@);
    let applied1 = apply_updates(s0.items@, ups1);
    let ins1 = crate::store::inserted_items(fresh1, s0.next_item_id as int);
    lemma_apply_updates_shape(s0.items@, ups1);
    assert forall|k: int| 0 <= k < att.len() implies guid_known(
        s1.items@,
        (#[trigger] att[k]).guid@,
    ) by {
        let g = att[k].guid@;
        if guid_known(s0.items@, g) {
            let j = choose|j: int| 0 <= j < s0.items@.len() && #[trigger] s0.items@[j].guid@ == g;
            assert(s1.items@[j] == applied1[j]);
            assert(s1.items@[j].guid@ == g);
        } else {
            lemma_fresh_has_unknown(att, s0.items@, k);
            let p = choose|p: int| 0 <= p < fresh1.len() && #[trigger] fresh1[p] == att[k];
            assert(ins1[p].guid == fresh1[p].guid);
            assert(s1.items@[applied1.len() + p] == ins1[p]);
            assert(s1.items@[applied1.len() + p].guid@ == g);
        }
    }
    lemma_fresh_all_known(att, s1.items@);
    let fresh2 = fresh_wrt(att, s1.items@);
    let ups2 = updates_wrt(att, s1.items@);
    assert(fresh2.len() == 0);
    lemma_apply_updates_shape(s1.items@, ups2);
    assert(crate::store::inserted_items(fresh2, s1.next_item_id as int).len() == 0);
    assert(s2.items@.len() == s1.items@.len());
    let ids2 = new_item_ids(s1.next_item_id as int, fresh2.len());
    lemma_fanout_len(subs, ids2);
    assert(subs.len() * ids2.len() == 0);
    assert(fanout(subs, ids2) =~= Seq::<(i32, i32, bool)>::empty());
    assert(crate::store::sub_rows_of(
        fanout(subs, ids2),
        s1.next_subscribed_item_id as int,
    ).len() == 0);
    assert(s2.subscribed_items@ =~= s1.subscribed_items@);
}

/// Law: attaching one new reader to a feed with a stored backlog makes
/// exactly one visibility row per backlog item, each unseen and naming
/// that reader and that item.
pub proof fn lemma_backfill_rows(u: i32, ids: Seq<i32>, first_id: int)
    ensures
        crate::store::sub_rows_of(fanout(seq![u], ids), first_id).len() == ids.len(),
        forall|k: int|
            0 <= k < ids.len() ==> {
                let row = #[trigger] crate::store::sub_rows_of(fanout(seq![u], ids), first_id)[k];
                &&& row.user_id == u
                &&& row.item_id == ids[k]
                &&& row.seen == false
            },
{
    let subs = seq![u];
    assert(subs.drop_last() =~= Seq::<i32>::empty());
    lemma_fanout_block_props(u, ids);
    assert(subs.last() == u);
    assert(fanout(Seq::<i32>::empty(), ids) =~= Seq::<(i32, i32, bool)>::empty());
    assert(fanout(subs, ids) == fanout(Seq::<i32>::empty(), ids) + fanout_block(u, ids));
    assert(Seq::<(i32, i32, bool)>::empty() + fanout_block(u, ids) =~= fanout_block(u, ids));
    assert(fanout(subs, ids) =~= fanout_block(u, ids));
}

/// How many stored items carry the guid `g`.
pub open spec fn count_items_with_guid(items: Seq<Item>, g: Seq<char>) -> int
    decreases items.len(),
{
    if items.len() == 0 {
        0
    } else {
        count_items_with_guid(items.drop_last(), g) + (if items.last().guid@ == g {
            1int
        } else {
            0int
        })
    }
}

/// How many fetched-and-attached entries carry the guid `g`.
pub open spec fn count_new_with_guid(items: Seq<NewItem>, g: Seq<char>) -> int
    decreases items.len(),
{
    if items.len() == 0 {
        0
    } else {
        count_new_with_guid(items.drop_last(), g) + (if items.last().guid@ == g {
            1int
        } else {
            0int
        })
    }
}

/// How many entries of a fetched document carry the guid `g`.
pub open spec fn count_fetched_with_guid(items: Seq<FetchedItem>, g: Seq<char>) -> int
    decreases items.len(),
{
    if items.len() == 0 {
        0
    } else {
        count_fetched_with_guid(items.drop_last(), g) + (if items.last().guid@ == g {
            1int
        } else {
            0int
        })
    }
}

/// How many visibility rows pair the user `u` with the item `iid`.
pub open spec fn count_vis_rows(
    rows: Seq<crate::store::SubscribedItemRow>,
    u: i32,
    iid: i32,
) -> int
    decreases rows.len(),
{
    if rows.len() == 0 {
        0
    } else {
        count_vis_rows(rows.drop_last(), u, iid) + (if rows.last().user_id == u
            && rows.last().item_id == iid {
            1int
        } else {
            0int
        })
    }
}

/// How many fan-out triples pair the user `u` with the item `iid`.
pub open spec fn count_pairs(rows: Seq<(i32, i32, bool)>, u: i32, iid: i32) -> int
    decreases rows.len(),
{
    if rows.len() == 0 {
        0
    } else {
        count_pairs(rows.drop_last(), u, iid) + (if rows.last().0 == u && rows.last().1 == iid {
            1int
        } else {
            0int
        })
    }
}

/// How often `x` occurs in a list of ids.
pub open spec fn count_id(ids: Seq<i32>, x: i32) -> int
    decreases ids.len(),
{
    if ids.len() == 0 {
        0
    } else {
        count_id(ids.drop_last(), x) + (if ids.last() == x {
            1int
        } else {
            0int
        })
    }
}

/// Guid counts add up over concatenation.
pub proof fn lemma_count_items_concat(a: Seq<Item>, b: Seq<Item>, g: Seq<char>)
    ensures
        count_items_with_guid(a + b, g) == count_items_with_guid(a, g) + count_items_with_guid(
            b,
            g,
        ),
    decreases b.len(),
{
    if b.len() == 0 {
        assert(a + b =~= a);
    } else {
        assert((a + b).drop_last() =~= a + b.drop_last());
        assert((a + b).last() == b.last());
        lemma_count_items_concat(a, b.drop_last(), g);
    }
}

/// Visibility counts add up over concatenation.
pub proof fn lemma_count_vis_concat(
    a: Seq<crate::store::SubscribedItemRow>,
    b: Seq<crate::store::SubscribedItemRow>,
    u: i32,
    iid: i32,
)
    ensures
        count_vis_rows(a + b, u, iid) == count_vis_rows(a, u, iid) + count_vis_rows(b, u, iid),
    decreases b.len(),
{
    if b.len() == 0 {
        assert(a + b =~= a);
    } else {
        assert((a + b).drop_last() =~= a + b.drop_last());
        assert((a + b).last() == b.last());
        lemma_count_vis_concat(a, b.drop_last(), u, iid);
    }
}

/// Pair counts add up over concatenation.
pub proof fn lemma_count_pairs_concat(a: Seq<(i32, i32, bool)>, b: Seq<(i32, i32, bool)>, u: i32, iid: i32)
    ensures
        count_pairs(a + b, u, iid) == count_pairs(a, u, iid) + count_pairs(b, u, iid),
    decreases b.len(),
{
    if b.len() == 0 {
        assert(a + b =~= a);
    } else {
        assert((a + b).drop_last() =~= a + b.drop_last());
        assert((a + b).last() == b.last());
        lemma_count_pairs_concat(a, b.drop_last(), u, iid);
    }
}

/// Two item lists whose guids agree position by position count alike.
pub proof fn lemma_count_items_pointwise(a: Seq<Item>, b: Seq<Item>, g: Seq<char>)
    requires
        a.len() == b.len(),
        forall|j: int| 0 <= j < a.len() ==> (#[trigger] a[j]).guid == b[j].guid,
    ensures
        count_items_with_guid(a, g) == count_items_with_guid(b, g),
    decreases a.len(),
{
    if a.len() == 0 {
    } else {
        assert(forall|j: int|
            0 <= j < a.drop_last().len() ==> (#[trigger] a.drop_last()[j]).guid
                == b.drop_last()[j].guid) by {
            assert(forall|j: int|
                0 <= j < a.drop_last().len() ==> a.drop_last()[j] == a[j] && b.drop_last()[j]
                    == b[j]);
        }
        lemma_count_items_pointwise(a.drop_last(), b.drop_last(), g);
        assert(a.last().guid == b.last().guid);
    }
}

/// Storing new entries keeps their guid count.
pub proof fn lemma_count_inserted(new: Seq<NewItem>, first_id: int, g: Seq<char>)
    ensures
        count_items_with_guid(crate::store::inserted_items(new, first_id), g)
            == count_new_with_guid(new, g),
    decreases new.len(),
{
    let ins = crate::store::inserted_items(new, first_id);
    if new.len() == 0 {
    } else {
        assert(ins.drop_last() =~= crate::store::inserted_items(new.drop_last(), first_id));
        assert(ins.last() == crate::store::item_of(new.last(), first_id + new.len() - 1));
        lemma_count_inserted(new.drop_last(), first_id, g);
    }
}

/// A guid storage has never seen counts to zero.
pub proof fn lemma_count_unknown_zero(stored: Seq<Item>, g: Seq<char>)
    requires
        !guid_known(stored, g),
    ensures
        count_items_with_guid(stored, g) == 0,
    decreases stored.len(),
{
    if stored.len() == 0 {
    } else {
        assert(!guid_known(stored.drop_last(), g)) by {
            if guid_known(stored.drop_last(), g) {
                let j = choose|j: int|
                    0 <= j < stored.drop_last().len() && stored.drop_last()[j].guid@ == g;
                assert(stored[j].guid@ == g);
            }
        }
        lemma_count_unknown_zero(stored.drop_last(), g);
        assert(stored[stored.len() - 1].guid@ != g);
    }
}

/// For a guid storage has never seen, reconciliation keeps every carrier
/// among the new entries.
pub proof fn lemma_count_fresh(fetched: Seq<NewItem>, stored: Seq<Item>, g: Seq<char>)
    requires
        !guid_known(stored, g),
    ensures
        count_new_with_guid(fresh_wrt(fetched, stored), g) == count_new_with_guid(fetched, g),
    decreases fetched.len(),
{
    if fetched.len() == 0 {
    } else {
        lemma_count_fresh(fetched.drop_last(), stored, g);
        let rest = fresh_wrt(fetched.drop_last(), stored);
        if !guid_known(stored, fetched.last().guid@) {
            assert(fresh_wrt(fetched, stored) == rest.push(fetched.last()));
            assert(rest.push(fetched.last()).drop_last() =~= rest);
        } else {
            assert(fetched.last().guid@ != g);
        }
    }
}

/// Attaching the owning feed keeps every guid count.
pub proof fn lemma_count_attach(fetched: Seq<FetchedItem>, fid: i32, g: Seq<char>)
    ensures
        count_new_with_guid(spec_attach(fetched, fid), g) == count_fetched_with_guid(fetched, g),
    decreases fetched.len(),
{
    let att = spec_attach(fetched, fid);
    if fetched.len() == 0 {
    } else {
        assert(att.drop_last() =~= spec_attach(fetched.drop_last(), fid));
        assert(att.last().guid == fetched.last().guid);
        lemma_count_attach(fetched.drop_last(), fid, g);
    }
}

/// Rows that can only point below a bound never pair with an id at or
/// above it.
pub proof fn lemma_count_vis_zero(
    rows: Seq<crate::store::SubscribedItemRow>,
    u: i32,
    iid: i32,
    bound: i32,
)
    requires
        forall|k: int| 0 <= k < rows.len() ==> (#[trigger] rows[k]).item_id < bound,
        iid >= bound,
    ensures
        count_vis_rows(rows, u, iid) == 0,
    decreases rows.len(),
{
    if rows.len() == 0 {
    } else {
        assert(forall|k: int|
            0 <= k < rows.drop_last().len() ==> (#[trigger] rows.drop_last()[k]).item_id < bound);
        lemma_count_vis_zero(rows.drop_last(), u, iid, bound);
        assert(rows[rows.len() - 1].item_id < bound);
    }
}

/// Giving fan-out triples their generated ids keeps the pair counts.
pub proof fn lemma_count_sub_rows(rows: Seq<(i32, i32, bool)>, first_id: int, u: i32, iid: i32)
    ensures
        count_vis_rows(crate::store::sub_rows_of(rows, first_id), u, iid) == count_pairs(
            rows,
            u,
            iid,
        ),
    decreases rows.len(),
{
    let sub = crate::store::sub_rows_of(rows, first_id);
    if rows.len() == 0 {
    } else {
        assert(sub.drop_last() =~= crate::store::sub_rows_of(rows.drop_last(), first_id));
        assert(sub.last().user_id == rows.last().0 && sub.last().item_id == rows.last().1);
        lemma_count_sub_rows(rows.drop_last(), first_id, u, iid);
    }
}

/// One subscriber's block pairs that subscriber with an id as often as
/// the id was listed, and pairs nobody else with anything.
pub proof fn lemma_count_block(s: i32, ids: Seq<i32>, u: i32, iid: i32)
    ensures
        count_pairs(fanout_block(s, ids), u, iid) == if s == u {
            count_id(ids, iid)
        } else {
            0int
        },
    decreases ids.len(),
{
    if ids.len() == 0 {
    } else {
        lemma_count_block(s, ids.drop_last(), u, iid);
        let rest = fanout_block(s, ids.drop_last());
        assert(fanout_block(s, ids) == rest.push((s, ids.last(), false)));
        assert(rest.push((s, ids.last(), false)).drop_last() =~= rest);
    }
}

/// The fan-out pairs a user with an id exactly as often as both were
/// listed.
pub proof fn lemma_count_fanout(subs: Seq<i32>, ids: Seq<i32>, u: i32, iid: i32)
    ensures
        count_pairs(fanout(subs, ids), u, iid) == count_id(subs, u) * count_id(ids, iid),
    decreases subs.len(),
{
    if subs.len() == 0 {
    } else {
        lemma_count_fanout(subs.drop_last(), ids, u, iid);
        lemma_count_block(subs.last(), ids, u, iid);
        lemma_count_pairs_concat(
            fanout(subs.drop_last(), ids),
            fanout_block(subs.last(), ids),
            u,
            iid,
        );
        let cs = count_id(subs.drop_last(), u);
        let ci = count_id(ids, iid);
        let b: int = if subs.last() == u {
            1
        } else {
            0
        };
        assert(count_id(subs, u) == cs + b);
        assert((cs + b) * ci == cs * ci + b * ci) by (nonlinear_arith);
    }
}

/// An id that never occurs counts to zero.
pub proof fn lemma_count_id_zero(ids: Seq<i32>, x: i32)
    requires
        forall|k: int| 0 <= k < ids.len() ==> (#[trigger] ids[k]) != x,
    ensures
        count_id(ids, x) == 0,
    decreases ids.len(),
{
    if ids.len() == 0 {
    } else {
        assert(forall|k: int|
            0 <= k < ids.drop_last().len() ==> (#[trigger] ids.drop_last()[k]) != x);
        lemma_count_id_zero(ids.drop_last(), x);
        assert(ids[ids.len() - 1] != x);
    }
}

/// In a duplicate-free list every member counts to one.
pub proof fn lemma_count_id_distinct(ids: Seq<i32>, a: int)
    requires
        0 <= a < ids.len(),
        forall|x: int, y: int| 0 <= x < y < ids.len() ==> ids[x] != ids[y],
    ensures
        count_id(ids, ids[a]) == 1,
    decreases ids.len(),
{
    if a == ids.len() - 1 {
        assert(forall|k: int|
            0 <= k < ids.drop_last().len() ==> (#[trigger] ids.drop_last()[k]) != ids[a]);
        lemma_count_id_zero(ids.drop_last(), ids[a]);
    } else {
        assert(ids.drop_last()[a] == ids[a]);
        lemma_count_id_distinct(ids.drop_last(), a);
        assert(ids[ids.len() - 1] != ids[a]);
    }
}

/// The ids one generator run hands out are pairwise distinct, and each
/// counts to one.
pub proof fn lemma_ids_count(first_id: int, n: nat, p: int)
    requires
        0 <= p < n,
        0 <= first_id,
        first_id + n <= i32::MAX,
    ensures
        count_id(new_item_ids(first_id, n), new_item_ids(first_id, n)[p]) == 1,
{
    let ids = new_item_ids(first_id, n);
    assert(forall|x: int, y: int| 0 <= x < y < ids.len() ==> ids[x] != ids[y]);
    lemma_count_id_distinct(ids, p);
}

/// A positive count names a carrier.
pub proof fn lemma_count_new_pos(items: Seq<NewItem>, g: Seq<char>)
    requires
        count_new_with_guid(items, g) > 0,
    ensures
        exists|p: int| 0 <= p < items.len() && (#[trigger] items[p]).guid@ == g,
    decreases items.len(),
{
    if items.len() == 0 {
    } else {
        if items.last().guid@ == g {
            assert(items[items.len() - 1].guid@ == g);
        } else {
            lemma_count_new_pos(items.drop_last(), g);
            let p = choose|p: int|
                0 <= p < items.drop_last().len() && (#[trigger] items.drop_last()[p]).guid@ == g;
            assert(items[p].guid@ == g);
        }
    }
}

/// Law: synchronizing a feed whose document offers a storage-unseen guid
/// exactly once creates exactly one item row carrying it, and exactly one
/// visibility row per subscriber for that item, every fanned-out row
/// unseen.
pub proof fn lemma_new_entry_once(
    s0: Store,
    s1: Store,
    feed_id: i32,
    fetched: Seq<FetchedItem>,
    subs: Seq<i32>,
    g: Seq<char>,
    a: int,
)
    requires
        s0.wf(),
        0 <= s0.next_item_id,
        sync_ok(s0, s1, feed_id, fetched, subs),
        !guid_known(s0.items@, g),
        count_fetched_with_guid(fetched, g) == 1,
        forall|x: int, y: int| 0 <= x < y < subs.len() ==> subs[x] != subs[y],
        0 <= a < subs.len(),
    ensures
        count_items_with_guid(s1.items@, g) == 1,
        exists|p: int|
            {
                &&& 0 <= p < fresh_wrt(spec_attach(fetched, feed_id), s0.items@).len()
                &&& (#[trigger] fresh_wrt(spec_attach(fetched, feed_id), s0.items@)[p]).guid@ == g
                &&& count_vis_rows(
                    s1.subscribed_items@,
                    subs[a],
                    new_item_ids(
                        s0.next_item_id as int,
                        fresh_wrt(spec_attach(fetched, feed_id), s0.items@).len(),
                    )[p],
                ) == 1
            },
        forall|k: int|
            s0.subscribed_items@.len() <= k < s1.subscribed_items@.len()
                ==> (#[trigger] s1.subscribed_items@[k]).seen == false,
{
    let att = spec_attach(fetched, feed_id);
    let ups = updates_wrt(att, s0.items@);
    let fresh = fresh_wrt(att, s0.items@);
    let applied = apply_updates(s0.items@, ups);
    let ins = crate::store::inserted_items(fresh, s0.next_item_id as int);
    let ids = new_item_ids(s0.next_item_id as int, fresh.len());

    // exactly one item row carries g afterwards
    lemma_apply_updates_shape(s0.items@, ups);
    lemma_count_items_pointwise(applied, s0.items@, g);
    lemma_count_unknown_zero(s0.items@, g);
    lemma_count_items_concat(applied, ins, g);
    lemma_count_inserted(fresh, s0.next_item_id as int, g);
    lemma_count_fresh(att, s0.items@, g);
    lemma_count_attach(fetched, feed_id, g);
    assert(count_items_with_guid(s1.items@, g) == 1);

    // the one fresh carrier of g sits at some position p
    lemma_count_new_pos(fresh, g);
    let p = choose|p: int| 0 <= p < fresh.len() && (#[trigger] fresh[p]).guid@ == g;

    // old rows cannot name the freshly generated id
    lemma_fresh_len(att, s0.items@);
    assert(s0.next_item_id + fresh.len() <= i32::MAX) by {
        assert(s1.next_item_id == s0.next_item_id + fresh.len());
    }
    assert(ids[p] == s0.next_item_id + p);
    lemma_count_vis_zero(s0.subscribed_items@, subs[a], ids[p], s0.next_item_id);

    // the fan-out names it exactly once for each subscriber
    let rows = crate::store::sub_rows_of(fanout(subs, ids), s0.next_subscribed_item_id as int);
    lemma_count_vis_concat(s0.subscribed_items@, rows, subs[a], ids[p]);
    lemma_count_sub_rows(fanout(subs, ids), s0.next_subscribed_item_id as int, subs[a], ids[p]);
    lemma_count_fanout(subs, ids, subs[a], ids[p]);
    lemma_count_id_distinct(subs, a);
    lemma_ids_count(s0.next_item_id as int, fresh.len(), p);
    assert(count_id(subs, subs[a]) * count_id(ids, ids[p]) == 1);
    assert(count_vis_rows(s1.subscribed_items@, subs[a], ids[p]) == 1);

    // every fanned-out row is unseen
    lemma_fanout_elems(subs, ids);
    assert forall|k: int|
        s0.subscribed_items@.len() <= k < s1.subscribed_items@.len() implies (
    #[trigger] s1.subscribed_items@[k]).seen == false by {
        let t = k - s0.subscribed_items@.len();
        assert(s1.subscribed_items@[k] == rows[t]);
        assert(rows[t].seen == fanout(subs, ids)[t].2);
    }
}

/// Law: a feed with no subscribers synchronizes to completion without a
/// single visibility row being made.
pub proof fn lemma_no_subscribers_no_visibility(
    s0: Store,
    s1: Store,
    feed_id: i32,
    fetched: Seq<FetchedItem>,
)
    requires
        sync_ok(s0, s1, feed_id, fetched, Seq::<i32>::empty()),
    ensures
        s1.subscribed_items@ == s0.subscribed_items@,
{
    let att = spec_attach(fetched, feed_id);
    let fresh = fresh_wrt(att, s0.items@);
    let ids = new_item_ids(s0.next_item_id as int, fresh.len());
    assert(fanout(Seq::<i32>::empty(), ids) =~= Seq::<(i32, i32, bool)>::empty());
    assert(crate::store::sub_rows_of(
        fanout(Seq::<i32>::empty(), ids),
        s0.next_subscribed_item_id as int,
    ).len() == 0);
    assert(s1.subscribed_items@ =~= s0.subscribed_items@);
}

} // verus!
