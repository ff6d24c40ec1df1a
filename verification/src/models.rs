use vstd::prelude::*;

verus! {

use crate::datetime::Timestamp;
use crate::store::Item;

/// One row of the per-user item view: an item joined with the reader's
/// visibility record.
pub struct SubscribedItem {
    pub id: i32,
    pub guid: String,
    pub link: String,
    pub title: String,
    pub summary: Option<String>,
    pub content: Option<String>,
    pub published_at: Option<Timestamp>,
    pub updated_at: Option<Timestamp>,
    pub feed_id: i32,
    pub subscribed_item_id: i32,
    pub user_id: i32,
    pub seen: bool,
}

/// One row of the per-user feed view, with the count of unseen items.
pub struct SubscribedFeed {
    pub id: i32,
    pub title: String,
    pub description: Option<String>,
    pub site_link: String,
    pub feed_link: String,
    pub updated_at: Timestamp,
    pub user_id: i32,
    pub unseen_count: i32,
}

/// The shape items are presented in, whether or not a read-state record
/// backs them.
pub struct CompositeItem {
    pub id: i32,
    pub title: String,
    pub link: String,
    pub summary: Option<String>,
    pub content: Option<String>,
    pub published_at: Option<Timestamp>,
    pub updated_at: Option<Timestamp>,
    pub seen: bool,
}

/// Copy an optional string, field for field.
pub fn clone_opt_string(s: &Option<String>) -> (r: Option<String>)
    ensures
        r == *s,
{
    match s {
        Some(x) => Some(x.clone()),
        None => None,
    }
}

/// Compare two byte vectors element by element.
pub fn bytes_eq(a: &Vec<u8>, b: &Vec<u8>) -> (r: bool)
    ensures
        r == (a@ == b@),
{
    if a.len() != b.len() {
        return false;
    }
    let mut i: usize = 0;
    while i < a.len()
        invariant
            0 <= i <= a@.len(),
            a@.len() == b@.len(),
            forall|k: int| 0 <= k < i ==> a@[k] == b@[k],
        decreases a@.len() - i,
    {
        if a[i] != b[i] {
            return false;
        }
        i = i + 1;
    }
    proof {
        assert(a@ =~= b@);
    }
    true
}

impl CompositeItem {
    /// Present a bare item; nobody has seen a fresh one.
    pub fn from_item(item: &Item) -> (c: CompositeItem)
        ensures
            c.id == item.id,
            c.title == item.title,
            c.link == item.link,
            c.summary == item.summary,
            c.content == item.content,
            c.published_at == item.published_at,
            c.updated_at == item.updated_at,
            c.seen == false,
    {
        CompositeItem {
            id: item.id,
            title: item.title.clone(),
            link: item.link.clone(),
            summary: clone_opt_string(&item.summary),
            content: clone_opt_string(&item.content),
            published_at: item.published_at,
            updated_at: item.updated_at,
            seen: false,
        }
    }

    /// Present a row of the per-user view, keeping its read state.
    pub fn from_subscribed(item: &SubscribedItem) -> (c: CompositeItem)
        ensures
            c.id == item.id,
            c.title == item.title,
            c.link == item.link,
            c.summary == item.summary,
            c.content == item.content,
            c.published_at == item.published_at,
            c.updated_at == item.updated_at,
            c.seen == item.seen,
    {
        CompositeItem {
            id: item.id,
            title: item.title.clone(),
            link: item.link.clone(),
            summary: clone_opt_string(&item.summary),
            content: clone_opt_string(&item.content),
            published_at: item.published_at,
            updated_at: item.updated_at,
            seen: item.seen,
        }
    }
}

/// An account; the password is stored as the base64 form of its digest.
pub struct User {
    pub id: i32,
    pub username: String,
    pub password_hash: Vec<u8>,
}

/// The SHA-256 digest of a string's characters.
pub uninterp spec fn sha256_of(s: Seq<char>) -> Seq<u8>;

/// The base64 encoding of a byte sequence.
pub uninterp spec fn base64_of(bytes: Seq<u8>) -> Seq<char>;

/// The base64 reading of a byte sequence, if it is well formed.
pub uninterp spec fn base64_decoded(bytes: Seq<u8>) -> Option<Seq<u8>>;

/// Relies on sha2's `Sha256` through `Digest::digest`: the digest is a
/// function of the input bytes alone.
#[verifier::external_body]
fn sha256(s: &str) -> (r: Vec<u8>)
    ensures
        r@ == sha256_of(s@),
{
    <sha2::Sha256 as sha2::Digest>::digest(s.as_bytes()).to_vec()
}

/// Relies on base64's `encode`: the encoding is a function of the input
/// bytes alone.
#[verifier::external_body]
fn b64_encode(bytes: &[u8]) -> (r: String)
    ensures
        r@ == base64_of(bytes@),
{
    base64::encode(bytes)
}

/// Relies on base64's `decode`: the result is a function of the input bytes
/// alone, and `Err` marks malformed input.
#[verifier::external_body]
fn b64_decode(bytes: &[u8]) -> (r: Option<Vec<u8>>)
    ensures
        r is Some <==> base64_decoded(bytes@) is Some,
        r is Some ==> base64_decoded(bytes@) == Some(r.unwrap()@),
{
    match base64::decode(bytes) {
        Ok(v) => Some(v),
        Err(_) => None,
    }
}

/// A stored hash accepts a password when it is the base64 form of the
/// password's digest.
pub open spec fn password_matches(stored_hash: Seq<u8>, pass: Seq<char>) -> bool {
    base64_decoded(stored_hash) == Some(sha256_of(pass))
}

impl User {
    /// Accept a looked-up account exactly when its stored hash matches the
    /// offered password.
    pub fn check_user(found: Option<User>, pass: &str) -> (r: Option<User>)
        ensures
            r is Some <==> (found is Some && password_matches(
                found.unwrap().password_hash@,
                pass@,
            )),
            r is Some ==> r == found,
    {
        match found {
            Some(user) => {
                if user.verifies(pass) {
                    Some(user)
                } else {
                    None
                }
            },
            None => None,
        }
    }

    /// Hash a password for storage: base64 of its SHA-256 digest.
    pub fn hash_pw(s: &str) -> (r: String)
        ensures
            r@ == base64_of(sha256_of(s@)),
    {
        let digest = sha256(s);
        b64_encode(digest.as_slice())
    }

    /// Whether the offered password hashes to the stored value. A stored
    /// hash that is not well-formed base64 matches no password.
    fn verifies(&self, pass: &str) -> (r: bool)
        ensures
            r == password_matches(self.password_hash@, pass@),
    {
        match b64_decode(self.password_hash.as_slice()) {
            Some(orig_hash) => {
                let hashed_pw = sha256(pass);
                bytes_eq(&orig_hash, &hashed_pw)
            },
            None => false,
        }
    }
}

/// What an authentication token asserts: who is signed in.
pub struct Claims {
    pub name: String,
    pub id: i32,
}

} // verus!
