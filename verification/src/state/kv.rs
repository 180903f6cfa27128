//! The embedded key-value engine as the tables see it: a keyspace is a map
//! from byte strings to byte strings, listed in the byte order of its keys.
//!
//! The functions that call the engine are believed, not proved. Each states
//! what the engine's own source shows of the call it makes, for a keyspace
//! that no other handle writes to while the call runs: a table owns its handle
//! and writes through an exclusive reference, and the keyspaces are opened in
//! one place only, each once. A write waits while the buffer of a subscription
//! to its keyspace is full; how long a call takes is outside every contract
//! here.

use vstd::prelude::*;
use vstd::utf8::encode_utf8;
use crate::state::codec::bytes_lt;
use crate::state::codec::lemma_bytes_lt_asymmetric;

verus! {

/// `sled::Tree`: the handle of one keyspace. Nothing inside it is visible.
#[verifier::external_type_specification]
#[verifier::external_body]
pub struct ExTree(sled::Tree);

/// `sled::Db`: the open database, from which keyspaces are opened.
#[verifier::external_type_specification]
#[verifier::external_body]
pub struct ExDb(sled::Db);

/// `sled::Error`: a failure of the engine, carried through as it is.
#[verifier::external_type_specification]
#[verifier::external_body]
pub struct ExStorageError(sled::Error);

/// `sled::Subscriber`: a subscription to the changes of a keyspace, handed
/// to whoever waits for them.
#[verifier::external_type_specification]
#[verifier::external_body]
pub struct ExSubscriber(sled::Subscriber);

/// `sled::Event`: what a subscription yields. It is declared because the
/// subscription's type names it.
#[verifier::external_type_specification]
#[verifier::external_body]
pub struct ExEvent(sled::Event);

/// What a keyspace holds: each stored key with its value. The wrappers below
/// say what each call of the engine reads of it or makes of it.
pub uninterp spec fn tree_entries(tree: sled::Tree) -> Map<Seq<u8>, Seq<u8>>;

/// The name under which a keyspace was opened: what `sled::Tree::name`
/// gives for it.
pub uninterp spec fn tree_name(tree: sled::Tree) -> Seq<u8>;

/// Whether `rows` lists `entries` completely, each key once, in ascending byte
/// order of the keys.
pub open spec fn lists(rows: Seq<(Vec<u8>, Vec<u8>)>, entries: Map<Seq<u8>, Seq<u8>>) -> bool {
    &&& forall|i: int|
        0 <= i < rows.len() ==> entries.contains_key(#[trigger] rows[i].0@) && entries[rows[i].0@]
            == rows[i].1@
    &&& forall|k: Seq<u8>| #[trigger]
        entries.contains_key(k) ==> exists|i: int| 0 <= i < rows.len() && #[trigger] rows[i].0@ == k
    &&& forall|i: int, j: int|
        0 <= i < j < rows.len() ==> bytes_lt(#[trigger] rows[i].0@, #[trigger] rows[j].0@)
}

/// A listing has one row for each stored key.
pub proof fn lemma_lists_len(rows: Seq<(Vec<u8>, Vec<u8>)>, entries: Map<Seq<u8>, Seq<u8>>)
    requires
        lists(rows, entries),
    ensures
        entries.dom().finite(),
        rows.len() == entries.dom().len(),
{
    let keys = Seq::new(rows.len(), |i: int| rows[i].0@);
    assert forall|i: int, j: int| 0 <= i < keys.len() && 0 <= j < keys.len() && i != j implies keys[i]
        != keys[j] by {
        if i < j {
            assert(bytes_lt(rows[i].0@, rows[j].0@));
        } else {
            assert(bytes_lt(rows[j].0@, rows[i].0@));
        }
    }
    assert forall|k: Seq<u8>| keys.to_set().contains(k) == entries.dom().contains(k) by {
        if entries.dom().contains(k) {
            let i = choose|i: int| 0 <= i < rows.len() && #[trigger] rows[i].0@ == k;
            assert(keys[i] == k);
        }
        if keys.to_set().contains(k) {
            let i = choose|i: int| 0 <= i < keys.len() && keys[i] == k;
            assert(entries.contains_key(rows[i].0@));
        }
    }
    assert(keys.to_set() =~= entries.dom());
    keys.unique_seq_to_set();
    vstd::seq_lib::seq_to_set_is_finite(keys);
}

/// A keyspace has one listing: two listings of the same entries hold the
/// same keys with the same values, place by place.
pub proof fn lemma_lists_unique(
    a: Seq<(Vec<u8>, Vec<u8>)>,
    b: Seq<(Vec<u8>, Vec<u8>)>,
    entries: Map<Seq<u8>, Seq<u8>>,
    upto: int,
)
    requires
        lists(a, entries),
        lists(b, entries),
        0 <= upto <= a.len(),
    ensures
        a.len() == b.len(),
        forall|i: int| 0 <= i < upto ==> (#[trigger] a[i]).0@ == b[i].0@ && a[i].1@ == b[i].1@,
    decreases upto,
{
    lemma_lists_len(a, entries);
    lemma_lists_len(b, entries);
    if upto > 0 {
        lemma_lists_unique(a, b, entries, upto - 1);
        let i = upto - 1;
        let x = a[i].0@;
        let y = b[i].0@;
        assert(entries.contains_key(x) && entries.contains_key(y));
        let m = choose|m: int| 0 <= m < b.len() && #[trigger] b[m].0@ == x;
        let n = choose|n: int| 0 <= n < a.len() && #[trigger] a[n].0@ == y;
        if m < i {
            assert(a[m].0@ == b[m].0@);
            assert(bytes_lt(a[m].0@, a[i].0@));
            lemma_bytes_lt_asymmetric(a[m].0@, a[i].0@);
        }
        if n < i {
            assert(a[n].0@ == b[n].0@);
            assert(bytes_lt(b[n].0@, b[i].0@));
            lemma_bytes_lt_asymmetric(b[n].0@, b[i].0@);
        }
        if m > i && n > i {
            assert(bytes_lt(b[i].0@, b[m].0@));
            assert(bytes_lt(a[i].0@, a[n].0@));
            lemma_bytes_lt_asymmetric(x, y);
        }
        if m > i && n == i {
            assert(bytes_lt(b[i].0@, b[m].0@));
            lemma_bytes_lt_asymmetric(x, x);
        }
        if n > i && m == i {
            assert(bytes_lt(a[i].0@, a[n].0@));
            lemma_bytes_lt_asymmetric(y, y);
        }
        assert(x == y);
    }
}

/// `sled::Db::open_tree`: the keyspace of that name, made empty where the
/// database had none. The handle that comes back carries the name, as UTF-8
/// bytes. Nothing is claimed of what the keyspace holds.
#[verifier::external_body]
pub(crate) fn open_tree(db: &sled::Db, name: &str) -> (r: Result<sled::Tree, sled::Error>)
    ensures
        r matches Ok(tree) ==> tree_name(tree) == encode_utf8(name@),
{
    db.open_tree(name)
}

/// `sled::Tree::get`: the value stored under `key`, if there is one. A
/// keyspace holds finitely many keys.
#[verifier::external_body]
pub(crate) fn tree_get(tree: &sled::Tree, key: &[u8]) -> (r: Result<Option<Vec<u8>>, sled::Error>)
    ensures
        r matches Ok(found) ==> tree_entries(*tree).dom().finite() && match found {
            Some(value) => tree_entries(*tree).contains_key(key@) && tree_entries(*tree)[key@]
                == value@,
            None => !tree_entries(*tree).contains_key(key@),
        },
{
    match tree.get(key) {
        Ok(Some(value)) => Ok(Some(value.to_vec())),
        Ok(None) => Ok(None),
        Err(e) => Err(e),
    }
}

/// `sled::Tree::insert`: when it succeeds, `key` holds `value` and every other
/// key holds what it held. Nothing is claimed of the keyspace after a failure.
/// The call waits while a subscription's buffer is full.
#[verifier::external_body]
pub(crate) fn tree_insert(tree: &mut sled::Tree, key: &[u8], value: Vec<u8>) -> (r: Result<
    (),
    sled::Error,
>)
    ensures
        r is Ok ==> tree_entries(*final(tree)) == tree_entries(*old(tree)).insert(key@, value@),
{
    match tree.insert(key, value) {
        Ok(_) => Ok(()),
        Err(e) => Err(e),
    }
}

/// `sled::Tree::iter`, run to its end: every entry, in ascending byte order of
/// the keys, or the first failure that the iterator met.
#[verifier::external_body]
pub(crate) fn tree_scan(tree: &sled::Tree) -> (r: Result<Vec<(Vec<u8>, Vec<u8>)>, sled::Error>)
    ensures
        r matches Ok(rows) ==> lists(rows@, tree_entries(*tree)),
{
    let mut rows = Vec::new();
    for item in tree.iter() {
        match item {
            Ok((key, value)) => rows.push((key.to_vec(), value.to_vec())),
            Err(e) => return Err(e),
        }
    }
    Ok(rows)
}

/// One change of a keyspace, as a subscription reports it.
pub enum Change {
    /// `key` now holds `value`.
    Insert { key: Vec<u8>, value: Vec<u8> },
    /// `key` holds nothing any more.
    Remove { key: Vec<u8> },
}

/// `sled::Tree::flush`: waits until every earlier write is durable. What the
/// keyspace holds is not changed by it.
#[verifier::external_body]
pub(crate) fn tree_flush(tree: &sled::Tree) -> (r: Result<usize, sled::Error>) {
    tree.flush()
}

/// `sled::Tree::watch_prefix` with the empty prefix: a subscription to every
/// later change of the keyspace.
#[verifier::external_body]
pub(crate) fn tree_watch(tree: &sled::Tree) -> (r: sled::Subscriber) {
    tree.watch_prefix(vec![])
}

} // verus!
