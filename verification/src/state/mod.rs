//! Tables, records and the byte layout they are stored in.

use core::marker::PhantomData;
use vstd::prelude::*;
use vstd::utf8::encode_utf8;
use crate::error::ForumError;
use crate::state::codec::bytes_lt;
use crate::state::codec::decode_u64;
use crate::state::codec::encode_u64;
use crate::state::codec::lemma_u64_bytes_of_value;
use crate::state::codec::lemma_u64_round_trip;
use crate::state::codec::u64_bytes;
use crate::state::codec::u64_value;
use crate::state::key::HighestKeys;
use crate::state::kv::lemma_lists_len;
use crate::state::kv::lemma_lists_unique;
use crate::state::kv::lists;
use crate::state::kv::open_tree;
use crate::state::kv::tree_entries;
use crate::state::kv::tree_flush;
use crate::state::kv::tree_get;
use crate::state::kv::tree_insert;
use crate::state::kv::tree_name;
use crate::state::kv::tree_scan;
use crate::state::kv::tree_watch;
use crate::state::post::Posts;
use crate::state::sanitizer::Sanitizer;
use crate::state::sanitizer::forum_attributes;
use crate::state::thread::Threads;
use crate::state::user::Users;

pub mod codec;
pub mod key;
pub mod kv;
pub mod post;
pub mod sanitizer;
pub mod thread;
pub mod tree;
pub mod user;

verus! {

/// The tables that carry a counter and a schema version.
#[derive(Debug, Clone, Copy, PartialEq, Eq, Structural)]
pub enum TableType {
    Posts,
    Users,
    HighestKeys,
    Threads,
}

impl TableType {
    /// The number that stands for the table in stored keys.
    pub open spec fn tag(self) -> u64 {
        match self {
            TableType::Posts => 0,
            TableType::Users => 1,
            TableType::HighestKeys => 2,
            TableType::Threads => 3,
        }
    }

    /// The number that stands for the table in stored keys.
    pub fn discriminant(self) -> (r: u64)
        ensures
            r == self.tag(),
    {
        match self {
            TableType::Posts => 0,
            TableType::Users => 1,
            TableType::HighestKeys => 2,
            TableType::Threads => 3,
        }
    }
}

/// A type whose values are the keys of a table.
pub trait TableKey: Sized + Copy {
    /// The bytes under which the key is stored.
    spec fn code(self) -> Seq<u8>;

    /// Distinct keys are stored under distinct bytes.
    proof fn lemma_code_injective(a: Self, b: Self)
        requires
            a.code() == b.code(),
        ensures
            a == b,
    ;

    /// The bytes under which the key is stored.
    fn to_code(self) -> (r: Vec<u8>)
        ensures
            r@ == self.code(),
    ;

    /// The key stored under `bytes`, if they are the code of one.
    fn from_code(bytes: &[u8]) -> (r: Option<Self>)
        ensures
            match r {
                Some(key) => key.code() == bytes@,
                None => forall|key: Self| key.code() != bytes@,
            },
    ;
}

/// A type whose values are the rows of a table.
pub trait Record: View + Sized {
    /// The stored form of a value.
    spec fn encoding(image: Self::V) -> Seq<u8>;

    /// The value that stored bytes stand for, if any.
    spec fn decoding(bytes: Seq<u8>) -> Option<Self::V>;

    /// Whether every length inside the value fits the layout's prefixes.
    spec fn storable(image: Self::V) -> bool;

    /// Decoding what was encoded gives the value back.
    proof fn lemma_round_trip(image: Self::V)
        requires
            Self::storable(image),
        ensures
            Self::decoding(Self::encoding(image)) == Some(image),
    ;

    /// The value in its stored form.
    fn encode(&self) -> (r: Vec<u8>)
        ensures
            Self::storable(self@),
            r@ == Self::encoding(self@),
    ;

    /// The value that `bytes` stand for, if they stand for one.
    fn decode(bytes: &[u8]) -> (r: Option<Self>)
        ensures
            match r {
                Some(value) => Self::decoding(bytes@) == Some(value@),
                None => Self::decoding(bytes@) is None,
            },
    ;
}

impl TableKey for TableType {
    open spec fn code(self) -> Seq<u8> {
        u64_bytes(self.tag())
    }

    proof fn lemma_code_injective(a: Self, b: Self) {
        lemma_u64_round_trip(a.tag());
        lemma_u64_round_trip(b.tag());
    }

    fn to_code(self) -> (r: Vec<u8>) {
        encode_u64(self.discriminant())
    }

    fn from_code(bytes: &[u8]) -> (r: Option<Self>) {
        proof {
            assert forall|key: Self| #[trigger] key.code().len() == 8 by {
                lemma_u64_round_trip(key.tag());
            }
            if bytes@.len() == 8 {
                lemma_u64_bytes_of_value(bytes@);
            }
            assert forall|key: Self| key.code() == bytes@ implies key.tag() == u64_value(
                bytes@,
            ) by {
                lemma_u64_round_trip(key.tag());
            }
        }
        match decode_u64(bytes) {
            Some(0) => Some(TableType::Posts),
            Some(1) => Some(TableType::Users),
            Some(2) => Some(TableType::HighestKeys),
            Some(3) => Some(TableType::Threads),
            _ => None,
        }
    }
}

impl Record for u64 {
    open spec fn encoding(image: u64) -> Seq<u8> {
        u64_bytes(image)
    }

    open spec fn decoding(bytes: Seq<u8>) -> Option<u64> {
        if bytes.len() == 8 {
            Some(u64_value(bytes))
        } else {
            None
        }
    }

    open spec fn storable(image: u64) -> bool {
        true
    }

    proof fn lemma_round_trip(image: u64) {
        lemma_u64_round_trip(image);
    }

    fn encode(&self) -> (r: Vec<u8>) {
        encode_u64(*self)
    }

    fn decode(bytes: &[u8]) -> (r: Option<u64>) {
        decode_u64(bytes)
    }
}

/// The rows of a keyspace that are a key of `K` with a value of `T`.
pub open spec fn typed<K: TableKey, T: Record>(rows: Map<Seq<u8>, Seq<u8>>) -> Map<K, T::V> {
    Map::new(
        |key: K| rows.contains_key(key.code()) && T::decoding(rows[key.code()]) is Some,
        |key: K| T::decoding(rows[key.code()])->Some_0,
    )
}

/// Storing an encoded value under a key's code puts the value under the key
/// and leaves every other key as it was.
pub proof fn lemma_typed_insert<K: TableKey, T: Record>(
    rows: Map<Seq<u8>, Seq<u8>>,
    key: K,
    image: T::V,
)
    requires
        T::storable(image),
    ensures
        typed::<K, T>(rows.insert(key.code(), T::encoding(image))) == typed::<K, T>(rows).insert(
            key,
            image,
        ),
{
    T::lemma_round_trip(image);
    let after = typed::<K, T>(rows.insert(key.code(), T::encoding(image)));
    let want = typed::<K, T>(rows).insert(key, image);
    assert forall|k: K| #[trigger] after.dom().contains(k) == want.dom().contains(k) by {
        if k.code() == key.code() {
            K::lemma_code_injective(k, key);
        }
    }
    assert forall|k: K| #[trigger] after.dom().contains(k) implies after[k] == want[k] by {
        if k.code() == key.code() {
            K::lemma_code_injective(k, key);
        }
    }
    assert(after =~= want);
}

/// A keyspace with finitely many rows holds finitely many typed rows.
pub proof fn lemma_typed_finite<K: TableKey, T: Record>(rows: Map<Seq<u8>, Seq<u8>>)
    requires
        rows.dom().finite(),
    ensures
        typed::<K, T>(rows).dom().finite(),
{
    let pick = |code: Seq<u8>| choose|key: K| key.code() == code;
    let picked = rows.dom().map(pick);
    rows.dom().lemma_map_finite(pick);
    assert forall|key: K| typed::<K, T>(rows).dom().contains(key) implies picked.contains(key) by {
        assert(rows.dom().contains(key.code()));
        K::lemma_code_injective(pick(key.code()), key);
    }
    vstd::set_lib::lemma_set_subset_finite(picked, typed::<K, T>(rows).dom());
}

/// Whether the keyspace holds under `key` a row that is no value of `T`.
pub open spec fn undecodable<K: TableKey, T: Record>(rows: Map<Seq<u8>, Seq<u8>>, key: K) -> bool {
    rows.contains_key(key.code()) && T::decoding(rows[key.code()]) is None
}

/// Whether the keyspace holds under some key of `K` a row that is no value
/// of `T`.
pub open spec fn some_undecodable<K: TableKey, T: Record>(rows: Map<Seq<u8>, Seq<u8>>) -> bool {
    exists|key: K| undecodable::<K, T>(rows, key)
}

/// Whether every row of a keyspace is a key of `K` with a value of `T`.
pub open spec fn fully_typed<K: TableKey, T: Record>(rows: Map<Seq<u8>, Seq<u8>>) -> bool {
    forall|code: Seq<u8>| #[trigger]
        rows.contains_key(code) ==> (exists|key: K| key.code() == code) && T::decoding(rows[code])
            is Some
}

/// Whether `item` is what the stored row `row` reads as: the key and the value
/// where both decode, else the failure to decode the key or, with a key that
/// decodes, the failure to decode the value.
pub open spec fn reads_as<K: TableKey, T: Record>(
    row: (Vec<u8>, Vec<u8>),
    item: Result<(K, T), ForumError>,
) -> bool {
    match item {
        Ok((key, value)) => key.code() == row.0@ && T::decoding(row.1@) == Some(value@),
        Err(ForumError::TryFromSlice) => forall|key: K| key.code() != row.0@,
        Err(ForumError::Codec) => (exists|key: K| key.code() == row.0@) && T::decoding(row.1@)
            is None,
        Err(_) => false,
    }
}

/// Whether `out` is the listing `raw` of a keyspace read row by row.
pub open spec fn read_from<K: TableKey, T: Record>(
    raw: Seq<(Vec<u8>, Vec<u8>)>,
    out: Seq<Result<(K, T), ForumError>>,
    rows: Map<Seq<u8>, Seq<u8>>,
) -> bool {
    &&& lists(raw, rows)
    &&& out.len() == raw.len()
    &&& forall|i: int| 0 <= i < raw.len() ==> reads_as::<K, T>(raw[i], #[trigger] out[i])
}

/// Whether `out` lists the rows of a keyspace as keys of `K` and values of `T`:
/// it is the keyspace's listing, in the byte order of the keys, read row by
/// row. So every row that decodes is there once, under its key, every other
/// item is a row whose key or value does not decode, and there is one item
/// for each row.
pub open spec fn lists_typed<K: TableKey, T: Record>(
    out: Seq<Result<(K, T), ForumError>>,
    rows: Map<Seq<u8>, Seq<u8>>,
) -> bool {
    &&& exists|raw: Seq<(Vec<u8>, Vec<u8>)>| #[trigger] read_from::<K, T>(raw, out, rows)
    &&& forall|i: int|
        0 <= i < out.len() ==> match #[trigger] out[i] {
            Ok((key, value)) => typed::<K, T>(rows).contains_key(key) && typed::<K, T>(rows)[key]
                == value@,
            Err(e) => e is TryFromSlice || e is Codec,
        }
    &&& forall|key: K| #[trigger]
        typed::<K, T>(rows).contains_key(key) ==> exists|i: int|
            0 <= i < out.len() && (#[trigger] out[i]) is Ok && out[i]->Ok_0.0 == key
    &&& forall|i: int, j: int|
        0 <= i < j < out.len() && (#[trigger] out[i]) is Ok && (#[trigger] out[j]) is Ok
            ==> bytes_lt(out[i]->Ok_0.0.code(), out[j]->Ok_0.0.code())
    &&& fully_typed::<K, T>(rows) <==> forall|i: int| 0 <= i < out.len() ==> (#[trigger] out[i]) is Ok
    &&& out.len() == rows.dom().len()
}

/// Whether two items of listings are the same: the same key with the same
/// value, or the same failure to decode.
pub open spec fn same_item<K: TableKey, T: Record>(
    a: Result<(K, T), ForumError>,
    b: Result<(K, T), ForumError>,
) -> bool {
    match (a, b) {
        (Ok((k, v)), Ok((l, w))) => k == l && v@ == w@,
        (Err(ForumError::TryFromSlice), Err(ForumError::TryFromSlice)) => true,
        (Err(ForumError::Codec), Err(ForumError::Codec)) => true,
        _ => false,
    }
}

/// A table has one listing: two listings of the same rows hold the same
/// items, place by place. So a table that is listed again after nothing was
/// written lists as before.
pub proof fn lemma_listing_fixed<K: TableKey, T: Record>(
    a: Seq<Result<(K, T), ForumError>>,
    b: Seq<Result<(K, T), ForumError>>,
    rows: Map<Seq<u8>, Seq<u8>>,
)
    requires
        lists_typed::<K, T>(a, rows),
        lists_typed::<K, T>(b, rows),
    ensures
        a.len() == b.len(),
        forall|i: int| 0 <= i < a.len() ==> same_item::<K, T>(#[trigger] a[i], b[i]),
{
    let raw_a = choose|raw: Seq<(Vec<u8>, Vec<u8>)>| #[trigger] read_from::<K, T>(raw, a, rows);
    let raw_b = choose|raw: Seq<(Vec<u8>, Vec<u8>)>| #[trigger] read_from::<K, T>(raw, b, rows);
    lemma_lists_unique(raw_a, raw_b, rows, raw_a.len() as int);
    assert forall|i: int| 0 <= i < a.len() implies same_item::<K, T>(#[trigger] a[i], b[i]) by {
        assert(reads_as::<K, T>(raw_a[i], a[i]));
        assert(reads_as::<K, T>(raw_b[i], b[i]));
        assert(raw_a[i].0@ == raw_b[i].0@ && raw_a[i].1@ == raw_b[i].1@);
        if a[i] is Ok && b[i] is Ok {
            K::lemma_code_injective(a[i]->Ok_0.0, b[i]->Ok_0.0);
        }
    }
}

/// Rows read one by one from a complete listing make a typed listing.
pub proof fn lemma_lists_typed<K: TableKey, T: Record>(
    raw: Seq<(Vec<u8>, Vec<u8>)>,
    out: Seq<Result<(K, T), ForumError>>,
    rows: Map<Seq<u8>, Seq<u8>>,
)
    requires
        lists(raw, rows),
        out.len() == raw.len(),
        forall|i: int| 0 <= i < raw.len() ==> reads_as::<K, T>(raw[i], #[trigger] out[i]),
    ensures
        lists_typed::<K, T>(out, rows),
{
    lemma_lists_len(raw, rows);
    assert(read_from::<K, T>(raw, out, rows));
    let table = typed::<K, T>(rows);
    assert forall|i: int| 0 <= i < out.len() implies match #[trigger] out[i] {
        Ok((key, value)) => table.contains_key(key) && table[key] == value@,
        Err(e) => e is TryFromSlice || e is Codec,
    } by {
        assert(reads_as::<K, T>(raw[i], out[i]));
        assert(rows.contains_key(raw[i].0@));
    }
    assert forall|key: K| #[trigger] table.contains_key(key) implies exists|i: int|
        0 <= i < out.len() && (#[trigger] out[i]) is Ok && out[i]->Ok_0.0 == key by {
        assert(rows.contains_key(key.code()));
        let i = choose|i: int| 0 <= i < raw.len() && #[trigger] raw[i].0@ == key.code();
        assert(reads_as::<K, T>(raw[i], out[i]));
        assert(rows.contains_key(raw[i].0@));
        K::lemma_code_injective(out[i]->Ok_0.0, key);
    }
    assert forall|i: int, j: int|
        0 <= i < j < out.len() && (#[trigger] out[i]) is Ok && (#[trigger] out[j]) is Ok implies bytes_lt(
        out[i]->Ok_0.0.code(),
        out[j]->Ok_0.0.code(),
    ) by {
        assert(reads_as::<K, T>(raw[i], out[i]));
        assert(reads_as::<K, T>(raw[j], out[j]));
        assert(bytes_lt(raw[i].0@, raw[j].0@));
    }
    if fully_typed::<K, T>(rows) {
        assert forall|i: int| 0 <= i < out.len() implies (#[trigger] out[i]) is Ok by {
            assert(reads_as::<K, T>(raw[i], out[i]));
            assert(rows.contains_key(raw[i].0@));
            let key = choose|key: K| key.code() == raw[i].0@;
            assert(key.code() == raw[i].0@);
        }
    }
    if forall|i: int| 0 <= i < out.len() ==> (#[trigger] out[i]) is Ok {
        assert forall|code: Seq<u8>| #[trigger] rows.contains_key(code) implies (exists|key: K|
            key.code() == code) && T::decoding(rows[code]) is Some by {
            let i = choose|i: int| 0 <= i < raw.len() && #[trigger] raw[i].0@ == code;
            assert(reads_as::<K, T>(raw[i], out[i]));
            assert(out[i] is Ok);
            assert(out[i]->Ok_0.0.code() == code);
        }
    }
}

/// The rows of a keyspace after the first `count` of `items` were stored,
/// each under its key, one after the other.
pub open spec fn rewritten<K: TableKey, U: Record>(
    rows: Map<Seq<u8>, Seq<u8>>,
    items: Seq<(K, U)>,
    count: nat,
) -> Map<Seq<u8>, Seq<u8>>
    decreases count,
{
    if count == 0 {
        rows
    } else {
        rewritten::<K, U>(rows, items, (count - 1) as nat).insert(
            items[count - 1].0.code(),
            U::encoding(items[count - 1].1@),
        )
    }
}

/// What storing new values under the keys of a fully typed keyspace comes to.
/// Where every row is a key of `K` with a value of `A`, and `items` holds for
/// each of these keys a storable value of `U`, always the one that `new_of`
/// names, the keyspace holds after the rewrite the same keys, each with the
/// value that `new_of` names for it, and every row is a value of `U`.
pub proof fn lemma_rewritten<K: TableKey, A: Record, U: Record>(
    rows: Map<Seq<u8>, Seq<u8>>,
    items: Seq<(K, U)>,
    new_of: spec_fn(K) -> U::V,
    count: nat,
)
    requires
        count <= items.len(),
        fully_typed::<K, A>(rows),
        forall|i: int|
            0 <= i < items.len() ==> typed::<K, A>(rows).contains_key((#[trigger] items[i]).0)
                && items[i].1@ == new_of(items[i].0) && U::storable(items[i].1@),
        forall|key: K| #[trigger]
            typed::<K, A>(rows).contains_key(key) ==> exists|i: int|
                0 <= i < items.len() && (#[trigger] items[i]).0 == key,
    ensures
        rewritten::<K, U>(rows, items, count).dom() == rows.dom(),
        forall|i: int|
            0 <= i < count ==> rewritten::<K, U>(rows, items, count)[(#[trigger] items[i]).0.code()]
                == U::encoding(new_of(items[i].0)),
        count == items.len() ==> fully_typed::<K, U>(rewritten::<K, U>(rows, items, count)),
        count == items.len() ==> forall|key: K|
            typed::<K, A>(rows).contains_key(key) <==> #[trigger] typed::<K, U>(
                rewritten::<K, U>(rows, items, count),
            ).contains_key(key),
        count == items.len() ==> forall|key: K| #[trigger]
            typed::<K, A>(rows).contains_key(key) ==> typed::<K, U>(
                rewritten::<K, U>(rows, items, count),
            )[key] == new_of(key),
    decreases count,
{
    let after = rewritten::<K, U>(rows, items, count);
    if count > 0 {
        lemma_rewritten::<K, A, U>(rows, items, new_of, (count - 1) as nat);
        let last = items[count - 1];
        assert(typed::<K, A>(rows).contains_key(last.0));
        assert(rows.dom().contains(last.0.code()));
        assert(after.dom() =~= rows.dom());
        assert forall|i: int| 0 <= i < count implies after[(#[trigger] items[i]).0.code()]
            == U::encoding(new_of(items[i].0)) by {
            if items[i].0.code() == last.0.code() {
                K::lemma_code_injective(items[i].0, last.0);
            }
        }
    } else {
        assert(after.dom() =~= rows.dom());
    }
    if count == items.len() {
        assert forall|key: K| #[trigger] typed::<K, A>(rows).contains_key(key) implies typed::<
            K,
            U,
        >(after).contains_key(key) && typed::<K, U>(after)[key] == new_of(key) by {
            let i = choose|i: int| 0 <= i < items.len() && (#[trigger] items[i]).0 == key;
            U::lemma_round_trip(new_of(items[i].0));
            assert(after[items[i].0.code()] == U::encoding(new_of(key)));
        }
        assert forall|code: Seq<u8>| #[trigger] after.contains_key(code) implies (exists|key: K|
            key.code() == code) && U::decoding(after[code]) is Some by {
            assert(rows.contains_key(code));
            let key = choose|key: K| key.code() == code;
            assert(typed::<K, A>(rows).contains_key(key));
            assert(typed::<K, U>(after).contains_key(key));
        }
        assert forall|key: K| #[trigger] typed::<K, U>(after).contains_key(key) implies typed::<
            K,
            A,
        >(rows).contains_key(key) by {
            assert(rows.contains_key(key.code()));
        }
    }
}

/// A typed table: the rows of one keyspace, read and written as keys of `K`
/// and values of `T`.
pub struct DbTree<K, T> {
    tree: sled::Tree,
    key: PhantomData<K>,
    value: PhantomData<T>,
}

impl<K: TableKey, T: Record> View for DbTree<K, T> {
    type V = Map<K, T::V>;

    /// The rows that decode, by key.
    open spec fn view(&self) -> Map<K, T::V> {
        typed::<K, T>(self.rows())
    }
}

impl<K: TableKey, T: Record> DbTree<K, T> {
    /// Everything that the keyspace holds, decodable or not.
    pub closed spec fn rows(&self) -> Map<Seq<u8>, Seq<u8>> {
        tree_entries(self.tree)
    }

    /// The name of the keyspace that the table is kept in.
    pub closed spec fn name(&self) -> Seq<u8> {
        tree_name(self.tree)
    }

    /// The table kept in the keyspace `tree`, of which this is the only
    /// handle in use.
    pub(crate) fn new(tree: sled::Tree) -> (r: Self)
        ensures
            r.rows() == tree_entries(tree),
            r.name() == tree_name(tree),
    {
        Self { tree, key: PhantomData, value: PhantomData }
    }

    /// The table kept in the keyspace `name` of `db`.
    pub(crate) fn open_named(db: &sled::Db, name: &str) -> (r: Result<Self, ForumError>)
        ensures
            match r {
                Ok(table) => table.name() == encode_utf8(name@),
                Err(e) => e is Sled,
            },
    {
        match open_tree(db, name) {
            Ok(tree) => Ok(Self::new(tree)),
            Err(e) => Err(ForumError::Sled(e)),
        }
    }

    /// The value of the row stored under the bytes `code`.
    pub(crate) fn get_coded(&self, code: &[u8]) -> (r: Result<Option<T>, ForumError>)
        ensures
            self.rows().dom().finite() || r matches Err(ForumError::Sled(_)),
            match r {
                Ok(Some(value)) => self.rows().contains_key(code@) && T::decoding(
                    self.rows()[code@],
                ) == Some(value@),
                Ok(None) => !self.rows().contains_key(code@),
                Err(ForumError::Codec) => self.rows().contains_key(code@) && T::decoding(
                    self.rows()[code@],
                ) is None,
                Err(e) => e is Sled,
            },
    {
        match tree_get(&self.tree, code) {
            Ok(Some(bytes)) => match T::decode(bytes.as_slice()) {
                Some(value) => Ok(Some(value)),
                None => Err(ForumError::Codec),
            },
            Ok(None) => Ok(None),
            Err(e) => Err(ForumError::Sled(e)),
        }
    }

    /// The value stored under `key`.
    pub fn get(&self, key: K) -> (r: Result<Option<T>, ForumError>)
        ensures
            self.rows().dom().finite() || r matches Err(ForumError::Sled(_)),
            match r {
                Ok(Some(value)) => self@.contains_key(key) && self@[key] == value@,
                Ok(None) => !self.rows().contains_key(key.code()),
                Err(ForumError::Codec) => self.rows().contains_key(key.code()) && T::decoding(
                    self.rows()[key.code()],
                ) is None,
                Err(e) => e is Sled,
            },
    {
        let code = key.to_code();
        self.get_coded(code.as_slice())
    }

    /// Stores `value` under `key`, in place of what was there.
    pub fn insert(&mut self, key: K, value: T) -> (r: Result<(), ForumError>)
        ensures
            T::storable(value@),
            match r {
                Ok(()) => {
                    &&& final(self).rows() == old(self).rows().insert(
                        key.code(),
                        T::encoding(value@),
                    )
                    &&& final(self)@ == old(self)@.insert(key, value@)
                },
                Err(e) => e is Sled,
            },
    {
        let code = key.to_code();
        let bytes = value.encode();
        proof {
            lemma_typed_insert::<K, T>(self.rows(), key, value@);
        }
        match tree_insert(&mut self.tree, code.as_slice(), bytes) {
            Ok(()) => Ok(()),
            Err(e) => Err(ForumError::Sled(e)),
        }
    }

    /// Every row of the table in the byte order of the keys' codes, each as
    /// what it decodes to or as the failure to decode it.
    pub fn iter(&self) -> (r: Result<DbTreeIter<K, T>, ForumError>)
        ensures
            match r {
                Ok(out) => self.rows().dom().finite() && lists_typed::<K, T>(out.0@, self.rows()),
                Err(e) => e is Sled,
            },
    {
        match self.iter_as::<T>() {
            Ok(rows) => Ok(DbTreeIter(rows)),
            Err(e) => Err(e),
        }
    }

    /// Every row of the table, read as a value of `U`.
    pub(crate) fn iter_as<U: Record>(&self) -> (r: Result<
        Vec<Result<(K, U), ForumError>>,
        ForumError,
    >)
        ensures
            match r {
                Ok(out) => self.rows().dom().finite() && lists_typed::<K, U>(out@, self.rows()),
                Err(e) => e is Sled,
            },
    {
        let raw = match tree_scan(&self.tree) {
            Ok(raw) => raw,
            Err(e) => {
                return Err(ForumError::Sled(e));
            },
        };
        let mut out: Vec<Result<(K, U), ForumError>> = Vec::new();
        let mut i: usize = 0;
        while i < raw.len()
            invariant
                i <= raw.len(),
                out@.len() == i,
                forall|j: int| 0 <= j < i ==> reads_as::<K, U>(raw@[j], #[trigger] out@[j]),
            decreases raw.len() - i,
        {
            let item = match K::from_code(raw[i].0.as_slice()) {
                Some(key) => match U::decode(raw[i].1.as_slice()) {
                    Some(value) => Ok((key, value)),
                    None => Err(ForumError::Codec),
                },
                None => Err(ForumError::TryFromSlice),
            };
            out.push(item);
            i += 1;
        }
        proof {
            lemma_lists_len(raw@, self.rows());
            lemma_lists_typed::<K, U>(raw@, out@, self.rows());
        }
        Ok(out)
    }

    /// Stores the value `value` of `U` under `key`.
    pub(crate) fn put_as<U: Record>(&mut self, key: K, value: &U) -> (r: Result<(), ForumError>)
        ensures
            U::storable(value@),
            match r {
                Ok(()) => final(self).rows() == old(self).rows().insert(
                    key.code(),
                    U::encoding(value@),
                ),
                Err(e) => e is Sled,
            },
    {
        let code = key.to_code();
        let bytes = value.encode();
        match tree_insert(&mut self.tree, code.as_slice(), bytes) {
            Ok(()) => Ok(()),
            Err(e) => Err(ForumError::Sled(e)),
        }
    }

    /// Stores each of `items` under its key, first to last.
    pub(crate) fn rewrite<U: Record>(&mut self, items: &Vec<(K, U)>) -> (r: Result<(), ForumError>)
        ensures
            r is Ok ==> forall|i: int|
                0 <= i < items@.len() ==> U::storable((#[trigger] items@[i]).1@),
            match r {
                Ok(()) => final(self).rows() == rewritten::<K, U>(
                    old(self).rows(),
                    items@,
                    items@.len(),
                ),
                Err(e) => e is Sled,
            },
    {
        let mut i: usize = 0;
        while i < items.len()
            invariant
                i <= items.len(),
                self.rows() == rewritten::<K, U>(old(self).rows(), items@, i as nat),
                forall|j: int| 0 <= j < i ==> U::storable((#[trigger] items@[j]).1@),
            decreases items.len() - i,
        {
            match self.put_as::<U>(items[i].0, &items[i].1) {
                Ok(()) => {},
                Err(e) => {
                    return Err(e);
                },
            }
            i += 1;
        }
        Ok(())
    }

    /// Waits until every earlier write to the table is durable.
    pub fn flush(&self) -> (r: Result<(), ForumError>)
        ensures
            r matches Err(e) ==> e is Sled,
    {
        match tree_flush(&self.tree) {
            Ok(_) => Ok(()),
            Err(e) => Err(ForumError::Sled(e)),
        }
    }

    /// A subscription to every later change of the table.
    pub fn watch(&self) -> sled::Subscriber {
        tree_watch(&self.tree)
    }
}

/// What every table of the database offers: reading and writing one row,
/// listing all rows, watching for changes and waiting for durability.
pub trait DbTreeLookup<K: TableKey, T: Record> {
    /// Everything that the table's keyspace holds, decodable or not.
    spec fn stored(&self) -> Map<Seq<u8>, Seq<u8>>;

    /// The value stored under `key`.
    fn get(&self, key: K) -> (r: Result<Option<T>, ForumError>)
        ensures
            match r {
                Ok(Some(value)) => typed::<K, T>(self.stored()).contains_key(key) && typed::<K, T>(
                    self.stored(),
                )[key] == value@,
                Ok(None) => !self.stored().contains_key(key.code()),
                Err(ForumError::Codec) => self.stored().contains_key(key.code()) && T::decoding(
                    self.stored()[key.code()],
                ) is None,
                Err(e) => e is Sled,
            },
    ;

    /// Every row of the table in the byte order of the keys' codes, each as
    /// what it decodes to or as the failure to decode it.
    fn iter(&self) -> (r: Result<DbTreeIter<K, T>, ForumError>)
        ensures
            match r {
                Ok(out) => lists_typed::<K, T>(out.0@, self.stored()),
                Err(e) => e is Sled,
            },
    ;

    /// A subscription to every later change of the table.
    fn watch(&self) -> sled::Subscriber;

    /// Stores `value` under `key`, in place of what was there.
    fn insert(&mut self, key: K, value: T) -> (r: Result<(), ForumError>)
        ensures
            match r {
                Ok(()) => final(self).stored() == old(self).stored().insert(
                    key.code(),
                    T::encoding(value@),
                ),
                Err(e) => e is Sled,
            },
    ;

    /// Waits until every earlier write to the table is durable.
    fn flush(&self) -> (r: Result<(), ForumError>)
        ensures
            r matches Err(e) ==> e is Sled,
    ;
}

impl<K: TableKey, T: Record> DbTreeLookup<K, T> for DbTree<K, T> {
    open spec fn stored(&self) -> Map<Seq<u8>, Seq<u8>> {
        self.rows()
    }

    fn get(&self, key: K) -> (r: Result<Option<T>, ForumError>) {
        DbTree::get(self, key)
    }

    fn iter(&self) -> (r: Result<DbTreeIter<K, T>, ForumError>) {
        DbTree::iter(self)
    }

    fn watch(&self) -> sled::Subscriber {
        DbTree::watch(self)
    }

    fn insert(&mut self, key: K, value: T) -> (r: Result<(), ForumError>) {
        DbTree::insert(self, key, value)
    }

    fn flush(&self) -> (r: Result<(), ForumError>) {
        DbTree::flush(self)
    }
}

/// The rows of a table as they were listed: in the byte order of the keys'
/// codes, each as what it decodes to or as the failure to decode it.
pub struct DbTreeIter<K, T>(pub Vec<Result<(K, T), ForumError>>);

/// Whether `key` is what is left of `row` when its value is dropped.
pub open spec fn key_of_row<K, T>(row: Result<(K, T), ForumError>, key: Result<K, ForumError>) -> bool {
    match row {
        Ok((k, _)) => key == Ok::<K, ForumError>(k),
        Err(e) => key == Err::<K, ForumError>(e),
    }
}

/// Whether `value` is what is left of `row` when its key is dropped.
pub open spec fn value_of_row<K, T>(
    row: Result<(K, T), ForumError>,
    value: Result<T, ForumError>,
) -> bool {
    match row {
        Ok((_, v)) => value == Ok::<T, ForumError>(v),
        Err(e) => value == Err::<T, ForumError>(e),
    }
}

impl<K, T> DbTreeIter<K, T> {
    /// The keys of the rows, in their order; a row that did not decode
    /// keeps its failure.
    pub fn keys(self) -> (r: Vec<Result<K, ForumError>>)
        ensures
            r@.len() == self.0@.len(),
            forall|i: int| 0 <= i < r@.len() ==> key_of_row(self.0@[i], #[trigger] r@[i]),
    {
        let mut out: Vec<Result<K, ForumError>> = Vec::new();
        let ghost rows = self.0@;
        for row in it: self.0.into_iter()
            invariant
                it.seq() == rows,
                out@.len() == it.index(),
                forall|i: int| 0 <= i < out@.len() ==> key_of_row(rows[i], #[trigger] out@[i]),
        {
            match row {
                Ok((key, _)) => out.push(Ok(key)),
                Err(e) => out.push(Err(e)),
            }
        }
        out
    }

    /// The values of the rows, in their order; a row that did not decode
    /// keeps its failure.
    pub fn values(self) -> (r: Vec<Result<T, ForumError>>)
        ensures
            r@.len() == self.0@.len(),
            forall|i: int| 0 <= i < r@.len() ==> value_of_row(self.0@[i], #[trigger] r@[i]),
    {
        let mut out: Vec<Result<T, ForumError>> = Vec::new();
        let ghost rows = self.0@;
        for row in it: self.0.into_iter()
            invariant
                it.seq() == rows,
                out@.len() == it.index(),
                forall|i: int| 0 <= i < out@.len() ==> value_of_row(rows[i], #[trigger] out@[i]),
        {
            match row {
                Ok((_, value)) => out.push(Ok(value)),
                Err(e) => out.push(Err(e)),
            }
        }
        out
    }
}

/// The schema version of each table.
pub type Versions = DbTree<TableType, u64>;

/// The rows of the versions with a first version for `table` where it had
/// none.
pub open spec fn with_first_version(
    rows: Map<Seq<u8>, Seq<u8>>,
    table: TableType,
) -> Map<Seq<u8>, Seq<u8>> {
    if rows.contains_key(table.code()) {
        rows
    } else {
        rows.insert(table.code(), u64_bytes(1))
    }
}

/// The rows of the versions after a start: every table that had no version
/// is at version 1, every other table is where it was.
pub open spec fn started(rows: Map<Seq<u8>, Seq<u8>>) -> Map<Seq<u8>, Seq<u8>> {
    with_first_version(
        with_first_version(
            with_first_version(
                with_first_version(rows, TableType::Posts),
                TableType::Users,
            ),
            TableType::HighestKeys,
        ),
        TableType::Threads,
    )
}

impl DbTree<TableType, u64> {
    /// The versions of the database `db`: the table kept in its keyspace
    /// `versions`.
    pub(crate) fn open(db: &sled::Db) -> (r: Result<Versions, ForumError>)
        ensures
            match r {
                Ok(versions) => versions.name() == encode_utf8("versions"@),
                Err(e) => e is Sled,
            },
    {
        Self::open_named(db, "versions")
    }

    /// Gives `table` the version 1 where it has none. Tells whether it did.
    pub fn start_table(&mut self, table: TableType) -> (r: Result<bool, ForumError>)
        ensures
            match r {
                Ok(added) => {
                    &&& added == !old(self).rows().contains_key(table.code())
                    &&& final(self).rows() == with_first_version(old(self).rows(), table)
                },
                Err(ForumError::Codec) => {
                    &&& old(self).rows().contains_key(table.code())
                    &&& old(self).rows()[table.code()].len() != 8
                    &&& final(self).rows() == old(self).rows()
                },
                Err(e) => e is Sled,
            },
    {
        match self.get(table) {
            Ok(Some(_)) => Ok(false),
            Ok(None) => match self.insert(table, 1) {
                Ok(()) => Ok(true),
                Err(e) => Err(e),
            },
            Err(e) => Err(e),
        }
    }

    /// The start-up policy: every table without a version gets version 1,
    /// and the versions are made durable if any was added. No version that is
    /// there is changed.
    pub fn start(&mut self) -> (r: Result<(), ForumError>)
        ensures
            match r {
                Ok(()) => final(self).rows() == started(old(self).rows()),
                Err(ForumError::Codec) => exists|table: TableType| #[trigger]
                    old(self).rows().contains_key(table.code()) && old(self).rows()[table.code()].len()
                        != 8,
                Err(e) => e is Sled,
            },
    {
        proof {
            assert forall|a: TableType, b: TableType| a != b implies a.code() != b.code() by {
                if a.code() == b.code() {
                    TableType::lemma_code_injective(a, b);
                }
            }
        }
        let posts = match self.start_table(TableType::Posts) {
            Ok(added) => added,
            Err(e) => {
                return Err(e);
            },
        };
        let users = match self.start_table(TableType::Users) {
            Ok(added) => added,
            Err(e) => {
                return Err(e);
            },
        };
        let keys = match self.start_table(TableType::HighestKeys) {
            Ok(added) => added,
            Err(e) => {
                return Err(e);
            },
        };
        let threads = match self.start_table(TableType::Threads) {
            Ok(added) => added,
            Err(e) => {
                return Err(e);
            },
        };
        if posts || users || keys || threads {
            self.flush()
        } else {
            Ok(())
        }
    }
}

/// Every keyspace of the forum behind its table, each opened once, with the
/// forum's sanitizer. The tables can be taken out and handed on; a keyspace
/// has no second handle.
pub struct AppState {
    pub posts: Posts,
    pub users: Users,
    pub sanitizer: Sanitizer,
    pub threads: Threads,
    pub highest_keys: HighestKeys,
    pub versions: Versions,
}

impl AppState {
    /// Opens the keyspaces of the database `db`, each once and under its
    /// own name: `posts`, `threads`, `users`, `usernames`, `highest_keys` and
    /// `versions`. The database handle is taken over and given up, so that
    /// nothing can be opened through it a second time; the tables keep the
    /// database open.
    pub fn open(db: sled::Db) -> (r: Result<AppState, ForumError>)
        ensures
            match r {
                Ok(state) => {
                    &&& state.posts.name() == encode_utf8("posts"@)
                    &&& state.threads.name() == encode_utf8("threads"@)
                    &&& state.users.name() == encode_utf8("users"@)
                    &&& state.users.index_name() == encode_utf8("usernames"@)
                    &&& state.highest_keys.name() == encode_utf8("highest_keys"@)
                    &&& state.versions.name() == encode_utf8("versions"@)
                    &&& state.sanitizer.allowed_on_every_tag() == forum_attributes()
                },
                Err(e) => e is Sled,
            },
    {
        let posts = match Posts::open(&db) {
            Ok(posts) => posts,
            Err(e) => {
                return Err(e);
            },
        };
        let users = match Users::open(&db) {
            Ok(users) => users,
            Err(e) => {
                return Err(e);
            },
        };
        let threads = match Threads::open(&db) {
            Ok(threads) => threads,
            Err(e) => {
                return Err(e);
            },
        };
        let highest_keys = match HighestKeys::open(&db) {
            Ok(keys) => keys,
            Err(e) => {
                return Err(e);
            },
        };
        let versions = match Versions::open(&db) {
            Ok(versions) => versions,
            Err(e) => {
                return Err(e);
            },
        };
        Ok(AppState { posts, users, sanitizer: Sanitizer::new(), threads, highest_keys, versions })
    }
}

} // verus!
