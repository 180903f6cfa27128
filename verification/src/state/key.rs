//! Identifiers and the per-table counters that hand them out.

use vstd::prelude::*;
use vstd::slice::slice_to_vec;
use vstd::string::StringExecFns;
use vstd::utf8::encode_utf8;
use crate::error::ForumError;
use crate::state::TableKey;
use crate::state::TableType;
use crate::state::codec::decode_u64;
use crate::state::codec::encode_u64;
use crate::state::codec::lemma_u64_round_trip;
use crate::state::codec::u64_bytes;
use crate::state::codec::u64_value;
use crate::state::kv::open_tree;
use crate::state::kv::tree_entries;
use crate::state::kv::tree_name;

verus! {

/// A 64-bit identifier, stored as eight bytes, most significant first.
#[derive(Debug, Default, Clone, Copy, PartialEq, Eq, Hash, Structural)]
pub struct Key(pub u64);

impl Key {
    /// The stored form of the identifier.
    pub open spec fn bytes(self) -> Seq<u8> {
        u64_bytes(self.0)
    }

    /// The identifier in its stored form.
    pub fn to_bytes(self) -> (r: Vec<u8>)
        ensures
            r@ == self.bytes(),
    {
        encode_u64(self.0)
    }

    /// Reads an identifier back from its stored form; anything but eight bytes
    /// is refused.
    pub fn try_from_bytes(b: &[u8]) -> (r: Result<Key, ForumError>)
        ensures
            b@.len() == 8 ==> r == Ok::<Key, ForumError>(Key(u64_value(b@))),
            b@.len() != 8 ==> r is Err && r->Err_0 is TryFromSlice,
    {
        match decode_u64(b) {
            Some(x) => Ok(Key(x)),
            None => Err(ForumError::TryFromSlice),
        }
    }
}

/// An identifier read back from its stored form is the identifier.
pub proof fn lemma_key_round_trip(key: Key)
    ensures
        key.bytes().len() == 8,
        Key(u64_value(key.bytes())) == key,
{
    lemma_u64_round_trip(key.0);
}

/// The character of a decimal digit.
pub open spec fn digit_char(d: nat) -> char {
    if d == 0 {
        '0'
    } else if d == 1 {
        '1'
    } else if d == 2 {
        '2'
    } else if d == 3 {
        '3'
    } else if d == 4 {
        '4'
    } else if d == 5 {
        '5'
    } else if d == 6 {
        '6'
    } else if d == 7 {
        '7'
    } else if d == 8 {
        '8'
    } else {
        '9'
    }
}

/// A number in decimal notation, without leading zeros.
pub open spec fn decimal(n: nat) -> Seq<char>
    decreases n,
{
    if n < 10 {
        seq![digit_char(n)]
    } else {
        decimal(n / 10) + seq![digit_char(n % 10)]
    }
}

/// The text of one decimal digit.
fn digit_text(d: u64) -> (r: &'static str)
    requires
        d < 10,
    ensures
        r@ == seq![digit_char(d as nat)],
{
    proof {
        reveal_strlit("0");
        reveal_strlit("1");
        reveal_strlit("2");
        reveal_strlit("3");
        reveal_strlit("4");
        reveal_strlit("5");
        reveal_strlit("6");
        reveal_strlit("7");
        reveal_strlit("8");
        reveal_strlit("9");
    }
    let r = if d == 0 {
        "0"
    } else if d == 1 {
        "1"
    } else if d == 2 {
        "2"
    } else if d == 3 {
        "3"
    } else if d == 4 {
        "4"
    } else if d == 5 {
        "5"
    } else if d == 6 {
        "6"
    } else if d == 7 {
        "7"
    } else if d == 8 {
        "8"
    } else {
        "9"
    };
    r
}

/// The decimal notation of `n`.
pub fn decimal_text(n: u64) -> (r: String)
    ensures
        r@ == decimal(n as nat),
    decreases n,
{
    if n < 10 {
        digit_text(n).to_owned()
    } else {
        let mut text = decimal_text(n / 10);
        text.append(digit_text(n % 10));
        text
    }
}

impl Key {
    /// The identifier as it is shown: in decimal notation.
    pub fn to_string(&self) -> (r: String)
        ensures
            r@ == decimal(self.0 as nat),
    {
        decimal_text(self.0)
    }
}

/// What a counter's row holds after one more identifier was taken: the next
/// number, or the row as it was where it holds no number or the last one.
pub open spec fn bumped(current: Option<Seq<u8>>) -> Seq<u8> {
    match current {
        None => u64_bytes(1),
        Some(b) => if b.len() == 8 && u64_value(b) < u64::MAX {
            u64_bytes((u64_value(b) + 1) as u64)
        } else {
            b
        },
    }
}

/// The row that replaces `current` when an identifier is taken.
pub fn bump(current: Option<&[u8]>) -> (r: Option<Vec<u8>>)
    ensures
        r matches Some(next) && next@ == bumped(
            match current {
                Some(b) => Some(b@),
                None => None,
            },
        ),
{
    match current {
        None => Some(encode_u64(1)),
        Some(b) => match decode_u64(b) {
            Some(n) => if n < u64::MAX {
                Some(encode_u64(n + 1))
            } else {
                Some(slice_to_vec(b))
            },
            None => Some(slice_to_vec(b)),
        },
    }
}

/// `sled::Tree::fetch_and_update` with [`bump`] as the update: the row under
/// `key` is replaced by what `bump` makes of it, in one atomic step, and the
/// row as it was before is handed back. The call waits while a subscription's
/// buffer is full.
#[verifier::external_body]
fn fetch_and_bump(tree: &mut sled::Tree, key: &[u8]) -> (r: Result<Option<Vec<u8>>, sled::Error>)
    ensures
        r matches Ok(previous) ==> {
            let before = tree_entries(*old(tree));
            &&& match previous {
                Some(row) => before.contains_key(key@) && before[key@] == row@,
                None => !before.contains_key(key@),
            }
            &&& tree_entries(*final(tree)) == before.insert(
                key@,
                bumped(
                    match previous {
                        Some(row) => Some(row@),
                        None => None,
                    },
                ),
            )
        },
{
    match tree.fetch_and_update(key, bump) {
        Ok(Some(row)) => Ok(Some(row.to_vec())),
        Ok(None) => Ok(None),
        Err(e) => Err(e),
    }
}

/// The highest identifier that the rows of the counters record for `table`;
/// 0 where they record none.
pub open spec fn highest_in(rows: Map<Seq<u8>, Seq<u8>>, table: TableType) -> u64 {
    if rows.contains_key(table.code()) {
        u64_value(rows[table.code()])
    } else {
        0
    }
}

/// Whether the counter that the rows record for `table` can be read: no row
/// yet, or a row of eight bytes.
pub open spec fn readable_in(rows: Map<Seq<u8>, Seq<u8>>, table: TableType) -> bool {
    rows.contains_key(table.code()) ==> rows[table.code()].len() == 8
}

/// The rows of the counters after one identifier of `table` was taken.
pub open spec fn taken(rows: Map<Seq<u8>, Seq<u8>>, table: TableType) -> Map<Seq<u8>, Seq<u8>> {
    rows.insert(table.code(), u64_bytes((highest_in(rows, table) + 1) as u64))
}

/// The rows of the counters after `count` identifiers of `table` were taken
/// one after the other.
pub open spec fn taken_times(
    rows: Map<Seq<u8>, Seq<u8>>,
    table: TableType,
    count: nat,
) -> Map<Seq<u8>, Seq<u8>>
    decreases count,
{
    if count == 0 {
        rows
    } else {
        taken(taken_times(rows, table, (count - 1) as nat), table)
    }
}

/// Identifiers come one after the other: the `count`-th identifier taken
/// from a counter that stood at `n` is `n + count`. So any number of takes
/// hands out `n + 1`, `n + 2`, ... without a gap and without a repeat.
pub proof fn lemma_successive_keys(rows: Map<Seq<u8>, Seq<u8>>, table: TableType, count: nat)
    requires
        highest_in(rows, table) + count <= u64::MAX,
    ensures
        highest_in(taken_times(rows, table, count), table) == highest_in(rows, table) + count,
    decreases count,
{
    if count > 0 {
        lemma_successive_keys(rows, table, (count - 1) as nat);
        let before = taken_times(rows, table, (count - 1) as nat);
        lemma_u64_round_trip((highest_in(before, table) + 1) as u64);
    }
}

/// The rows of the counters after one identifier was taken for each table of
/// `order`, in that order.
pub open spec fn taken_in_order(
    rows: Map<Seq<u8>, Seq<u8>>,
    order: Seq<TableType>,
) -> Map<Seq<u8>, Seq<u8>>
    decreases order.len(),
{
    if order.len() == 0 {
        rows
    } else {
        taken(taken_in_order(rows, order.drop_last()), order.last())
    }
}

/// How often `table` stands in `order`.
pub open spec fn takes_of(order: Seq<TableType>, table: TableType) -> nat
    decreases order.len(),
{
    if order.len() == 0 {
        0
    } else if order.last() == table {
        takes_of(order.drop_last(), table) + 1
    } else {
        takes_of(order.drop_last(), table)
    }
}

/// However the takes for different tables follow one another, a table's
/// counter moves on by the number of takes for that table: its identifiers
/// are handed out one after the other, whatever is taken in between.
pub proof fn lemma_takes_in_any_order(
    rows: Map<Seq<u8>, Seq<u8>>,
    order: Seq<TableType>,
    table: TableType,
)
    requires
        forall|t: TableType| highest_in(rows, t) + takes_of(order, t) <= u64::MAX,
    ensures
        highest_in(taken_in_order(rows, order), table) == highest_in(rows, table) + takes_of(
            order,
            table,
        ),
    decreases order.len(),
{
    if order.len() > 0 {
        let before = order.drop_last();
        assert forall|t: TableType| highest_in(rows, t) + takes_of(before, t) <= u64::MAX by {
            assert(highest_in(rows, t) + takes_of(order, t) <= u64::MAX);
        }
        lemma_takes_in_any_order(rows, before, table);
        lemma_takes_in_any_order(rows, before, order.last());
        assert(highest_in(rows, order.last()) + takes_of(order, order.last()) <= u64::MAX);
        lemma_taken(taken_in_order(rows, before), order.last());
        if order.last() != table {
            lemma_other_counters_stay(taken_in_order(rows, before), order.last(), table);
        }
    }
}

/// Taking an identifier moves the table's counter on by one and leaves it
/// readable.
pub proof fn lemma_taken(rows: Map<Seq<u8>, Seq<u8>>, table: TableType)
    requires
        highest_in(rows, table) < u64::MAX,
    ensures
        highest_in(taken(rows, table), table) == highest_in(rows, table) + 1,
        readable_in(taken(rows, table), table),
{
    lemma_u64_round_trip((highest_in(rows, table) + 1) as u64);
}

/// Taking an identifier of one table leaves the counter of every other table
/// where it was.
pub proof fn lemma_other_counters_stay(
    rows: Map<Seq<u8>, Seq<u8>>,
    table: TableType,
    other: TableType,
)
    requires
        table != other,
    ensures
        highest_in(taken(rows, table), other) == highest_in(rows, other),
        readable_in(taken(rows, table), other) == readable_in(rows, other),
{
    if table.code() == other.code() {
        TableType::lemma_code_injective(table, other);
    }
}

/// The table of counters: for each table the highest identifier handed out.
pub struct HighestKeys {
    tree: sled::Tree,
}

impl HighestKeys {
    /// The counters kept in the keyspace `tree`, of which this is the only
    /// handle in use.
    pub(crate) fn new(tree: sled::Tree) -> (r: Self)
        ensures
            r.rows() == tree_entries(tree),
            r.name() == tree_name(tree),
    {
        Self { tree }
    }

    /// The counters of the database `db`: the table kept in its keyspace
    /// `highest_keys`.
    pub(crate) fn open(db: &sled::Db) -> (r: Result<Self, ForumError>)
        ensures
            match r {
                Ok(keys) => keys.name() == encode_utf8("highest_keys"@),
                Err(e) => e is Sled,
            },
    {
        match open_tree(db, "highest_keys") {
            Ok(tree) => Ok(Self::new(tree)),
            Err(e) => Err(ForumError::Sled(e)),
        }
    }

    /// The stored rows, by table code.
    pub closed spec fn rows(&self) -> Map<Seq<u8>, Seq<u8>> {
        tree_entries(self.tree)
    }

    /// The name of the keyspace that the counters are kept in.
    pub closed spec fn name(&self) -> Seq<u8> {
        tree_name(self.tree)
    }

    /// Whether the counter of `table` can be read: no row yet, or a row of
    /// eight bytes.
    pub open spec fn readable(&self, table: TableType) -> bool {
        readable_in(self.rows(), table)
    }

    /// The highest identifier handed out for `table`; 0 before the first.
    pub open spec fn highest(&self, table: TableType) -> u64 {
        highest_in(self.rows(), table)
    }

    /// Takes the next identifier of `table`: one more than the highest so far.
    pub fn next(&mut self, table: TableType) -> (r: Result<Key, ForumError>)
        ensures
            match r {
                Ok(key) => {
                    &&& old(self).readable(table)
                    &&& old(self).highest(table) < u64::MAX
                    &&& key.0 == old(self).highest(table) + 1
                    &&& final(self).rows() == old(self).rows().insert(table.code(), key.bytes())
                    &&& final(self).rows() == taken(old(self).rows(), table)
                },
                Err(ForumError::Codec) => {
                    &&& !old(self).readable(table)
                    &&& final(self).rows() == old(self).rows()
                },
                Err(ForumError::KeysExhausted(t)) => {
                    &&& t == table
                    &&& old(self).readable(table)
                    &&& old(self).highest(table) == u64::MAX
                    &&& final(self).rows() == old(self).rows()
                },
                Err(e) => e is Sled,
            },
    {
        let code = table.to_code();
        match fetch_and_bump(&mut self.tree, code.as_slice()) {
            Ok(None) => Ok(Key(1)),
            Ok(Some(row)) => {
                match decode_u64(row.as_slice()) {
                    Some(n) => if n < u64::MAX {
                        Ok(Key(n + 1))
                    } else {
                        Err(ForumError::KeysExhausted(table))
                    },
                    None => Err(ForumError::Codec),
                }
            },
            Err(e) => Err(ForumError::Sled(e)),
        }
    }
}

} // verus!
