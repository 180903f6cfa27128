//! Users and the tables that hold them: the users by identifier, and the
//! index from user names to identifiers.

use vstd::prelude::*;
use vstd::utf8::encode_utf8;
use crate::error::ForumError;
use crate::state::DbTree;
use crate::state::DbTreeIter;
use crate::state::DbTreeLookup;
use crate::state::Record;
use crate::state::TableKey;
use crate::state::TableType;
use crate::state::codec::decode_u64;
use crate::state::codec::encode_u64;
use crate::state::codec::lemma_holds_at_split;
use crate::state::codec::lemma_take_opt_text;
use crate::state::codec::lemma_take_text;
use crate::state::codec::lemma_take_u64;
use crate::state::codec::lemma_u64_bytes_of_value;
use crate::state::codec::lemma_u64_round_trip;
use crate::state::codec::opt_text_bytes;
use crate::state::codec::put_opt_text;
use crate::state::codec::put_text;
use crate::state::codec::put_u64;
use crate::state::codec::read_opt_text;
use crate::state::codec::read_text;
use crate::state::codec::read_u64;
use crate::state::codec::take_opt_text;
use crate::state::codec::take_text;
use crate::state::codec::take_u64;
use crate::state::codec::text_bytes;
use crate::state::codec::text_fits;
use crate::state::codec::u64_bytes;
use crate::state::key::HighestKeys;
use crate::state::key::Key;
use crate::state::key::decimal;
use crate::state::key::taken;
use crate::state::kv::open_tree;
use crate::state::kv::tree_entries;
use crate::state::kv::tree_flush;
use crate::state::kv::tree_get;
use crate::state::kv::tree_insert;
use crate::state::kv::tree_name;
use crate::state::lemma_typed_insert;
use crate::state::lists_typed;
use crate::state::rewritten;
use crate::state::typed;

verus! {

/// The identifier of a user.
#[derive(Debug, Default, Clone, Copy, PartialEq, Eq, Hash, Structural)]
pub struct UserKey(pub Key);

impl UserKey {
    /// The identifier as it is shown: in decimal notation.
    pub fn to_string(&self) -> (r: String)
        ensures
            r@ == decimal(self.0.0 as nat),
    {
        self.0.to_string()
    }
}

impl TableKey for UserKey {
    open spec fn code(self) -> Seq<u8> {
        u64_bytes(self.0.0)
    }

    proof fn lemma_code_injective(a: Self, b: Self) {
        lemma_u64_round_trip(a.0.0);
        lemma_u64_round_trip(b.0.0);
    }

    fn to_code(self) -> (r: Vec<u8>) {
        encode_u64(self.0.0)
    }

    fn from_code(bytes: &[u8]) -> (r: Option<Self>) {
        proof {
            assert forall|key: Self| #[trigger] key.code().len() == 8 by {
                lemma_u64_round_trip(key.0.0);
            }
            if bytes@.len() == 8 {
                lemma_u64_bytes_of_value(bytes@);
            }
        }
        match decode_u64(bytes) {
            Some(n) => Some(UserKey(Key(n))),
            None => None,
        }
    }
}

/// A registered user. `password` is the stored password hash.
#[derive(Clone)]
pub struct User {
    pub key: UserKey,
    pub username: String,
    pub password: String,
    pub avatar: Option<String>,
}

/// A user as a mathematical value.
pub ghost struct UserView {
    pub key: UserKey,
    pub username: Seq<char>,
    pub password: Seq<char>,
    pub avatar: Option<Seq<char>>,
}

/// The text of an optional string.
pub open spec fn opt_text(o: Option<String>) -> Option<Seq<char>> {
    match o {
        Some(s) => Some(s@),
        None => None,
    }
}

impl View for User {
    type V = UserView;

    open spec fn view(&self) -> UserView {
        UserView {
            key: self.key,
            username: self.username@,
            password: self.password@,
            avatar: opt_text(self.avatar),
        }
    }
}

/// The stored form of a user: key, name, password hash, avatar.
pub open spec fn user_bytes(u: UserView) -> Seq<u8> {
    u64_bytes(u.key.0.0) + (text_bytes(u.username) + (text_bytes(u.password) + opt_text_bytes(
        u.avatar,
    )))
}

/// The user that stored bytes stand for: the four fields one after the other
/// and nothing behind them.
pub open spec fn user_of_bytes(b: Seq<u8>) -> Option<UserView> {
    match take_u64(b, 0) {
        Some((key, at_name)) => match take_text(b, at_name) {
            Some((username, at_password)) => match take_text(b, at_password) {
                Some((password, at_avatar)) => match take_opt_text(b, at_avatar) {
                    Some((avatar, end)) => if end == b.len() {
                        Some(UserView { key: UserKey(Key(key)), username, password, avatar })
                    } else {
                        None
                    },
                    None => None,
                },
                None => None,
            },
            None => None,
        },
        None => None,
    }
}

/// Whether the lengths inside a user fit the layout's prefixes.
pub open spec fn user_storable(u: UserView) -> bool {
    &&& text_fits(u.username)
    &&& text_fits(u.password)
    &&& u.avatar matches Some(a) ==> text_fits(a)
}

/// Decoding an encoded user gives the user back.
pub proof fn lemma_user_round_trip(u: UserView)
    requires
        user_storable(u),
    ensures
        user_of_bytes(user_bytes(u)) == Some(u),
{
    let f0 = u64_bytes(u.key.0.0);
    let f1 = text_bytes(u.username);
    let f2 = text_bytes(u.password);
    let f3 = opt_text_bytes(u.avatar);
    let b = user_bytes(u);
    lemma_u64_round_trip(u.key.0.0);
    assert(b.subrange(0, b.len() as int) =~= b);
    lemma_holds_at_split(b, 0, f0, f1 + (f2 + f3));
    lemma_take_u64(b, 0, u.key.0.0);
    lemma_holds_at_split(b, 8, f1, f2 + f3);
    lemma_take_text(b, 8, u.username);
    let a2: int = 8 + f1.len() as int;
    lemma_holds_at_split(b, a2, f2, f3);
    lemma_take_text(b, a2, u.password);
    let a3: int = a2 + f2.len() as int;
    lemma_take_opt_text(b, a3, u.avatar);
}

impl Record for User {
    open spec fn encoding(image: UserView) -> Seq<u8> {
        user_bytes(image)
    }

    open spec fn decoding(bytes: Seq<u8>) -> Option<UserView> {
        user_of_bytes(bytes)
    }

    open spec fn storable(image: UserView) -> bool {
        user_storable(image)
    }

    proof fn lemma_round_trip(image: UserView) {
        lemma_user_round_trip(image);
    }

    fn encode(&self) -> (r: Vec<u8>) {
        let mut out: Vec<u8> = Vec::new();
        put_u64(&mut out, self.key.0.0);
        put_text(&mut out, self.username.as_str());
        put_text(&mut out, self.password.as_str());
        put_opt_text(&mut out, &self.avatar);
        out
    }

    fn decode(bytes: &[u8]) -> (r: Option<User>) {
        let (key, at) = match read_u64(bytes, 0) {
            Some(x) => x,
            None => {
                return None;
            },
        };
        let (username, at) = match read_text(bytes, at) {
            Some(x) => x,
            None => {
                return None;
            },
        };
        let (password, at) = match read_text(bytes, at) {
            Some(x) => x,
            None => {
                return None;
            },
        };
        let (avatar, at) = match read_opt_text(bytes, at) {
            Some(x) => x,
            None => {
                return None;
            },
        };
        if at != bytes.len() {
            return None;
        }
        Some(User { key: UserKey(Key(key)), username, password, avatar })
    }
}

/// The user that a name leads to: the row stored under the identifier bytes
/// that the index holds for the name. A name that the index does not hold, or
/// that leads to no row, resolves to nothing.
pub open spec fn resolve_name(
    rows: Map<Seq<u8>, Seq<u8>>,
    names: Map<Seq<u8>, Seq<u8>>,
    name: Seq<char>,
) -> Option<UserView> {
    let coded = encode_utf8(name);
    if names.contains_key(coded) && rows.contains_key(names[coded]) {
        user_of_bytes(rows[names[coded]])
    } else {
        None
    }
}

/// The users that the rows hold, by identifier.
pub open spec fn users_of(rows: Map<Seq<u8>, Seq<u8>>) -> Map<UserKey, UserView> {
    typed::<UserKey, User>(rows)
}

/// Whether every stored user is found again through its name.
pub open spec fn indexed(rows: Map<Seq<u8>, Seq<u8>>, names: Map<Seq<u8>, Seq<u8>>) -> bool {
    forall|key: UserKey| #[trigger]
        users_of(rows).contains_key(key) ==> resolve_name(rows, names, users_of(rows)[key].username)
            == Some(users_of(rows)[key])
}

/// Whether every stored user carries the identifier that it is stored under.
pub open spec fn keyed(rows: Map<Seq<u8>, Seq<u8>>) -> bool {
    forall|key: UserKey| #[trigger]
        users_of(rows).contains_key(key) ==> users_of(rows)[key].key == key
}

/// No stored user has an identifier above `highest`.
pub open spec fn users_below(users: Map<UserKey, UserView>, highest: u64) -> bool {
    forall|key: UserKey| #[trigger] users.contains_key(key) ==> key.0.0 <= highest
}

/// Names are unique: where every stored user is found through its name and
/// carries its own identifier, no two stored users have the same name.
pub proof fn lemma_names_unique(
    rows: Map<Seq<u8>, Seq<u8>>,
    names: Map<Seq<u8>, Seq<u8>>,
    a: UserKey,
    b: UserKey,
)
    requires
        indexed(rows, names),
        keyed(rows),
        users_of(rows).contains_key(a),
        users_of(rows).contains_key(b),
        users_of(rows)[a].username == users_of(rows)[b].username,
    ensures
        a == b,
{
}

/// What the two keyspaces hold after a user was stored: its row under its
/// identifier, its identifier under its name.
pub open spec fn with_user(
    rows: Map<Seq<u8>, Seq<u8>>,
    names: Map<Seq<u8>, Seq<u8>>,
    key: UserKey,
    user: UserView,
) -> (Map<Seq<u8>, Seq<u8>>, Map<Seq<u8>, Seq<u8>>) {
    (rows.insert(key.code(), user_bytes(user)), names.insert(encode_utf8(user.username), key.code()))
}

/// Storing a user keeps the name index sound: where every stored user was
/// found through its name and carried its own identifier, the same holds after
/// a user is stored under its own identifier with a name that no user under
/// another identifier has.
pub proof fn lemma_insert_keeps_index(
    rows: Map<Seq<u8>, Seq<u8>>,
    names: Map<Seq<u8>, Seq<u8>>,
    key: UserKey,
    user: UserView,
)
    requires
        indexed(rows, names),
        keyed(rows),
        user_storable(user),
        user.key == key,
        forall|other: UserKey| #[trigger]
            users_of(rows).contains_key(other) && other != key ==> users_of(rows)[other].username
                != user.username,
    ensures
        indexed(with_user(rows, names, key, user).0, with_user(rows, names, key, user).1),
        keyed(with_user(rows, names, key, user).0),
        users_of(with_user(rows, names, key, user).0) == users_of(rows).insert(key, user),
{
    broadcast use vstd::utf8::encode_utf8_decode_utf8;

    let (rows2, names2) = with_user(rows, names, key, user);
    lemma_typed_insert::<UserKey, User>(rows, key, user);
    lemma_user_round_trip(user);
    assert forall|k: UserKey| #[trigger] users_of(rows2).contains_key(k) implies resolve_name(
        rows2,
        names2,
        users_of(rows2)[k].username,
    ) == Some(users_of(rows2)[k]) by {
        if k != key {
            let u = users_of(rows)[k];
            assert(encode_utf8(u.username) != encode_utf8(user.username)) by {
                assert(vstd::utf8::decode_utf8(encode_utf8(u.username)) == u.username);
            }
            if names[encode_utf8(u.username)] == key.code() {
                assert(users_of(rows).contains_key(key));
            }
        }
    }
}

/// The users, with the index from names to identifiers.
pub struct Users {
    usernames: sled::Tree,
    users: DbTree<UserKey, User>,
}

impl View for Users {
    type V = Map<UserKey, UserView>;

    /// The stored users that decode, by identifier.
    open spec fn view(&self) -> Map<UserKey, UserView> {
        users_of(self.rows())
    }
}

impl Users {
    /// Everything that the keyspace of users holds.
    pub closed spec fn rows(&self) -> Map<Seq<u8>, Seq<u8>> {
        self.users.rows()
    }

    /// Everything that the name index holds: identifier bytes by name bytes.
    pub closed spec fn names(&self) -> Map<Seq<u8>, Seq<u8>> {
        tree_entries(self.usernames)
    }

    /// The name of the keyspace that the users are kept in.
    pub closed spec fn name(&self) -> Seq<u8> {
        self.users.name()
    }

    /// The name of the keyspace that the name index is kept in.
    pub closed spec fn index_name(&self) -> Seq<u8> {
        tree_name(self.usernames)
    }

    /// The user that `name` leads to.
    pub open spec fn resolve(&self, name: Seq<char>) -> Option<UserView> {
        resolve_name(self.rows(), self.names(), name)
    }

    /// Whether `name` leads to a row that is no user.
    pub open spec fn garbled(&self, name: Seq<char>) -> bool {
        let coded = encode_utf8(name);
        &&& self.names().contains_key(coded)
        &&& self.rows().contains_key(self.names()[coded])
        &&& user_of_bytes(self.rows()[self.names()[coded]]) is None
    }

    /// Whether every stored user is found through its name and carries the
    /// identifier that it is stored under.
    pub open spec fn wf(&self) -> bool {
        indexed(self.rows(), self.names()) && keyed(self.rows())
    }

    /// What must hold of the users and their counter between two
    /// registrations: the users are well-formed, and the counter can be read
    /// and is not below any stored user.
    pub open spec fn registry_wf(&self, keys: &HighestKeys) -> bool {
        &&& self.wf()
        &&& keys.readable(TableType::Users)
        &&& users_below(self@, keys.highest(TableType::Users))
    }

    /// The users kept in the keyspace `users` with their name index in the
    /// keyspace `usernames`, of each of which this is the only handle in use.
    pub(crate) fn new(usernames: sled::Tree, users: sled::Tree) -> (r: Self)
        ensures
            r.rows() == tree_entries(users),
            r.names() == tree_entries(usernames),
            r.name() == tree_name(users),
            r.index_name() == tree_name(usernames),
    {
        Self { usernames, users: DbTree::new(users) }
    }

    /// The users of the database `db`: the table kept in its keyspace
    /// `users`, with the name index kept in its keyspace `usernames`.
    pub(crate) fn open(db: &sled::Db) -> (r: Result<Self, ForumError>)
        ensures
            match r {
                Ok(users) => users.name() == encode_utf8("users"@) && users.index_name()
                    == encode_utf8("usernames"@),
                Err(e) => e is Sled,
            },
    {
        let usernames = match open_tree(db, "usernames") {
            Ok(tree) => tree,
            Err(e) => {
                return Err(ForumError::Sled(e));
            },
        };
        match open_tree(db, "users") {
            Ok(users) => Ok(Self::new(usernames, users)),
            Err(e) => Err(ForumError::Sled(e)),
        }
    }

    /// A fresh user identifier: one more than the highest handed out so far.
    pub fn next_key(&self, keys: &mut HighestKeys) -> (r: Result<UserKey, ForumError>)
        ensures
            match r {
                Ok(key) => {
                    &&& old(keys).readable(TableType::Users)
                    &&& old(keys).highest(TableType::Users) < u64::MAX
                    &&& key.0.0 == old(keys).highest(TableType::Users) + 1
                    &&& final(keys).rows() == old(keys).rows().insert(
                        TableType::Users.code(),
                        key.code(),
                    )
                    &&& final(keys).rows() == taken(
                        old(keys).rows(),
                        TableType::Users,
                    )
                },
                Err(ForumError::Codec) => {
                    &&& !old(keys).readable(TableType::Users)
                    &&& final(keys).rows() == old(keys).rows()
                },
                Err(ForumError::KeysExhausted(t)) => {
                    &&& t == TableType::Users
                    &&& old(keys).readable(TableType::Users)
                    &&& old(keys).highest(TableType::Users) == u64::MAX
                    &&& final(keys).rows() == old(keys).rows()
                },
                Err(e) => e is Sled,
            },
    {
        match keys.next(TableType::Users) {
            Ok(key) => Ok(UserKey(key)),
            Err(e) => Err(e),
        }
    }

    /// The user stored under `key`.
    pub fn get(&self, key: UserKey) -> (r: Result<Option<User>, ForumError>)
        ensures
            self.rows().dom().finite() || r matches Err(ForumError::Sled(_)),
            match r {
                Ok(Some(user)) => self@.contains_key(key) && self@[key] == user@,
                Ok(None) => !self.rows().contains_key(key.code()),
                Err(ForumError::Codec) => self.rows().contains_key(key.code()) && user_of_bytes(
                    self.rows()[key.code()],
                ) is None,
                Err(e) => e is Sled,
            },
    {
        self.users.get(key)
    }

    /// The user that `username` leads to, by way of the index. A name whose
    /// identifier has no row counts as not found.
    pub fn get_by_username(&self, username: &String) -> (r: Result<Option<User>, ForumError>)
        ensures
            match r {
                Ok(Some(user)) => self.resolve(username@) == Some(user@),
                Ok(None) => {
                    let coded = encode_utf8(username@);
                    !self.names().contains_key(coded) || !self.rows().contains_key(
                        self.names()[coded],
                    )
                },
                Err(ForumError::Codec) => {
                    let coded = encode_utf8(username@);
                    &&& self.names().contains_key(coded)
                    &&& self.rows().contains_key(self.names()[coded])
                    &&& user_of_bytes(self.rows()[self.names()[coded]]) is None
                },
                Err(e) => e is Sled,
            },
    {
        let coded = match tree_get(&self.usernames, username.as_str().as_bytes()) {
            Ok(Some(coded)) => coded,
            Ok(None) => {
                return Ok(None);
            },
            Err(e) => {
                return Err(ForumError::Sled(e));
            },
        };
        self.users.get_coded(coded.as_slice())
    }

    /// Stores `value` under `key` and its identifier under its name: first
    /// the row, then the index entry.
    pub fn insert(&mut self, key: UserKey, value: User) -> (r: Result<(), ForumError>)
        ensures
            user_storable(value@),
            match r {
                Ok(()) => {
                    &&& final(self).rows() == with_user(
                        old(self).rows(),
                        old(self).names(),
                        key,
                        value@,
                    ).0
                    &&& final(self).names() == with_user(
                        old(self).rows(),
                        old(self).names(),
                        key,
                        value@,
                    ).1
                    &&& final(self)@ == old(self)@.insert(key, value@)
                },
                Err(e) => e is Sled,
            },
    {
        let code = key.to_code();
        let name: Vec<u8> = vstd::slice::slice_to_vec(value.username.as_str().as_bytes());
        match self.users.insert(key, value) {
            Ok(()) => {},
            Err(e) => {
                return Err(e);
            },
        }
        match tree_insert(&mut self.usernames, name.as_slice(), code) {
            Ok(()) => Ok(()),
            Err(e) => Err(ForumError::Sled(e)),
        }
    }

    /// Waits until every earlier write to both keyspaces is durable.
    pub fn flush(&self) -> (r: Result<(), ForumError>)
        ensures
            r matches Err(e) ==> e is Sled,
    {
        match self.users.flush() {
            Ok(()) => {},
            Err(e) => {
                return Err(e);
            },
        }
        match tree_flush(&self.usernames) {
            Ok(_) => Ok(()),
            Err(e) => Err(ForumError::Sled(e)),
        }
    }

    /// Every user in the order of the identifiers, each as what its row
    /// decodes to or as the failure to decode it.
    pub fn iter(&self) -> (r: Result<DbTreeIter<UserKey, User>, ForumError>)
        ensures
            match r {
                Ok(out) => self.rows().dom().finite() && lists_typed::<UserKey, User>(
                    out.0@,
                    self.rows(),
                ),
                Err(e) => e is Sled,
            },
    {
        self.users.iter()
    }

    /// Every row of the users, read as a value of `U`.
    pub(crate) fn iter_as<U: Record>(&self) -> (r: Result<
        Vec<Result<(UserKey, U), ForumError>>,
        ForumError,
    >)
        ensures
            match r {
                Ok(out) => self.rows().dom().finite() && lists_typed::<UserKey, U>(
                    out@,
                    self.rows(),
                ),
                Err(e) => e is Sled,
            },
    {
        self.users.iter_as::<U>()
    }

    /// Stores each of `items` under its key, first to last. The name index
    /// is left as it is.
    pub(crate) fn rewrite<U: Record>(&mut self, items: &Vec<(UserKey, U)>) -> (r: Result<
        (),
        ForumError,
    >)
        ensures
            final(self).names() == old(self).names(),
            r is Ok ==> forall|i: int|
                0 <= i < items@.len() ==> U::storable((#[trigger] items@[i]).1@),
            match r {
                Ok(()) => final(self).rows() == rewritten::<UserKey, U>(
                    old(self).rows(),
                    items@,
                    items@.len(),
                ),
                Err(e) => e is Sled,
            },
    {
        self.users.rewrite::<U>(items)
    }

    /// A subscription to every later change of the users.
    pub fn watch(&self) -> sled::Subscriber {
        self.users.watch()
    }
}

impl DbTreeLookup<UserKey, User> for Users {
    open spec fn stored(&self) -> Map<Seq<u8>, Seq<u8>> {
        self.rows()
    }

    fn get(&self, key: UserKey) -> (r: Result<Option<User>, ForumError>) {
        Users::get(self, key)
    }

    fn iter(&self) -> (r: Result<DbTreeIter<UserKey, User>, ForumError>) {
        Users::iter(self)
    }

    fn watch(&self) -> sled::Subscriber {
        Users::watch(self)
    }

    /// Stores the user and, under its name, its identifier.
    fn insert(&mut self, key: UserKey, value: User) -> (r: Result<(), ForumError>)
        ensures
            r is Ok ==> final(self).names() == old(self).names().insert(
                encode_utf8(value@.username),
                key.code(),
            ),
    {
        Users::insert(self, key, value)
    }

    fn flush(&self) -> (r: Result<(), ForumError>) {
        Users::flush(self)
    }
}

} // verus!
