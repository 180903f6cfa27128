//! Posts and the table that holds them.

use vstd::prelude::*;
use vstd::utf8::encode_utf8;
use crate::error::ForumError;
use crate::state::DbTree;
use crate::state::Record;
use crate::state::TableKey;
use crate::state::TableType;
use crate::state::codec::decode_u64;
use crate::state::codec::encode_u64;
use crate::state::codec::lemma_holds_at_split;
use crate::state::codec::lemma_take_list;
use crate::state::codec::lemma_take_opt;
use crate::state::codec::lemma_take_text;
use crate::state::codec::lemma_take_u64;
use crate::state::codec::lemma_u64_bytes_of_value;
use crate::state::codec::lemma_u64_round_trip;
use crate::state::codec::list_bytes;
use crate::state::codec::opt_bytes;
use crate::state::codec::put_list;
use crate::state::codec::put_opt;
use crate::state::codec::put_text;
use crate::state::codec::put_u64;
use crate::state::codec::read_list;
use crate::state::codec::read_opt;
use crate::state::codec::read_text;
use crate::state::codec::read_u64;
use crate::state::codec::take_list;
use crate::state::codec::take_opt;
use crate::state::codec::take_text;
use crate::state::codec::take_u64;
use crate::state::codec::text_bytes;
use crate::state::codec::text_fits;
use crate::state::codec::u64_bytes;
use crate::state::key::HighestKeys;
use crate::state::key::Key;
use crate::state::key::decimal;
use crate::state::key::taken;
use crate::state::thread::ThreadKey;
use crate::state::user::UserKey;

verus! {

/// The identifier of a post.
#[derive(Debug, Default, Clone, Copy, PartialEq, Eq, Hash, Structural)]
pub struct PostKey(pub Key);

impl PostKey {
    /// The identifier as it is shown: in decimal notation.
    pub fn to_string(&self) -> (r: String)
        ensures
            r@ == decimal(self.0.0 as nat),
    {
        self.0.to_string()
    }
}

impl TableKey for PostKey {
    open spec fn code(self) -> Seq<u8> {
        u64_bytes(self.0.0)
    }

    proof fn lemma_code_injective(a: Self, b: Self) {
        lemma_u64_round_trip(a.0.0);
        lemma_u64_round_trip(b.0.0);
    }

    fn to_code(self) -> (r: Vec<u8>) {
        encode_u64(self.0.0)
    }

    fn from_code(bytes: &[u8]) -> (r: Option<Self>) {
        proof {
            assert forall|key: Self| #[trigger] key.code().len() == 8 by {
                lemma_u64_round_trip(key.0.0);
            }
            if bytes@.len() == 8 {
                lemma_u64_bytes_of_value(bytes@);
            }
        }
        match decode_u64(bytes) {
            Some(n) => Some(PostKey(Key(n))),
            None => None,
        }
    }
}

/// A message of a thread. `parent` is the post it answers, `children` the
/// posts that answer it, `thread` the thread it belongs to.
#[derive(Debug, Clone)]
pub struct Post {
    pub key: PostKey,
    pub body: String,
    pub author: UserKey,
    pub parent: Option<PostKey>,
    pub children: Vec<PostKey>,
    pub thread: ThreadKey,
}

/// A post as a mathematical value.
pub ghost struct PostView {
    pub key: PostKey,
    pub body: Seq<char>,
    pub author: UserKey,
    pub parent: Option<PostKey>,
    pub children: Seq<PostKey>,
    pub thread: ThreadKey,
}

impl View for Post {
    type V = PostView;

    open spec fn view(&self) -> PostView {
        PostView {
            key: self.key,
            body: self.body@,
            author: self.author,
            parent: self.parent,
            children: self.children@,
            thread: self.thread,
        }
    }
}

/// The numbers of a list of post identifiers.
pub open spec fn key_numbers(keys: Seq<PostKey>) -> Seq<u64> {
    Seq::new(keys.len(), |i: int| keys[i].0.0)
}

/// The post identifiers with the given numbers.
pub open spec fn post_keys(numbers: Seq<u64>) -> Seq<PostKey> {
    Seq::new(numbers.len(), |i: int| PostKey(Key(numbers[i])))
}

/// The number of an optional post identifier.
pub open spec fn opt_number(key: Option<PostKey>) -> Option<u64> {
    match key {
        Some(k) => Some(k.0.0),
        None => None,
    }
}

/// The optional post identifier with the given number.
pub open spec fn opt_post_key(number: Option<u64>) -> Option<PostKey> {
    match number {
        Some(n) => Some(PostKey(Key(n))),
        None => None,
    }
}

/// The stored form of a post: key, body, author, parent, children, thread.
pub open spec fn post_bytes(p: PostView) -> Seq<u8> {
    u64_bytes(p.key.0.0) + (text_bytes(p.body) + (u64_bytes(p.author.0.0) + (opt_bytes(
        opt_number(p.parent),
    ) + (list_bytes(key_numbers(p.children)) + u64_bytes(p.thread.0.0)))))
}

/// The post that stored bytes stand for: the six fields one after the other
/// and nothing behind them.
pub open spec fn post_of_bytes(b: Seq<u8>) -> Option<PostView> {
    match take_u64(b, 0) {
        Some((key, at_body)) => match take_text(b, at_body) {
            Some((body, at_author)) => match take_u64(b, at_author) {
                Some((author, at_parent)) => match take_opt(b, at_parent) {
                    Some((parent, at_children)) => match take_list(b, at_children) {
                        Some((children, at_thread)) => match take_u64(b, at_thread) {
                            Some((thread, end)) => if end == b.len() {
                                Some(
                                    PostView {
                                        key: PostKey(Key(key)),
                                        body,
                                        author: UserKey(Key(author)),
                                        parent: opt_post_key(parent),
                                        children: post_keys(children),
                                        thread: ThreadKey(Key(thread)),
                                    },
                                )
                            } else {
                                None
                            },
                            None => None,
                        },
                        None => None,
                    },
                    None => None,
                },
                None => None,
            },
            None => None,
        },
        None => None,
    }
}

/// Whether the lengths inside a post fit the layout's prefixes.
pub open spec fn post_storable(p: PostView) -> bool {
    text_fits(p.body) && p.children.len() <= u64::MAX
}

/// Decoding an encoded post gives the post back.
pub proof fn lemma_post_round_trip(p: PostView)
    requires
        post_storable(p),
    ensures
        post_of_bytes(post_bytes(p)) == Some(p),
{
    let f0 = u64_bytes(p.key.0.0);
    let f1 = text_bytes(p.body);
    let f2 = u64_bytes(p.author.0.0);
    let f3 = opt_bytes(opt_number(p.parent));
    let f4 = list_bytes(key_numbers(p.children));
    let f5 = u64_bytes(p.thread.0.0);
    let b = post_bytes(p);
    lemma_u64_round_trip(p.key.0.0);
    lemma_u64_round_trip(p.author.0.0);
    lemma_u64_round_trip(p.thread.0.0);

    assert(b.subrange(0, b.len() as int) =~= b);
    lemma_holds_at_split(b, 0, f0, f1 + (f2 + (f3 + (f4 + f5))));
    lemma_take_u64(b, 0, p.key.0.0);
    lemma_holds_at_split(b, 8, f1, f2 + (f3 + (f4 + f5)));
    lemma_take_text(b, 8, p.body);
    let a2: int = 8 + f1.len() as int;
    lemma_holds_at_split(b, a2, f2, f3 + (f4 + f5));
    lemma_take_u64(b, a2, p.author.0.0);
    let a3: int = a2 + 8;
    lemma_holds_at_split(b, a3, f3, f4 + f5);
    lemma_take_opt(b, a3, opt_number(p.parent));
    let a4: int = a3 + f3.len() as int;
    lemma_holds_at_split(b, a4, f4, f5);
    lemma_take_list(b, a4, key_numbers(p.children));
    let a5: int = a4 + f4.len() as int;
    lemma_take_u64(b, a5, p.thread.0.0);

    assert(post_keys(key_numbers(p.children)) =~= p.children);
}

/// The numbers of `keys`, in their order.
pub(crate) fn numbers_of(keys: &Vec<PostKey>) -> (r: Vec<u64>)
    ensures
        r@ == key_numbers(keys@),
{
    let mut out: Vec<u64> = Vec::new();
    let mut i: usize = 0;
    while i < keys.len()
        invariant
            i <= keys.len(),
            out@.len() == i,
            forall|j: int| 0 <= j < i ==> out@[j] == keys@[j].0.0,
        decreases keys.len() - i,
    {
        out.push(keys[i].0.0);
        i += 1;
    }
    out
}

/// The post identifiers with the given numbers, in their order.
pub(crate) fn keys_of(numbers: &Vec<u64>) -> (r: Vec<PostKey>)
    ensures
        r@ == post_keys(numbers@),
{
    let mut out: Vec<PostKey> = Vec::new();
    let mut i: usize = 0;
    while i < numbers.len()
        invariant
            i <= numbers.len(),
            out@.len() == i,
            forall|j: int| 0 <= j < i ==> out@[j] == PostKey(Key(numbers@[j])),
        decreases numbers.len() - i,
    {
        out.push(PostKey(Key(numbers[i])));
        i += 1;
    }
    out
}

impl Record for Post {
    open spec fn encoding(image: PostView) -> Seq<u8> {
        post_bytes(image)
    }

    open spec fn decoding(bytes: Seq<u8>) -> Option<PostView> {
        post_of_bytes(bytes)
    }

    open spec fn storable(image: PostView) -> bool {
        post_storable(image)
    }

    proof fn lemma_round_trip(image: PostView) {
        lemma_post_round_trip(image);
    }

    fn encode(&self) -> (r: Vec<u8>) {
        let mut out: Vec<u8> = Vec::new();
        put_u64(&mut out, self.key.0.0);
        put_text(&mut out, self.body.as_str());
        put_u64(&mut out, self.author.0.0);
        put_opt(
            &mut out,
            match self.parent {
                Some(k) => Some(k.0.0),
                None => None,
            },
        );
        let numbers = numbers_of(&self.children);
        put_list(&mut out, &numbers);
        put_u64(&mut out, self.thread.0.0);
        out
    }

    fn decode(bytes: &[u8]) -> (r: Option<Post>) {
        let (key, at) = match read_u64(bytes, 0) {
            Some(x) => x,
            None => {
                return None;
            },
        };
        let (body, at) = match read_text(bytes, at) {
            Some(x) => x,
            None => {
                return None;
            },
        };
        let (author, at) = match read_u64(bytes, at) {
            Some(x) => x,
            None => {
                return None;
            },
        };
        let (parent, at) = match read_opt(bytes, at) {
            Some(x) => x,
            None => {
                return None;
            },
        };
        let (children, at) = match read_list(bytes, at) {
            Some(x) => x,
            None => {
                return None;
            },
        };
        let (thread, at) = match read_u64(bytes, at) {
            Some(x) => x,
            None => {
                return None;
            },
        };
        if at != bytes.len() {
            return None;
        }
        Some(
            Post {
                key: PostKey(Key(key)),
                body,
                author: UserKey(Key(author)),
                parent: match parent {
                    Some(n) => Some(PostKey(Key(n))),
                    None => None,
                },
                children: keys_of(&children),
                thread: ThreadKey(Key(thread)),
            },
        )
    }
}

/// The table of posts.
pub type Posts = DbTree<PostKey, Post>;

impl DbTree<PostKey, Post> {
    /// The posts of the database `db`: the table kept in its keyspace
    /// `posts`.
    pub(crate) fn open(db: &sled::Db) -> (r: Result<Posts, ForumError>)
        ensures
            match r {
                Ok(posts) => posts.name() == encode_utf8("posts"@),
                Err(e) => e is Sled,
            },
    {
        Self::open_named(db, "posts")
    }

    /// A fresh post identifier: one more than the highest handed out so far.
    pub fn next_key(&self, keys: &mut HighestKeys) -> (r: Result<PostKey, ForumError>)
        ensures
            match r {
                Ok(key) => {
                    &&& old(keys).readable(TableType::Posts)
                    &&& old(keys).highest(TableType::Posts) < u64::MAX
                    &&& key.0.0 == old(keys).highest(TableType::Posts) + 1
                    &&& final(keys).rows() == old(keys).rows().insert(
                        TableType::Posts.code(),
                        key.code(),
                    )
                    &&& final(keys).rows() == taken(
                        old(keys).rows(),
                        TableType::Posts,
                    )
                },
                Err(ForumError::Codec) => {
                    &&& !old(keys).readable(TableType::Posts)
                    &&& final(keys).rows() == old(keys).rows()
                },
                Err(ForumError::KeysExhausted(t)) => {
                    &&& t == TableType::Posts
                    &&& old(keys).readable(TableType::Posts)
                    &&& old(keys).highest(TableType::Posts) == u64::MAX
                    &&& final(keys).rows() == old(keys).rows()
                },
                Err(e) => e is Sled,
            },
    {
        match keys.next(TableType::Posts) {
            Ok(key) => Ok(PostKey(key)),
            Err(e) => Err(e),
        }
    }
}

/// What a client submits to answer in a thread.
#[derive(Clone)]
pub struct PostSubmission {
    pub body: String,
}

} // verus!
