//! Threads and the table that holds them.

use vstd::prelude::*;
use vstd::utf8::encode_utf8;
use crate::error::ForumError;
use crate::state::DbTree;
use crate::state::Record;
use crate::state::TableKey;
use crate::state::TableType;
use crate::state::codec::decode_u64;
use crate::state::codec::encode_u64;
use crate::state::codec::lemma_holds_at_split;
use crate::state::codec::lemma_take_text;
use crate::state::codec::lemma_take_u64;
use crate::state::codec::lemma_u64_bytes_of_value;
use crate::state::codec::lemma_u64_round_trip;
use crate::state::codec::put_text;
use crate::state::codec::put_u64;
use crate::state::codec::read_text;
use crate::state::codec::read_u64;
use crate::state::codec::take_text;
use crate::state::codec::take_u64;
use crate::state::codec::text_bytes;
use crate::state::codec::text_fits;
use crate::state::codec::u64_bytes;
use crate::state::key::HighestKeys;
use crate::state::key::Key;
use crate::state::key::decimal;
use crate::state::key::taken;
use crate::state::post::PostKey;

verus! {

/// The identifier of a thread.
#[derive(Debug, Default, Clone, Copy, PartialEq, Eq, Hash, Structural)]
pub struct ThreadKey(pub Key);

impl ThreadKey {
    /// The identifier as it is shown: in decimal notation.
    pub fn to_string(&self) -> (r: String)
        ensures
            r@ == decimal(self.0.0 as nat),
    {
        self.0.to_string()
    }
}

impl TableKey for ThreadKey {
    open spec fn code(self) -> Seq<u8> {
        u64_bytes(self.0.0)
    }

    proof fn lemma_code_injective(a: Self, b: Self) {
        lemma_u64_round_trip(a.0.0);
        lemma_u64_round_trip(b.0.0);
    }

    fn to_code(self) -> (r: Vec<u8>) {
        encode_u64(self.0.0)
    }

    fn from_code(bytes: &[u8]) -> (r: Option<Self>) {
        proof {
            assert forall|key: Self| #[trigger] key.code().len() == 8 by {
                lemma_u64_round_trip(key.0.0);
            }
            if bytes@.len() == 8 {
                lemma_u64_bytes_of_value(bytes@);
            }
        }
        match decode_u64(bytes) {
            Some(n) => Some(ThreadKey(Key(n))),
            None => None,
        }
    }
}

/// A titled collection of posts. `post` is the root post.
#[derive(Debug, Clone)]
pub struct Thread {
    pub key: ThreadKey,
    pub title: String,
    pub post: PostKey,
}

/// A thread as a mathematical value.
pub ghost struct ThreadView {
    pub key: ThreadKey,
    pub title: Seq<char>,
    pub post: PostKey,
}

impl View for Thread {
    type V = ThreadView;

    open spec fn view(&self) -> ThreadView {
        ThreadView { key: self.key, title: self.title@, post: self.post }
    }
}

/// The stored form of a thread: key, title, root post.
pub open spec fn thread_bytes(t: ThreadView) -> Seq<u8> {
    u64_bytes(t.key.0.0) + (text_bytes(t.title) + u64_bytes(t.post.0.0))
}

/// The thread that stored bytes stand for: the three fields one after the
/// other and nothing behind them.
pub open spec fn thread_of_bytes(b: Seq<u8>) -> Option<ThreadView> {
    match take_u64(b, 0) {
        Some((key, at_title)) => match take_text(b, at_title) {
            Some((title, at_post)) => match take_u64(b, at_post) {
                Some((post, end)) => if end == b.len() {
                    Some(ThreadView { key: ThreadKey(Key(key)), title, post: PostKey(Key(post)) })
                } else {
                    None
                },
                None => None,
            },
            None => None,
        },
        None => None,
    }
}

/// Decoding an encoded thread gives the thread back.
pub proof fn lemma_thread_round_trip(t: ThreadView)
    requires
        text_fits(t.title),
    ensures
        thread_of_bytes(thread_bytes(t)) == Some(t),
{
    let f0 = u64_bytes(t.key.0.0);
    let f1 = text_bytes(t.title);
    let f2 = u64_bytes(t.post.0.0);
    let b = thread_bytes(t);
    lemma_u64_round_trip(t.key.0.0);
    lemma_u64_round_trip(t.post.0.0);
    assert(b.subrange(0, b.len() as int) =~= b);
    lemma_holds_at_split(b, 0, f0, f1 + f2);
    lemma_take_u64(b, 0, t.key.0.0);
    lemma_holds_at_split(b, 8, f1, f2);
    lemma_take_text(b, 8, t.title);
    lemma_take_u64(b, 8 + f1.len() as int, t.post.0.0);
}

impl Record for Thread {
    open spec fn encoding(image: ThreadView) -> Seq<u8> {
        thread_bytes(image)
    }

    open spec fn decoding(bytes: Seq<u8>) -> Option<ThreadView> {
        thread_of_bytes(bytes)
    }

    open spec fn storable(image: ThreadView) -> bool {
        text_fits(image.title)
    }

    proof fn lemma_round_trip(image: ThreadView) {
        lemma_thread_round_trip(image);
    }

    fn encode(&self) -> (r: Vec<u8>) {
        let mut out: Vec<u8> = Vec::new();
        put_u64(&mut out, self.key.0.0);
        put_text(&mut out, self.title.as_str());
        put_u64(&mut out, self.post.0.0);
        out
    }

    fn decode(bytes: &[u8]) -> (r: Option<Thread>) {
        let (key, at) = match read_u64(bytes, 0) {
            Some(x) => x,
            None => {
                return None;
            },
        };
        let (title, at) = match read_text(bytes, at) {
            Some(x) => x,
            None => {
                return None;
            },
        };
        let (post, at) = match read_u64(bytes, at) {
            Some(x) => x,
            None => {
                return None;
            },
        };
        if at != bytes.len() {
            return None;
        }
        Some(Thread { key: ThreadKey(Key(key)), title, post: PostKey(Key(post)) })
    }
}

/// The table of threads.
pub type Threads = DbTree<ThreadKey, Thread>;

impl DbTree<ThreadKey, Thread> {
    /// The threads of the database `db`: the table kept in its keyspace
    /// `threads`.
    pub(crate) fn open(db: &sled::Db) -> (r: Result<Threads, ForumError>)
        ensures
            match r {
                Ok(threads) => threads.name() == encode_utf8("threads"@),
                Err(e) => e is Sled,
            },
    {
        Self::open_named(db, "threads")
    }

    /// A fresh thread identifier: one more than the highest handed out so far.
    pub fn next_key(&self, keys: &mut HighestKeys) -> (r: Result<ThreadKey, ForumError>)
        ensures
            match r {
                Ok(key) => {
                    &&& old(keys).readable(TableType::Threads)
                    &&& old(keys).highest(TableType::Threads) < u64::MAX
                    &&& key.0.0 == old(keys).highest(TableType::Threads) + 1
                    &&& final(keys).rows() == old(keys).rows().insert(
                        TableType::Threads.code(),
                        key.code(),
                    )
                    &&& final(keys).rows() == taken(
                        old(keys).rows(),
                        TableType::Threads,
                    )
                },
                Err(ForumError::Codec) => {
                    &&& !old(keys).readable(TableType::Threads)
                    &&& final(keys).rows() == old(keys).rows()
                },
                Err(ForumError::KeysExhausted(t)) => {
                    &&& t == TableType::Threads
                    &&& old(keys).readable(TableType::Threads)
                    &&& old(keys).highest(TableType::Threads) == u64::MAX
                    &&& final(keys).rows() == old(keys).rows()
                },
                Err(e) => e is Sled,
            },
    {
        match keys.next(TableType::Threads) {
            Ok(key) => Ok(ThreadKey(key)),
            Err(e) => Err(e),
        }
    }
}

/// What a client submits to start a thread.
#[derive(Clone)]
pub struct ThreadSubmission {
    pub title: String,
    pub body: String,
}

} // verus!
