//! The card of one thread, and the live feed of new threads.

use vstd::prelude::*;
use crate::error::ForumError;
use crate::state::Record;
use crate::state::TableKey;
use crate::state::kv::Change;
use crate::state::post::Post;
use crate::state::post::PostView;
use crate::state::post::Posts;
use crate::state::thread::Thread;
use crate::state::thread::ThreadKey;
use crate::state::thread::ThreadView;
use crate::state::user::User;
use crate::state::user::UserView;
use crate::state::user::Users;

verus! {

/// One thread as it is listed: its title, the body of its root post and the
/// root post's author, and marked where it arrives by a live feed.
#[derive(Clone)]
pub struct ThreadTemplate {
    pub key: ThreadKey,
    pub title: String,
    pub body: String,
    pub author: User,
    pub sse: bool,
}

/// A thread card as a mathematical value.
pub ghost struct ThreadCard {
    pub key: ThreadKey,
    pub title: Seq<char>,
    pub body: Seq<char>,
    pub author: UserView,
    pub sse: bool,
}

impl View for ThreadTemplate {
    type V = ThreadCard;

    open spec fn view(&self) -> ThreadCard {
        ThreadCard {
            key: self.key,
            title: self.title@,
            body: self.body@,
            author: self.author@,
            sse: self.sse,
        }
    }
}

/// The card of `thread` with `root` as its root post and `author` as the
/// root post's author.
pub open spec fn thread_card(
    thread: ThreadView,
    root: PostView,
    author: UserView,
    sse: bool,
) -> ThreadCard {
    ThreadCard { key: thread.key, title: thread.title, body: root.body, author, sse }
}

/// What making a thread's card comes to, given the stored posts and users:
/// the card, or which of the two lookups found nothing.
pub open spec fn card_outcome(
    posts: &Posts,
    users: &Users,
    thread: ThreadView,
    sse: bool,
    r: Result<ThreadTemplate, ForumError>,
) -> bool {
    match r {
        Ok(card) => {
            &&& posts@.contains_key(thread.post)
            &&& users@.contains_key(posts@[thread.post].author)
            &&& card@ == thread_card(
                thread,
                posts@[thread.post],
                users@[posts@[thread.post].author],
                sse,
            )
        },
        Err(ForumError::PostNotFound(p)) => p == thread.post && !posts.rows().contains_key(
            p.code(),
        ),
        Err(ForumError::UserNotFound(u)) => {
            &&& posts@.contains_key(thread.post)
            &&& u == posts@[thread.post].author
            &&& !users.rows().contains_key(u.code())
        },
        Err(ForumError::Codec) => {
            ||| posts.rows().contains_key(thread.post.code()) && Post::decoding(
                posts.rows()[thread.post.code()],
            ) is None
            ||| posts@.contains_key(thread.post) && users.rows().contains_key(
                posts@[thread.post].author.code(),
            ) && User::decoding(users.rows()[posts@[thread.post].author.code()]) is None
        },
        Err(e) => e is Sled,
    }
}

impl ThreadTemplate {
    /// The card of `thread`: the thread with its root post and the root
    /// post's author looked up.
    pub fn of_thread(posts: &Posts, users: &Users, thread: Thread, sse: bool) -> (r: Result<
        ThreadTemplate,
        ForumError,
    >)
        ensures
            card_outcome(posts, users, thread@, sse, r),
    {
        let root = match posts.get(thread.post) {
            Ok(Some(root)) => root,
            Ok(None) => {
                return Err(ForumError::PostNotFound(thread.post));
            },
            Err(e) => {
                return Err(e);
            },
        };
        let author = match users.get(root.author) {
            Ok(Some(author)) => author,
            Ok(None) => {
                return Err(ForumError::UserNotFound(root.author));
            },
            Err(e) => {
                return Err(e);
            },
        };
        Ok(ThreadTemplate { key: thread.key, title: thread.title, body: root.body, author, sse })
    }
}

/// The live feed of new threads.
pub struct ThreadSse {}

impl ThreadSse {
    /// The feed of new threads.
    pub fn new() -> Self {
        ThreadSse {  }
    }

    /// What one change of the threads means for the feed: the card of an
    /// inserted thread, marked as live; nothing for a removal.
    pub fn project(&self, posts: &Posts, users: &Users, change: &Change) -> (r: Result<
        Option<ThreadTemplate>,
        ForumError,
    >)
        ensures
            match *change {
                Change::Remove { .. } => r matches Ok(None),
                Change::Insert { value, .. } => match Thread::decoding(value@) {
                    None => r matches Err(ForumError::Codec),
                    Some(thread) => match r {
                        Ok(Some(card)) => card_outcome(
                            posts,
                            users,
                            thread,
                            true,
                            Ok::<ThreadTemplate, ForumError>(card),
                        ),
                        Ok(None) => false,
                        Err(e) => card_outcome(
                            posts,
                            users,
                            thread,
                            true,
                            Err::<ThreadTemplate, ForumError>(e),
                        ),
                    },
                },
            },
    {
        match change {
            Change::Remove { .. } => Ok(None),
            Change::Insert { value, .. } => {
                let thread = match Thread::decode(value.as_slice()) {
                    Some(thread) => thread,
                    None => {
                        return Err(ForumError::Codec);
                    },
                };
                match ThreadTemplate::of_thread(posts, users, thread, true) {
                    Ok(card) => Ok(Some(card)),
                    Err(e) => Err(e),
                }
            },
        }
    }
}

} // verus!
