//! The card of one post, and the live feed of a thread's posts.

use vstd::prelude::*;
use crate::error::ForumError;
use crate::state::Record;
use crate::state::TableKey;
use crate::state::kv::Change;
use crate::state::post::Post;
use crate::state::post::PostKey;
use crate::state::post::PostView;
use crate::state::thread::ThreadKey;
use crate::state::user::User;
use crate::state::user::UserView;
use crate::state::user::Users;

verus! {

/// One post as it is shown: with its author, and marked where it arrives by
/// a live feed.
#[derive(Clone)]
pub struct PostTemplate {
    pub key: PostKey,
    pub author: User,
    pub body: String,
    pub sse: bool,
}

/// A post card as a mathematical value.
pub ghost struct PostCard {
    pub key: PostKey,
    pub author: UserView,
    pub body: Seq<char>,
    pub sse: bool,
}

impl View for PostTemplate {
    type V = PostCard;

    open spec fn view(&self) -> PostCard {
        PostCard { key: self.key, author: self.author@, body: self.body@, sse: self.sse }
    }
}

/// The card of `post` with `author` as its author.
pub open spec fn post_card(post: PostView, author: UserView, sse: bool) -> PostCard {
    PostCard { key: post.key, author, body: post.body, sse }
}

impl PostTemplate {
    /// The card of `post`: the post with its author looked up.
    pub fn of_post(users: &Users, post: &Post, sse: bool) -> (r: Result<PostTemplate, ForumError>)
        ensures
            match r {
                Ok(card) => users@.contains_key(post.author) && card@ == post_card(
                    post@,
                    users@[post.author],
                    sse,
                ),
                Err(ForumError::UserNotFound(u)) => u == post.author && !users.rows().contains_key(
                    u.code(),
                ),
                Err(ForumError::Codec) => users.rows().contains_key(post.author.code())
                    && User::decoding(users.rows()[post.author.code()]) is None,
                Err(e) => e is Sled,
            },
    {
        let author = match users.get(post.author) {
            Ok(Some(author)) => author,
            Ok(None) => {
                return Err(ForumError::UserNotFound(post.author));
            },
            Err(e) => {
                return Err(e);
            },
        };
        Ok(PostTemplate { key: post.key, body: post.body.clone(), author, sse })
    }
}

/// The live feed of the posts of one thread.
pub struct PostSse {
    pub thread_key: ThreadKey,
}

impl PostSse {
    /// The feed of the posts of the thread `thread_key`.
    pub fn new(thread_key: ThreadKey) -> (r: Self)
        ensures
            r.thread_key == thread_key,
    {
        PostSse { thread_key }
    }

    /// What one change of the posts means for the feed: the card of an
    /// inserted post of this thread, marked as live; nothing for a post of
    /// another thread and for a removal.
    pub fn project(&self, users: &Users, change: &Change) -> (r: Result<
        Option<PostTemplate>,
        ForumError,
    >)
        ensures
            match *change {
                Change::Remove { .. } => r matches Ok(None),
                Change::Insert { value, .. } => match Post::decoding(value@) {
                    None => r matches Err(ForumError::Codec),
                    Some(post) => if post.thread != self.thread_key {
                        r matches Ok(None)
                    } else {
                        match r {
                            Ok(Some(card)) => users@.contains_key(post.author) && card@
                                == post_card(post, users@[post.author], true),
                            Ok(None) => false,
                            Err(ForumError::UserNotFound(u)) => u == post.author
                                && !users.rows().contains_key(u.code()),
                            Err(ForumError::Codec) => users.rows().contains_key(post.author.code())
                                && User::decoding(users.rows()[post.author.code()]) is None,
                            Err(e) => e is Sled,
                        }
                    },
                },
            },
    {
        match change {
            Change::Remove { .. } => Ok(None),
            Change::Insert { value, .. } => {
                let post = match Post::decode(value.as_slice()) {
                    Some(post) => post,
                    None => {
                        return Err(ForumError::Codec);
                    },
                };
                if post.thread != self.thread_key {
                    return Ok(None);
                }
                match PostTemplate::of_post(users, &post, true) {
                    Ok(card) => Ok(Some(card)),
                    Err(e) => Err(e),
                }
            },
        }
    }
}

} // verus!
