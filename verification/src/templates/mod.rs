//! What the forum's pages and forms do with the stored data, and what the
//! pages are filled with.

use vstd::prelude::*;
use crate::auth::Backend;
use crate::auth::Permission;
use crate::error::ForumError;
use crate::state::post::Posts;
use crate::state::thread::Thread;
use crate::state::thread::ThreadKey;
use crate::state::user::User;
use crate::state::user::Users;
use crate::templates::partial::thread::card_outcome;
use crate::templates::thread::count_in_thread;
use crate::templates::thread::posts_of;

pub mod forum;
pub mod login;
pub mod partial;
pub mod thread;
pub mod user;

verus! {

/// Whether the visitor may post: a logged-in user with the permission to
/// post may, a visitor who is not logged in may not.
pub fn may_post(backend: &Backend, logged_in_user: &Option<User>) -> (r: Result<bool, ForumError>)
    ensures
        r matches Ok(allowed) && allowed == logged_in_user is Some,
{
    match logged_in_user {
        Some(user) => backend.has_perm(user, Permission::Post),
        None => Ok(false),
    }
}

/// The landing page.
pub struct IndexTemplate;

/// The front page as it is rendered: the thread cards as one text.
pub struct ForumTemplate {
    pub logged_in_user: Option<User>,
    pub threads: String,
    pub can_post: bool,
}

impl ForumTemplate {
    /// The front page for a visitor, with the rendered thread cards.
    pub fn new(backend: &Backend, logged_in_user: Option<User>, threads: String) -> (r: Result<
        Self,
        ForumError,
    >)
        ensures
            r matches Ok(page) && page.logged_in_user == logged_in_user && page.threads == threads
                && page.can_post == logged_in_user is Some,
    {
        match may_post(backend, &logged_in_user) {
            Ok(can_post) => Ok(ForumTemplate { logged_in_user, threads, can_post }),
            Err(e) => Err(e),
        }
    }
}

/// One thread as an index lists it: with the name of the root post's author
/// and the number of the thread's posts.
pub struct ThreadIndexTemplate {
    pub key: ThreadKey,
    pub title: String,
    pub body: String,
    pub num_posts: usize,
    pub author: String,
    pub sse: bool,
}

impl ThreadIndexTemplate {
    /// The index entry of `thread`: its card, with the stored posts of the
    /// thread counted.
    pub fn of_thread(posts: &Posts, users: &Users, thread: Thread, sse: bool) -> (r: Result<
        ThreadIndexTemplate,
        ForumError,
    >)
        ensures
            match r {
                Ok(entry) => {
                    &&& posts@.contains_key(thread.post)
                    &&& users@.contains_key(posts@[thread.post].author)
                    &&& entry.key == thread.key
                    &&& entry.title@ == thread.title@
                    &&& entry.body@ == posts@[thread.post].body
                    &&& entry.author@ == users@[posts@[thread.post].author].username
                    &&& entry.sse == sse
                    &&& entry.num_posts == posts_of(posts@, thread.key).len()
                },
                Err(e) => card_outcome(
                    posts,
                    users,
                    thread@,
                    sse,
                    Err::<partial::thread::ThreadTemplate, ForumError>(e),
                ),
            },
    {
        let key = thread.key;
        let card = match partial::thread::ThreadTemplate::of_thread(posts, users, thread, sse) {
            Ok(card) => card,
            Err(e) => {
                return Err(e);
            },
        };
        let num_posts = match count_in_thread(posts, key) {
            Ok(count) => count,
            Err(e) => {
                return Err(e);
            },
        };
        Ok(
            ThreadIndexTemplate {
                key: card.key,
                title: card.title,
                body: card.body,
                num_posts,
                author: card.author.username,
                sse: card.sse,
            },
        )
    }
}

/// A thread's page as it is rendered: the post cards as one text.
pub struct ThreadTemplate {
    pub logged_in_user: Option<User>,
    pub key: ThreadKey,
    pub posts: String,
    pub can_post: bool,
}

impl ThreadTemplate {
    /// The page of the thread `key` for a visitor, with the rendered post
    /// cards.
    pub fn new(
        backend: &Backend,
        logged_in_user: Option<User>,
        key: ThreadKey,
        posts: String,
    ) -> (r: Result<Self, ForumError>)
        ensures
            r matches Ok(page) && page.logged_in_user == logged_in_user && page.key == key
                && page.posts == posts && page.can_post == logged_in_user is Some,
    {
        match may_post(backend, &logged_in_user) {
            Ok(can_post) => Ok(ThreadTemplate { logged_in_user, key, posts, can_post }),
            Err(e) => Err(e),
        }
    }
}

/// The login page as it is rendered.
pub struct LoginTemplate {
    pub error: Option<String>,
    pub next: Option<String>,
}

/// A user's page as it is rendered.
pub struct UserTemplate {
    pub logged_in_user: Option<User>,
    pub user: User,
}

/// Marks a page that is answered as HTML.
pub struct HtmlTemplate<T>(pub T);

} // verus!
