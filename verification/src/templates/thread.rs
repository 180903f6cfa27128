//! Threads as the forum shows and changes them: opening a thread, answering
//! in one, and reading one in the order in which it is shown.

use std::collections::HashSet;
use vstd::prelude::*;
use crate::error::ForumError;
use crate::state::Record;
use crate::state::TableKey;
use crate::state::TableType;
use crate::state::codec::lemma_u64_order;
use crate::state::key::HighestKeys;
use crate::state::key::Key;
use crate::state::key::lemma_other_counters_stay;
use crate::state::key::taken;
use crate::state::lemma_typed_finite;
use crate::state::lists_typed;
use crate::state::post::Post;
use crate::state::post::PostKey;
use crate::state::post::PostSubmission;
use crate::state::post::PostView;
use crate::state::post::Posts;
use crate::state::sanitizer::Sanitizer;
use crate::state::sanitizer::sanitized;
use crate::state::some_undecodable;
use crate::state::thread::Thread;
use crate::state::thread::ThreadKey;
use crate::state::thread::ThreadSubmission;
use crate::state::thread::ThreadView;
use crate::state::thread::Threads;
use crate::state::tree::forum_ok;
use crate::state::tree::is_latest_in;
use crate::state::tree::latest_in;
use crate::state::tree::lemma_contains_push;
use crate::state::tree::lemma_latest_unique;
use crate::state::tree::lemma_open_keeps_forum;
use crate::state::tree::lemma_reply_keeps_forum;
use crate::state::tree::lemma_take_keeps_forum;
use crate::state::tree::lemma_walk_done;
use crate::state::tree::lemma_walk_miss;
use crate::state::tree::lemma_walk_skip;
use crate::state::tree::lemma_walk_take;
use crate::state::tree::replied;
use crate::state::tree::reply_post;
use crate::state::tree::root_post;
use crate::state::tree::thread_is_empty;
use crate::state::tree::walk;
use crate::state::tree::with_child;
use crate::state::typed;
use crate::state::undecodable;
use crate::state::user::User;
use crate::state::user::UserKey;
use crate::state::user::UserView;
use crate::state::user::Users;
use crate::templates::partial::post::PostTemplate;
use crate::templates::partial::post::post_card;

verus! {

/// What must hold of the stored posts, threads and counters between two
/// mutations.
pub open spec fn forum_wf(posts: &Posts, threads: &Threads, keys: &HighestKeys) -> bool {
    forum_ok(posts@, threads@, keys.rows())
}

/// The most recently inserted post of a thread: the row with the greatest
/// identifier among the posts of `thread_key`, with the identifier that the
/// post itself carries.
pub fn latest_in_thread(posts: &Posts, thread_key: ThreadKey) -> (r: Result<
    Option<(PostKey, PostKey)>,
    ForumError,
>)
    ensures
        match r {
            Ok(Some((row, key))) => is_latest_in(posts@, thread_key, row) && posts@[row].key == key,
            Ok(None) => thread_is_empty(posts@, thread_key),
            Err(e) => e is Sled,
        },
{
    let listing = match posts.iter() {
        Ok(listing) => listing.0,
        Err(e) => {
            return Err(e);
        },
    };
    let ghost table = posts@;
    let mut i: usize = listing.len();
    while i > 0
        invariant
            i <= listing.len(),
            table == posts@,
            lists_typed::<PostKey, Post>(listing@, posts.rows()),
            forall|j: int|
                i <= j < listing.len() ==> !((#[trigger] listing@[j]) matches Ok((_, post))
                    && post.thread == thread_key),
        decreases i,
    {
        i -= 1;
        match &listing[i] {
            Ok((row, post)) => {
                if post.thread == thread_key {
                    proof {
                        let at = i as int;
                        assert(listing@[at] is Ok);
                        assert forall|o: PostKey| #[trigger]
                            table.contains_key(o) && table[o].thread
                                == thread_key implies o.0.0 <= row.0.0 by {
                            let j = choose|j: int|
                                0 <= j < listing@.len() && (#[trigger] listing@[j]) is Ok
                                    && listing@[j]->Ok_0.0 == o;
                            assert(listing@[j]->Ok_0.1.thread == thread_key);
                            assert(j <= at);
                            if j < at {
                                lemma_u64_order(o.0.0, row.0.0);
                            }
                        }
                    }
                    return Ok(Some((*row, post.key)));
                }
            },
            Err(_) => {},
        }
    }
    proof {
        assert forall|o: PostKey| #[trigger] table.contains_key(o) implies table[o].thread
            != thread_key by {
            let j = choose|j: int|
                0 <= j < listing@.len() && (#[trigger] listing@[j]) is Ok && listing@[j]->Ok_0.0
                    == o;
            assert(listing@[j]->Ok_0.1@ == table[o]);
        }
    }
    Ok(None)
}

/// The stored posts of `thread`, by their identifiers.
pub open spec fn posts_of(posts: Map<PostKey, PostView>, thread: ThreadKey) -> Set<PostKey> {
    posts.dom().filter(|k: PostKey| posts[k].thread == thread)
}

/// The posts of `thread` among the first `upto` rows of a listing.
pub open spec fn hits(
    listing: Seq<Result<(PostKey, Post), ForumError>>,
    thread: ThreadKey,
    upto: int,
) -> Set<PostKey> {
    Set::new(
        |k: PostKey|
            exists|j: int|
                0 <= j < upto && (#[trigger] listing[j]) is Ok && listing[j]->Ok_0.0 == k
                    && listing[j]->Ok_0.1.thread == thread,
    )
}

/// One more row of a listing adds its post to the hits where it is a post of
/// the thread, and a post that was no hit before.
proof fn lemma_hits_step(
    listing: Seq<Result<(PostKey, Post), ForumError>>,
    rows: Map<Seq<u8>, Seq<u8>>,
    thread: ThreadKey,
    i: int,
)
    requires
        lists_typed::<PostKey, Post>(listing, rows),
        0 <= i < listing.len(),
    ensures
        listing[i] is Ok && listing[i]->Ok_0.1.thread == thread ==> {
            &&& !hits(listing, thread, i).contains(listing[i]->Ok_0.0)
            &&& hits(listing, thread, i + 1) == hits(listing, thread, i).insert(listing[i]->Ok_0.0)
        },
        !(listing[i] is Ok && listing[i]->Ok_0.1.thread == thread) ==> hits(listing, thread, i + 1)
            == hits(listing, thread, i),
{
    let before = hits(listing, thread, i);
    let after = hits(listing, thread, i + 1);
    if listing[i] is Ok && listing[i]->Ok_0.1.thread == thread {
        let key = listing[i]->Ok_0.0;
        if before.contains(key) {
            let j = choose|j: int|
                0 <= j < i && (#[trigger] listing[j]) is Ok && listing[j]->Ok_0.0 == key
                    && listing[j]->Ok_0.1.thread == thread;
            lemma_u64_order(listing[j]->Ok_0.0.0.0, key.0.0);
            assert(false);
        }
        assert forall|k: PostKey| after.contains(k) == before.insert(key).contains(k) by {
            if after.contains(k) {
                let j = choose|j: int|
                    0 <= j < i + 1 && (#[trigger] listing[j]) is Ok && listing[j]->Ok_0.0 == k
                        && listing[j]->Ok_0.1.thread == thread;
                if j < i {
                    assert(before.contains(k));
                }
            }
            if before.contains(k) {
                let j = choose|j: int|
                    0 <= j < i && (#[trigger] listing[j]) is Ok && listing[j]->Ok_0.0 == k
                        && listing[j]->Ok_0.1.thread == thread;
                assert(listing[j] is Ok);
            }
            if k == key {
                assert(listing[i] is Ok);
            }
        }
        assert(after =~= before.insert(key));
    } else {
        assert forall|k: PostKey| after.contains(k) == before.contains(k) by {
            if after.contains(k) {
                let j = choose|j: int|
                    0 <= j < i + 1 && (#[trigger] listing[j]) is Ok && listing[j]->Ok_0.0 == k
                        && listing[j]->Ok_0.1.thread == thread;
                assert(j < i);
            }
            if before.contains(k) {
                let j = choose|j: int|
                    0 <= j < i && (#[trigger] listing[j]) is Ok && listing[j]->Ok_0.0 == k
                        && listing[j]->Ok_0.1.thread == thread;
                assert(listing[j] is Ok);
            }
        }
        assert(after =~= before);
    }
}

/// The hits among all rows of a listing are the stored posts of the thread.
proof fn lemma_hits_all(
    listing: Seq<Result<(PostKey, Post), ForumError>>,
    rows: Map<Seq<u8>, Seq<u8>>,
    thread: ThreadKey,
)
    requires
        lists_typed::<PostKey, Post>(listing, rows),
    ensures
        hits(listing, thread, listing.len() as int) == posts_of(
            typed::<PostKey, Post>(rows),
            thread,
        ),
{
    let table = typed::<PostKey, Post>(rows);
    let all = hits(listing, thread, listing.len() as int);
    assert forall|k: PostKey| all.contains(k) == posts_of(table, thread).contains(k) by {
        if all.contains(k) {
            let j = choose|j: int|
                0 <= j < listing.len() && (#[trigger] listing[j]) is Ok && listing[j]->Ok_0.0 == k
                    && listing[j]->Ok_0.1.thread == thread;
            assert(table.contains_key(k) && table[k] == listing[j]->Ok_0.1@);
        }
        if posts_of(table, thread).contains(k) {
            assert(table.contains_key(k));
            let j = choose|j: int|
                0 <= j < listing.len() && (#[trigger] listing[j]) is Ok && listing[j]->Ok_0.0 == k;
            assert(table[k] == listing[j]->Ok_0.1@);
        }
    }
    assert(all =~= posts_of(table, thread));
}

/// The number of stored posts of a thread. Rows that do not decode are not
/// counted.
pub fn count_in_thread(posts: &Posts, thread: ThreadKey) -> (r: Result<usize, ForumError>)
    ensures
        match r {
            Ok(count) => posts_of(posts@, thread).finite() && count == posts_of(posts@, thread).len(),
            Err(e) => e is Sled,
        },
{
    let listing = match posts.iter() {
        Ok(listing) => listing.0,
        Err(e) => {
            return Err(e);
        },
    };
    let mut count: usize = 0;
    let mut i: usize = 0;
    assert(hits(listing@, thread, 0) =~= Set::<PostKey>::empty());
    while i < listing.len()
        invariant
            i <= listing.len(),
            lists_typed::<PostKey, Post>(listing@, posts.rows()),
            hits(listing@, thread, i as int).finite(),
            count == hits(listing@, thread, i as int).len(),
            count <= i,
        decreases listing.len() - i,
    {
        proof {
            lemma_hits_step(listing@, posts.rows(), thread, i as int);
        }
        match &listing[i] {
            Ok((_, post)) => {
                if post.thread == thread {
                    count += 1;
                }
            },
            Err(_) => {},
        }
        i += 1;
    }
    proof {
        lemma_hits_all(listing@, posts.rows(), thread);
    }
    Ok(count)
}

/// A thread that was opened.
pub struct ThreadPost(pub ThreadKey);

impl ThreadPost {
    /// Opens a thread for `actor`. Without an actor nothing is read, taken
    /// or written. With one, a thread identifier and a post identifier are
    /// taken, the root post is stored with the sanitized body and made
    /// durable, then the thread is stored with the sanitized title and made
    /// durable.
    pub fn create(
        threads: &mut Threads,
        posts: &mut Posts,
        keys: &mut HighestKeys,
        sanitizer: &Sanitizer,
        actor: Option<UserKey>,
        submission: ThreadSubmission,
    ) -> (r: Result<ThreadPost, ForumError>)
        ensures
            match r {
                Ok(ThreadPost(thread_key)) => {
                    let post_key = PostKey(
                        Key((old(keys).highest(TableType::Posts) + 1) as u64),
                    );
                    &&& actor is Some
                    &&& old(keys).highest(TableType::Threads) < u64::MAX
                    &&& old(keys).highest(TableType::Posts) < u64::MAX
                    &&& thread_key.0.0 == old(keys).highest(TableType::Threads) + 1
                    &&& final(keys).rows() == taken(
                        taken(old(keys).rows(), TableType::Threads),
                        TableType::Posts,
                    )
                    &&& final(posts)@ == old(posts)@.insert(
                        post_key,
                        root_post(post_key, actor->Some_0, sanitized(submission.body@), thread_key),
                    )
                    &&& final(threads)@ == old(threads)@.insert(
                        thread_key,
                        ThreadView {
                            key: thread_key,
                            title: sanitized(submission.title@),
                            post: post_key,
                        },
                    )
                },
                Err(ForumError::NotLoggedIn) => {
                    &&& actor is None
                    &&& final(posts).rows() == old(posts).rows()
                    &&& final(threads).rows() == old(threads).rows()
                    &&& final(keys).rows() == old(keys).rows()
                },
                Err(ForumError::Codec) => {
                    &&& actor is Some
                    &&& final(posts).rows() == old(posts).rows()
                    &&& final(threads).rows() == old(threads).rows()
                    &&& if old(keys).readable(TableType::Threads) {
                        &&& !old(keys).readable(TableType::Posts)
                        &&& old(keys).highest(TableType::Threads) < u64::MAX
                        &&& final(keys).rows() == taken(old(keys).rows(), TableType::Threads)
                    } else {
                        final(keys).rows() == old(keys).rows()
                    }
                },
                Err(ForumError::KeysExhausted(t)) => {
                    &&& actor is Some
                    &&& old(keys).highest(t) == u64::MAX
                    &&& final(posts).rows() == old(posts).rows()
                    &&& final(threads).rows() == old(threads).rows()
                    &&& if t == TableType::Threads {
                        final(keys).rows() == old(keys).rows()
                    } else {
                        &&& t == TableType::Posts
                        &&& old(keys).highest(TableType::Threads) < u64::MAX
                        &&& final(keys).rows() == taken(old(keys).rows(), TableType::Threads)
                    }
                },
                Err(e) => actor is Some && e is Sled,
            },
            !(r matches Err(ForumError::Sled(_))) && forum_wf(old(posts), old(threads), old(keys))
                ==> forum_wf(final(posts), final(threads), final(keys)),
            actor is None ==> r matches Err(ForumError::NotLoggedIn),
            actor is Some && old(keys).readable(TableType::Threads) && old(keys).readable(
                TableType::Posts,
            ) && old(keys).highest(TableType::Threads) < u64::MAX && old(keys).highest(
                TableType::Posts,
            ) < u64::MAX ==> (r is Ok || r matches Err(ForumError::Sled(_))),
    {
        proof {
            lemma_other_counters_stay(old(keys).rows(), TableType::Threads, TableType::Posts);
            if forum_wf(old(posts), old(threads), old(keys)) {
                if old(keys).highest(TableType::Threads) < u64::MAX {
                    lemma_take_keeps_forum(
                        old(posts)@,
                        old(threads)@,
                        old(keys).rows(),
                        TableType::Threads,
                    );
                    if old(keys).highest(TableType::Posts) < u64::MAX {
                        lemma_open_keeps_forum(
                            old(posts)@,
                            old(threads)@,
                            old(keys).rows(),
                            match actor {
                                Some(author) => author,
                                None => UserKey(Key(0)),
                            },
                            sanitized(submission.title@),
                            sanitized(submission.body@),
                        );
                    }
                }
            }
        }
        let author = match actor {
            Some(author) => author,
            None => {
                return Err(ForumError::NotLoggedIn);
            },
        };
        let thread_key = match threads.next_key(keys) {
            Ok(key) => key,
            Err(e) => {
                return Err(e);
            },
        };
        let post_key = match posts.next_key(keys) {
            Ok(key) => key,
            Err(e) => {
                return Err(e);
            },
        };
        let post = Post {
            key: post_key,
            author,
            body: sanitizer.clean(submission.body.as_str()),
            parent: None,
            children: Vec::new(),
            thread: thread_key,
        };
        assert(post@ == root_post(post_key, author, sanitized(submission.body@), thread_key));
        match posts.insert(post_key, post) {
            Ok(()) => {},
            Err(e) => {
                return Err(e);
            },
        }
        match posts.flush() {
            Ok(()) => {},
            Err(e) => {
                return Err(e);
            },
        }
        let thread = Thread {
            key: thread_key,
            title: sanitizer.clean(submission.title.as_str()),
            post: post_key,
        };
        match threads.insert(thread_key, thread) {
            Ok(()) => {},
            Err(e) => {
                return Err(e);
            },
        }
        match threads.flush() {
            Ok(()) => {},
            Err(e) => {
                return Err(e);
            },
        }
        Ok(ThreadPost(thread_key))
    }
}

/// The post that a reply to `thread_key` answers, with the thread that this
/// post says it is of: the most recently inserted post of the thread, read
/// again under the identifier that it carries.
fn reply_target(posts: &Posts, thread_key: ThreadKey) -> (r: Result<(PostKey, ThreadKey), ForumError>)
    ensures
        match r {
            Ok((parent, thread)) => {
                &&& latest_in(posts@, thread_key) is Some
                &&& parent == posts@[latest_in(posts@, thread_key)->Some_0].key
                &&& posts@.contains_key(parent)
                &&& thread == posts@[parent].thread
            },
            Err(ForumError::ThreadHasNoPosts(t)) => t == thread_key && thread_is_empty(
                posts@,
                thread_key,
            ),
            Err(ForumError::PostNotFound(p)) => {
                &&& latest_in(posts@, thread_key) is Some
                &&& p == posts@[latest_in(posts@, thread_key)->Some_0].key
                &&& !posts.rows().contains_key(p.code())
            },
            Err(ForumError::Codec) => {
                &&& latest_in(posts@, thread_key) is Some
                &&& Post::decoding(
                    posts.rows()[posts@[latest_in(posts@, thread_key)->Some_0].key.code()],
                ) is None
            },
            Err(e) => e is Sled,
        },
        thread_is_empty(posts@, thread_key) ==> (r matches Err(ForumError::ThreadHasNoPosts(_))
            || r matches Err(ForumError::Sled(_))),
{
    let parent_key = match latest_in_thread(posts, thread_key) {
        Ok(Some((row, key))) => {
            proof {
                lemma_latest_unique(posts@, thread_key, row);
            }
            key
        },
        Ok(None) => {
            return Err(ForumError::ThreadHasNoPosts(thread_key));
        },
        Err(e) => {
            return Err(e);
        },
    };
    match posts.get(parent_key) {
        Ok(Some(parent)) => Ok((parent_key, parent.thread)),
        Ok(None) => Err(ForumError::PostNotFound(parent_key)),
        Err(e) => Err(e),
    }
}

/// Stores `post` as an answer to the stored post `parent_key`: first the new
/// post, then the parent, read again, with the new post as its last child.
fn store_reply(posts: &mut Posts, parent_key: PostKey, post: Post) -> (r: Result<(), ForumError>)
    requires
        old(posts)@.contains_key(parent_key),
        post@.parent == Some(parent_key),
        post@.children.len() == 0,
        post@.thread == old(posts)@[parent_key].thread,
    ensures
        match r {
            Ok(()) => final(posts)@ == replied(
                old(posts)@,
                post@.key,
                post@.author,
                post@.body,
                parent_key,
            ),
            Err(e) => e is Sled,
        },
{
    let key = post.key;
    let ghost before = posts@;
    let ghost child = post@;
    proof {
        assert(child.children =~= Seq::<PostKey>::empty());
        assert(child == reply_post(
            key,
            child.author,
            child.body,
            parent_key,
            before[parent_key].thread,
        ));
    }
    match posts.insert(key, post) {
        Ok(()) => {},
        Err(e) => {
            return Err(e);
        },
    }
    let ghost added = posts@;
    assert(added.contains_key(parent_key));
    let mut parent = match posts.get(parent_key) {
        Ok(Some(parent)) => parent,
        Ok(None) => {
            return Err(ForumError::PostNotFound(parent_key));
        },
        Err(e) => {
            return Err(e);
        },
    };
    parent.children.push(key);
    proof {
        assert(parent@ == with_child(added[parent_key], key));
    }
    posts.insert(parent_key, parent)
}

/// A reply that was stored: its identifier and the thread it went to.
pub struct PostPost(pub PostKey, pub ThreadKey);

impl PostPost {
    /// Answers in a thread for `actor`. Without an actor nothing is read,
    /// taken or written. The parent is the most recently inserted post of
    /// `thread_key`; it is read again and its thread is the reply's thread.
    /// The reply is stored under a fresh identifier with the sanitized body,
    /// then the parent is read once more and stored with the reply as its last
    /// child, and the posts are made durable.
    pub fn create(
        posts: &mut Posts,
        keys: &mut HighestKeys,
        sanitizer: &Sanitizer,
        actor: Option<UserKey>,
        thread_key: ThreadKey,
        submission: PostSubmission,
    ) -> (r: Result<PostPost, ForumError>)
        ensures
            match r {
                Ok(PostPost(key, thread)) => {
                    let before = old(posts)@;
                    &&& actor is Some
                    &&& latest_in(before, thread_key) is Some
                    &&& {
                        let parent = before[latest_in(before, thread_key)->Some_0].key;
                        &&& before.contains_key(parent)
                        &&& thread == before[parent].thread
                        &&& final(posts)@ == replied(
                            before,
                            key,
                            actor->Some_0,
                            sanitized(submission.body@),
                            parent,
                        )
                    }
                    &&& old(keys).highest(TableType::Posts) < u64::MAX
                    &&& key.0.0 == old(keys).highest(TableType::Posts) + 1
                    &&& final(keys).rows() == old(keys).rows().insert(
                        TableType::Posts.code(),
                        key.code(),
                    )
                },
                Err(ForumError::ThreadHasNoPosts(t)) => {
                    &&& actor is Some
                    &&& t == thread_key
                    &&& thread_is_empty(old(posts)@, thread_key)
                    &&& final(posts).rows() == old(posts).rows()
                    &&& final(keys).rows() == old(keys).rows()
                },
                Err(ForumError::PostNotFound(p)) => {
                    &&& actor is Some
                    &&& latest_in(old(posts)@, thread_key) is Some
                    &&& p == old(posts)@[latest_in(old(posts)@, thread_key)->Some_0].key
                    &&& !old(posts).rows().contains_key(p.code())
                    &&& final(posts).rows() == old(posts).rows()
                    &&& final(keys).rows() == old(keys).rows()
                },
                Err(ForumError::NotLoggedIn) => {
                    &&& actor is None
                    &&& final(posts).rows() == old(posts).rows()
                    &&& final(keys).rows() == old(keys).rows()
                },
                Err(ForumError::Codec) => {
                    &&& actor is Some
                    &&& final(posts).rows() == old(posts).rows()
                    &&& final(keys).rows() == old(keys).rows()
                    &&& !old(keys).readable(TableType::Posts) || (latest_in(old(posts)@, thread_key)
                        is Some && Post::decoding(
                        old(posts).rows()[old(posts)@[latest_in(
                            old(posts)@,
                            thread_key,
                        )->Some_0].key.code()],
                    ) is None)
                },
                Err(ForumError::KeysExhausted(t)) => {
                    &&& actor is Some
                    &&& t == TableType::Posts
                    &&& old(keys).highest(t) == u64::MAX
                    &&& final(posts).rows() == old(posts).rows()
                    &&& final(keys).rows() == old(keys).rows()
                },
                Err(e) => actor is Some && e is Sled,
            },
            actor is None ==> r matches Err(ForumError::NotLoggedIn),
            !(r matches Err(ForumError::Sled(_))) ==> (forall|threads: &Threads|
                forum_wf(old(posts), threads, old(keys)) ==> #[trigger] forum_wf(
                    final(posts),
                    threads,
                    final(keys),
                )),
            actor is Some && thread_is_empty(old(posts)@, thread_key) ==> (r matches Err(
                ForumError::ThreadHasNoPosts(_),
            ) || r matches Err(ForumError::Sled(_))),
    {
        let author = match actor {
            Some(author) => author,
            None => {
                return Err(ForumError::NotLoggedIn);
            },
        };
        let (parent_key, thread) = match reply_target(posts, thread_key) {
            Ok(target) => target,
            Err(e) => {
                return Err(e);
            },
        };
        proof {
            if old(keys).highest(TableType::Posts) < u64::MAX {
                assert forall|threads: &Threads|
                    forum_wf(old(posts), threads, old(keys)) implies forum_ok(
                    old(posts)@,
                    threads@,
                    taken(old(keys).rows(), TableType::Posts),
                ) && forum_ok(
                    replied(
                        old(posts)@,
                        PostKey(Key((old(keys).highest(TableType::Posts) + 1) as u64)),
                        author,
                        sanitized(submission.body@),
                        parent_key,
                    ),
                    threads@,
                    taken(old(keys).rows(), TableType::Posts),
                ) by {
                    lemma_reply_keeps_forum(
                        old(posts)@,
                        threads@,
                        old(keys).rows(),
                        author,
                        sanitized(submission.body@),
                        parent_key,
                    );
                }
            }
        }
        let key = match posts.next_key(keys) {
            Ok(key) => key,
            Err(e) => {
                return Err(e);
            },
        };
        let post = Post {
            key,
            author,
            body: sanitizer.clean(submission.body.as_str()),
            parent: Some(parent_key),
            children: Vec::new(),
            thread,
        };
        match store_reply(posts, parent_key, post) {
            Ok(()) => {},
            Err(e) => {
                return Err(e);
            },
        }
        match posts.flush() {
            Ok(()) => {},
            Err(e) => {
                return Err(e);
            },
        }
        Ok(PostPost(key, thread))
    }
}

/// Whether `found` holds the stored posts with the identifiers `order`, one
/// for one.
pub open spec fn reads(found: Seq<Post>, order: Seq<PostKey>, posts: Map<PostKey, PostView>) -> bool {
    &&& found.len() == order.len()
    &&& forall|i: int| 0 <= i < order.len() ==> #[trigger] stored_at(found, order, posts, i)
}

/// Whether the `i`-th of `found` is the stored post with the `i`-th identifier
/// of `order`.
pub open spec fn stored_at(
    found: Seq<Post>,
    order: Seq<PostKey>,
    posts: Map<PostKey, PostView>,
    i: int,
) -> bool {
    posts.contains_key(order[i]) && found[i]@ == posts[order[i]]
}

/// Whether `cards` holds the cards of the stored posts with the identifiers
/// `order`, one for one, each with its stored author.
pub open spec fn shows(
    cards: Seq<PostTemplate>,
    order: Seq<PostKey>,
    posts: Map<PostKey, PostView>,
    users: Map<UserKey, UserView>,
) -> bool {
    &&& cards.len() == order.len()
    &&& forall|i: int|
        0 <= i < order.len() ==> users.contains_key(posts[order[i]].author) && (
        #[trigger] cards[i])@ == post_card(posts[order[i]], users[posts[order[i]].author], false)
}

/// One more post read keeps what was read in step with the identifiers.
proof fn lemma_reads_push(
    had: Seq<Post>,
    post: Post,
    order: Seq<PostKey>,
    k: PostKey,
    posts: Map<PostKey, PostView>,
)
    requires
        reads(had, order, posts),
        posts.contains_key(k),
        post@ == posts[k],
    ensures
        reads(had.push(post), order.push(k), posts),
{
    let found = had.push(post);
    let grown = order.push(k);
    assert forall|i: int| 0 <= i < grown.len() implies #[trigger] stored_at(
        found,
        grown,
        posts,
        i,
    ) by {
        if i < order.len() {
            assert(stored_at(had, order, posts, i));
        }
    }
}

/// Puts the children of a post on the stack, first to last.
fn push_children(stack: &mut Vec<PostKey>, children: &Vec<PostKey>)
    ensures
        final(stack)@ == old(stack)@ + children@,
{
    let mut j: usize = 0;
    assert(stack@ =~= old(stack)@ + children@.take(0));
    while j < children.len()
        invariant
            j <= children.len(),
            stack@ == old(stack)@ + children@.take(j as int),
        decreases children.len() - j,
    {
        stack.push(children[j]);
        assert(stack@ =~= old(stack)@ + children@.take(j + 1));
        j += 1;
    }
    assert(children@.take(children@.len() as int) =~= children@);
}

/// The posts of a thread in the order in which the thread is shown, read
/// from the stored tree by following the lists of children from `root`.
pub fn thread_order(posts: &Posts, root: PostKey) -> (r: Result<Vec<Post>, ForumError>)
    ensures
        match r {
            Ok(found) => {
                &&& walk(posts@, seq![root], Seq::empty()) is Some
                &&& reads(found@, walk(posts@, seq![root], Seq::empty())->Some_0, posts@)
            },
            Err(ForumError::PostNotFound(p)) => {
                &&& walk(posts@, seq![root], Seq::empty()) is None
                &&& !posts.rows().contains_key(p.code())
            },
            Err(ForumError::Codec) => {
                &&& walk(posts@, seq![root], Seq::empty()) is None
                &&& some_undecodable::<PostKey, Post>(posts.rows())
            },
            Err(e) => e is Sled,
        },
{
    broadcast use vstd::std_specs::hash::group_hash_axioms;

    let ghost goal = walk(posts@, seq![root], Seq::empty());
    let mut stack: Vec<PostKey> = Vec::new();
    stack.push(root);
    let mut seen: HashSet<u64> = HashSet::new();
    let mut found: Vec<Post> = Vec::new();
    let ghost mut order: Seq<PostKey> = Seq::empty();
    assert(stack@ =~= seq![root]);
    while stack.len() > 0
        invariant
            goal == walk(posts@, seq![root], Seq::empty()),
            forall|k: PostKey| seen@.contains(k.0.0) <==> order.contains(k),
            reads(found@, order, posts@),
            order.len() > 0 ==> posts.rows().dom().finite(),
            stack@.len() == 0 ==> order.len() > 0,
            posts.rows().dom().finite() ==> walk(posts@, stack@, order) == goal,
        decreases posts@.dom().difference(order.to_set()).len(), stack.len(),
    {
        let ghost before = stack@;
        let k = stack[stack.len() - 1];
        stack.pop();
        assert(before.last() == k && before.drop_last() == stack@);
        if seen.contains(&k.0.0) {
            proof {
                assert(order.contains(k));
                lemma_typed_finite::<PostKey, Post>(posts.rows());
                lemma_walk_skip(posts@, before, order);
            }
        } else {
            assert(!order.contains(k));
            let post = match posts.get(k) {
                Ok(Some(post)) => post,
                Ok(None) => {
                    proof {
                        lemma_typed_finite::<PostKey, Post>(posts.rows());
                        lemma_walk_miss(posts@, before, order);
                    }
                    return Err(ForumError::PostNotFound(k));
                },
                Err(e) => {
                    proof {
                        if e is Codec {
                            lemma_typed_finite::<PostKey, Post>(posts.rows());
                            lemma_walk_miss(posts@, before, order);
                            assert(undecodable::<PostKey, Post>(posts.rows(), k));
                        }
                    }
                    return Err(e);
                },
            };
            proof {
                lemma_typed_finite::<PostKey, Post>(posts.rows());
                lemma_walk_take(posts@, before, order);
                lemma_reads_push(found@, post, order, k, posts@);
                assert forall|o: PostKey| (seen@.insert(k.0.0).contains(o.0.0) <==> order.push(
                    k,
                ).contains(o)) by {
                    lemma_contains_push(order, k, o);
                }
            }
            push_children(&mut stack, &post.children);
            seen.insert(k.0.0);
            found.push(post);
            proof {
                order = order.push(k);
            }
        }
    }
    proof {
        lemma_typed_finite::<PostKey, Post>(posts.rows());
        lemma_walk_done(posts@, order);
        assert(stack@ =~= Seq::empty());
    }
    Ok(found)
}

/// A thread as it is shown: its posts in the order of the walk from its
/// root, each with its author.
pub struct ThreadGet {
    pub key: ThreadKey,
    pub posts: Vec<PostTemplate>,
}

/// The cards of `found`, one for one, each with its author looked up.
fn cards_of(users: &Users, found: &Vec<Post>, Ghost(order): Ghost<Seq<PostKey>>, Ghost(posts): Ghost<
    Map<PostKey, PostView>,
>) -> (r: Result<Vec<PostTemplate>, ForumError>)
    requires
        reads(found@, order, posts),
    ensures
        match r {
            Ok(cards) => shows(cards@, order, posts, users@),
            Err(ForumError::UserNotFound(u)) => !users.rows().contains_key(u.code()),
            Err(ForumError::Codec) => some_undecodable::<UserKey, User>(users.rows()),
            Err(e) => e is Sled,
        },
{
    let mut cards: Vec<PostTemplate> = Vec::new();
    let mut i: usize = 0;
    while i < found.len()
        invariant
            i <= found.len(),
            cards@.len() == i,
            reads(found@, order, posts),
            forall|j: int|
                0 <= j < i ==> users@.contains_key(posts[order[j]].author) && (
                #[trigger] cards@[j])@ == post_card(
                    posts[order[j]],
                    users@[posts[order[j]].author],
                    false,
                ),
        decreases found.len() - i,
    {
        assert(stored_at(found@, order, posts, i as int));
        let ghost had = cards@;
        match PostTemplate::of_post(users, &found[i], false) {
            Ok(card) => {
                cards.push(card);
                assert forall|j: int| 0 <= j < i + 1 implies users@.contains_key(
                    posts[order[j]].author,
                ) && (#[trigger] cards@[j])@ == post_card(
                    posts[order[j]],
                    users@[posts[order[j]].author],
                    false,
                ) by {
                    if j < i {
                        assert(cards@[j] == had[j]);
                    }
                }
            },
            Err(e) => {
                assert(e is Codec ==> undecodable::<UserKey, User>(
                    users.rows(),
                    found@[i as int].author,
                ));
                return Err(e);
            },
        }
        i += 1;
    }
    Ok(cards)
}

impl ThreadGet {
    /// Reads the thread `thread_key`: its posts in the order of the walk from
    /// its root post, each with its author looked up. Nothing is written.
    pub fn load(threads: &Threads, posts: &Posts, users: &Users, thread_key: ThreadKey) -> (r:
        Result<ThreadGet, ForumError>)
        ensures
            match r {
                Ok(page) => {
                    &&& page.key == thread_key
                    &&& threads@.contains_key(thread_key)
                    &&& walk(posts@, seq![threads@[thread_key].post], Seq::empty()) is Some
                    &&& shows(
                        page.posts@,
                        walk(posts@, seq![threads@[thread_key].post], Seq::empty())->Some_0,
                        posts@,
                        users@,
                    )
                },
                Err(ForumError::ThreadNotFound(t)) => t == thread_key
                    && !threads.rows().contains_key(t.code()),
                Err(ForumError::PostNotFound(p)) => {
                    &&& threads@.contains_key(thread_key)
                    &&& walk(posts@, seq![threads@[thread_key].post], Seq::empty()) is None
                    &&& !posts.rows().contains_key(p.code())
                },
                Err(ForumError::UserNotFound(u)) => {
                    &&& threads@.contains_key(thread_key)
                    &&& walk(posts@, seq![threads@[thread_key].post], Seq::empty()) is Some
                    &&& !users.rows().contains_key(u.code())
                },
                Err(ForumError::Codec) => {
                    ||| undecodable::<ThreadKey, Thread>(threads.rows(), thread_key)
                    ||| {
                        &&& threads@.contains_key(thread_key)
                        &&& walk(posts@, seq![threads@[thread_key].post], Seq::empty()) is None
                        &&& some_undecodable::<PostKey, Post>(posts.rows())
                    }
                    ||| {
                        &&& threads@.contains_key(thread_key)
                        &&& walk(posts@, seq![threads@[thread_key].post], Seq::empty()) is Some
                        &&& some_undecodable::<UserKey, User>(users.rows())
                    }
                },
                Err(e) => e is Sled,
            },
            !threads.rows().contains_key(thread_key.code()) ==> (r matches Err(
                ForumError::ThreadNotFound(_),
            ) || r matches Err(ForumError::Sled(_))),
    {
        let thread = match threads.get(thread_key) {
            Ok(Some(thread)) => thread,
            Ok(None) => {
                return Err(ForumError::ThreadNotFound(thread_key));
            },
            Err(e) => {
                return Err(e);
            },
        };
        let found = match thread_order(posts, thread.post) {
            Ok(found) => found,
            Err(e) => {
                return Err(e);
            },
        };
        let ghost order = walk(posts@, seq![thread.post], Seq::empty())->Some_0;
        match cards_of(users, &found, Ghost(order), Ghost(posts@)) {
            Ok(cards) => Ok(ThreadGet { key: thread_key, posts: cards }),
            Err(e) => Err(e),
        }
    }
}

} // verus!
