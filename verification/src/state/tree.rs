//! The thread/post tree as a mathematical object: what must hold of the
//! stored posts and threads, what the two mutations make of them, and the
//! proofs that the mutations keep what must hold.

use vstd::prelude::*;
use crate::state::TableType;
use crate::state::key::Key;
use crate::state::key::highest_in;
use crate::state::key::lemma_other_counters_stay;
use crate::state::key::lemma_taken;
use crate::state::key::readable_in;
use crate::state::key::taken;
use crate::state::post::PostKey;
use crate::state::post::PostView;
use crate::state::thread::ThreadKey;
use crate::state::thread::ThreadView;
use crate::state::user::UserKey;

verus! {

/// Every post carries the identifier that it is stored under.
pub open spec fn posts_keyed(posts: Map<PostKey, PostView>) -> bool {
    forall|k: PostKey| #[trigger] posts.contains_key(k) ==> posts[k].key == k
}

/// Every post that answers another is of the same thread as the post it
/// answers, and that post is stored.
pub open spec fn parents_agree(posts: Map<PostKey, PostView>) -> bool {
    forall|k: PostKey| #[trigger]
        posts.contains_key(k) ==> (posts[k].parent matches Some(q) ==> posts.contains_key(q)
            && posts[q].thread == posts[k].thread)
}

/// Every post that answers another is listed among the children of the post
/// it answers.
pub open spec fn children_listed(posts: Map<PostKey, PostView>) -> bool {
    forall|k: PostKey| #[trigger]
        posts.contains_key(k) ==> (posts[k].parent matches Some(q) ==> posts.contains_key(q)
            && posts[q].children.contains(posts[k].key))
}

/// Every thread's root post is stored, answers no post and is of that thread.
pub open spec fn threads_rooted(
    posts: Map<PostKey, PostView>,
    threads: Map<ThreadKey, ThreadView>,
) -> bool {
    forall|t: ThreadKey| #[trigger]
        threads.contains_key(t) ==> posts.contains_key(threads[t].post)
            && posts[threads[t].post].parent is None && posts[threads[t].post].thread
            == threads[t].key
}

/// Every post that is listed as a child is stored and answers the post that
/// lists it.
pub open spec fn children_answer(posts: Map<PostKey, PostView>) -> bool {
    forall|k: PostKey, i: int|
        posts.contains_key(k) && 0 <= i < posts[k].children.len() ==> posts.contains_key(
            #[trigger] posts[k].children[i],
        ) && posts[posts[k].children[i]].parent == Some(posts[k].key)
}

/// Every post that answers another has the greater identifier of the two, so
/// that no chain of answers comes back to where it began.
pub open spec fn parents_first(posts: Map<PostKey, PostView>) -> bool {
    forall|k: PostKey| #[trigger]
        posts.contains_key(k) ==> (posts[k].parent matches Some(q) ==> q.0.0 < k.0.0)
}

/// Every thread carries the identifier that it is stored under.
pub open spec fn threads_keyed(threads: Map<ThreadKey, ThreadView>) -> bool {
    forall|t: ThreadKey| #[trigger] threads.contains_key(t) ==> threads[t].key == t
}

/// A stored thread has no root but its own: a post of the thread that answers
/// no post is the thread's root post.
pub open spec fn roots_single(
    posts: Map<PostKey, PostView>,
    threads: Map<ThreadKey, ThreadView>,
) -> bool {
    forall|k: PostKey, t: ThreadKey|
        #![trigger posts.contains_key(k), threads.contains_key(t)]
        posts.contains_key(k) && threads.contains_key(t) && posts[k].parent is None
            && posts[k].thread == threads[t].key ==> threads[t].post == k
}

/// No stored post is of a thread with an identifier above `highest`.
pub open spec fn post_threads_below(posts: Map<PostKey, PostView>, highest: u64) -> bool {
    forall|k: PostKey| #[trigger] posts.contains_key(k) ==> posts[k].thread.0.0 <= highest
}

/// No stored post has an identifier above `highest`.
pub open spec fn posts_below(posts: Map<PostKey, PostView>, highest: u64) -> bool {
    forall|k: PostKey| #[trigger] posts.contains_key(k) ==> k.0.0 <= highest
}

/// No stored thread has an identifier above `highest`.
pub open spec fn threads_below(threads: Map<ThreadKey, ThreadView>, highest: u64) -> bool {
    forall|t: ThreadKey| #[trigger] threads.contains_key(t) ==> t.0.0 <= highest
}

/// What must hold of the stored tree between two mutations.
pub open spec fn tree_wf(
    posts: Map<PostKey, PostView>,
    threads: Map<ThreadKey, ThreadView>,
) -> bool {
    &&& posts_keyed(posts)
    &&& parents_agree(posts)
    &&& children_listed(posts)
    &&& children_answer(posts)
    &&& parents_first(posts)
    &&& threads_keyed(threads)
    &&& threads_rooted(posts, threads)
    &&& roots_single(posts, threads)
}

/// The first post of a new thread.
pub open spec fn root_post(
    key: PostKey,
    author: UserKey,
    body: Seq<char>,
    thread: ThreadKey,
) -> PostView {
    PostView { key, body, author, parent: None, children: Seq::empty(), thread }
}

/// A post that answers `parent`.
pub open spec fn reply_post(
    key: PostKey,
    author: UserKey,
    body: Seq<char>,
    parent: PostKey,
    thread: ThreadKey,
) -> PostView {
    PostView { key, body, author, parent: Some(parent), children: Seq::empty(), thread }
}

/// `parent` with one more child at the end of its list.
pub open spec fn with_child(parent: PostView, child: PostKey) -> PostView {
    PostView { children: parent.children.push(child), ..parent }
}

/// The posts after a reply was stored: the new post under `key`, then its
/// parent, read again, with the new post as its last child.
pub open spec fn replied(
    posts: Map<PostKey, PostView>,
    key: PostKey,
    author: UserKey,
    body: Seq<char>,
    parent: PostKey,
) -> Map<PostKey, PostView> {
    let added = posts.insert(key, reply_post(key, author, body, parent, posts[parent].thread));
    added.insert(parent, with_child(added[parent], key))
}

/// Whether `k` is the stored post of `thread` with the greatest identifier.
pub open spec fn is_latest_in(posts: Map<PostKey, PostView>, thread: ThreadKey, k: PostKey) -> bool {
    &&& posts.contains_key(k)
    &&& posts[k].thread == thread
    &&& forall|o: PostKey| #[trigger]
        posts.contains_key(o) && posts[o].thread == thread ==> o.0.0 <= k.0.0
}

/// Whether no stored post is of `thread`.
pub open spec fn thread_is_empty(posts: Map<PostKey, PostView>, thread: ThreadKey) -> bool {
    forall|o: PostKey| #[trigger] posts.contains_key(o) ==> posts[o].thread != thread
}

/// The stored post of `thread` with the greatest identifier, if there is one.
pub open spec fn latest_in(posts: Map<PostKey, PostView>, thread: ThreadKey) -> Option<PostKey> {
    if exists|k: PostKey| is_latest_in(posts, thread, k) {
        Some(choose|k: PostKey| is_latest_in(posts, thread, k))
    } else {
        None
    }
}

/// A thread has at most one latest post.
pub proof fn lemma_latest_unique(posts: Map<PostKey, PostView>, thread: ThreadKey, k: PostKey)
    requires
        is_latest_in(posts, thread, k),
    ensures
        latest_in(posts, thread) == Some(k),
{
    let other = choose|o: PostKey| is_latest_in(posts, thread, o);
    assert(other.0.0 <= k.0.0);
    assert(k.0.0 <= other.0.0);
}

/// The order in which a thread is shown. Posts are taken from the end of
/// `stack`; one that was taken before is passed over, any other is appended to
/// `seen` and its children are put on the stack, so that its last child comes
/// next. The walk has no result where it meets a post that is not stored.
#[verifier::opaque]
pub open spec fn walk(
    posts: Map<PostKey, PostView>,
    stack: Seq<PostKey>,
    seen: Seq<PostKey>,
) -> Option<Seq<PostKey>>
    decreases posts.dom().difference(seen.to_set()).len(), stack.len(),
    when posts.dom().finite()
{
    if stack.len() == 0 {
        Some(seen)
    } else {
        let k = stack.last();
        let rest = stack.drop_last();
        if seen.contains(k) {
            walk(posts, rest, seen)
        } else if !posts.contains_key(k) {
            None
        } else {
            proof {
                lemma_walk_step(posts, seen, k);
            }
            walk(posts, rest + posts[k].children, seen.push(k))
        }
    }
}

/// Taking a stored post that was not taken before leaves fewer posts to take.
pub proof fn lemma_walk_step(posts: Map<PostKey, PostView>, seen: Seq<PostKey>, k: PostKey)
    requires
        posts.dom().finite(),
        posts.contains_key(k),
        !seen.contains(k),
    ensures
        posts.dom().difference(seen.push(k).to_set()).len() < posts.dom().difference(
            seen.to_set(),
        ).len(),
{
    let left = posts.dom().difference(seen.to_set());
    let fewer = posts.dom().difference(seen.push(k).to_set());
    assert(left.contains(k));
    assert(fewer =~= left.remove(k)) by {
        assert forall|o: PostKey| fewer.contains(o) == left.remove(k).contains(o) by {
            if o == k {
                assert(seen.push(k)[seen.len() as int] == k);
            } else {
                if seen.contains(o) {
                    let i = choose|i: int| 0 <= i < seen.len() && seen[i] == o;
                    assert(seen.push(k)[i] == o);
                }
                if seen.push(k).contains(o) {
                    let i = choose|i: int| 0 <= i < seen.push(k).len() && seen.push(k)[i] == o;
                    assert(seen[i] == o);
                }
            }
        }
    }
}

/// A walk with nothing left to take has taken what it has seen.
pub proof fn lemma_walk_done(posts: Map<PostKey, PostView>, seen: Seq<PostKey>)
    requires
        posts.dom().finite(),
    ensures
        walk(posts, Seq::empty(), seen) == Some(seen),
{
    reveal(walk);
}

/// A walk passes over a post that it has taken before.
pub proof fn lemma_walk_skip(posts: Map<PostKey, PostView>, stack: Seq<PostKey>, seen: Seq<PostKey>)
    requires
        posts.dom().finite(),
        stack.len() > 0,
        seen.contains(stack.last()),
    ensures
        walk(posts, stack, seen) == walk(posts, stack.drop_last(), seen),
{
    reveal(walk);
}

/// A walk that meets a post that is not stored has no result.
pub proof fn lemma_walk_miss(posts: Map<PostKey, PostView>, stack: Seq<PostKey>, seen: Seq<PostKey>)
    requires
        posts.dom().finite(),
        stack.len() > 0,
        !seen.contains(stack.last()),
        !posts.contains_key(stack.last()),
    ensures
        walk(posts, stack, seen) is None,
{
    reveal(walk);
}

/// A walk takes a stored post that it has not taken before, and goes on with
/// the post's children on top of what was left.
pub proof fn lemma_walk_take(posts: Map<PostKey, PostView>, stack: Seq<PostKey>, seen: Seq<PostKey>)
    requires
        posts.dom().finite(),
        stack.len() > 0,
        !seen.contains(stack.last()),
        posts.contains_key(stack.last()),
    ensures
        walk(posts, stack, seen) == walk(
            posts,
            stack.drop_last() + posts[stack.last()].children,
            seen.push(stack.last()),
        ),
        posts.dom().difference(seen.push(stack.last()).to_set()).len() < posts.dom().difference(
            seen.to_set(),
        ).len(),
{
    reveal(walk);
    lemma_walk_step(posts, seen, stack.last());
}

/// What has been taken stays found after one more post is taken, and the new
/// post is found too.
pub proof fn lemma_contains_push(seen: Seq<PostKey>, k: PostKey, o: PostKey)
    ensures
        seen.push(k).contains(o) <==> (o == k || seen.contains(o)),
{
    let grown = seen.push(k);
    if o == k {
        assert(grown[seen.len() as int] == k);
    }
    if seen.contains(o) {
        let i = choose|i: int| 0 <= i < seen.len() && seen[i] == o;
        assert(grown[i] == o);
    }
    if grown.contains(o) && o != k {
        let i = choose|i: int| 0 <= i < grown.len() && grown[i] == o;
        assert(seen[i] == o);
    }
}

/// Opening a thread keeps the tree well-formed: with a root post under an
/// identifier that no stored post has, the posts are well-formed before the
/// thread's own row is written and after it.
pub proof fn lemma_open_keeps_tree(
    posts: Map<PostKey, PostView>,
    threads: Map<ThreadKey, ThreadView>,
    post_key: PostKey,
    thread_key: ThreadKey,
    author: UserKey,
    title: Seq<char>,
    body: Seq<char>,
)
    requires
        tree_wf(posts, threads),
        !posts.contains_key(post_key),
        !threads.contains_key(thread_key),
        forall|k: PostKey| #[trigger] posts.contains_key(k) ==> posts[k].thread != thread_key,
    ensures
        tree_wf(posts.insert(post_key, root_post(post_key, author, body, thread_key)), threads),
        tree_wf(
            posts.insert(post_key, root_post(post_key, author, body, thread_key)),
            threads.insert(thread_key, ThreadView { key: thread_key, title, post: post_key }),
        ),
{
    let posts2 = posts.insert(post_key, root_post(post_key, author, body, thread_key));
    let threads2 = threads.insert(
        thread_key,
        ThreadView { key: thread_key, title, post: post_key },
    );
    assert forall|k: PostKey| #[trigger] posts2.contains_key(k) implies (posts2[k].parent matches Some(
        q,
    ) ==> posts2.contains_key(q) && posts2[q].thread == posts2[k].thread
        && posts2[q].children.contains(posts2[k].key)) by {
        if k != post_key {
            assert(posts.contains_key(k));
        }
    }
    assert forall|t: ThreadKey| #[trigger] threads2.contains_key(t) implies posts2.contains_key(
        threads2[t].post,
    ) && posts2[threads2[t].post].parent is None && posts2[threads2[t].post].thread
        == threads2[t].key by {
        if t != thread_key {
            assert(threads.contains_key(t));
        }
    }
    assert forall|t: ThreadKey| #[trigger] threads.contains_key(t) implies posts2.contains_key(
        threads[t].post,
    ) && posts2[threads[t].post].parent is None && posts2[threads[t].post].thread
        == threads[t].key by {
    }
    assert forall|k: PostKey, i: int|
        posts2.contains_key(k) && 0 <= i < posts2[k].children.len() implies posts2.contains_key(
        #[trigger] posts2[k].children[i],
    ) && posts2[posts2[k].children[i]].parent == Some(posts2[k].key) by {
        assert(posts.contains_key(k));
        assert(posts.contains_key(posts[k].children[i]));
    }
    assert forall|k: PostKey, t: ThreadKey|
        #![trigger posts2.contains_key(k), threads2.contains_key(t)]
        posts2.contains_key(k) && threads2.contains_key(t) && posts2[k].parent is None
            && posts2[k].thread == threads2[t].key implies threads2[t].post == k by {
        if t != thread_key {
            assert(threads.contains_key(t));
            if k != post_key {
                assert(posts.contains_key(k));
            }
        } else {
            if k != post_key {
                assert(posts.contains_key(k));
            }
        }
    }
    assert forall|k: PostKey, t: ThreadKey|
        #![trigger posts2.contains_key(k), threads.contains_key(t)]
        posts2.contains_key(k) && threads.contains_key(t) && posts2[k].parent is None
            && posts2[k].thread == threads[t].key implies threads[t].post == k by {
        if k != post_key {
            assert(posts.contains_key(k));
        }
    }
}

/// A reply keeps the tree well-formed and lists the new post under the post
/// it answers: this holds once both writes are done, for a stored parent and
/// an identifier that no stored post has.
pub proof fn lemma_reply_keeps_tree(
    posts: Map<PostKey, PostView>,
    threads: Map<ThreadKey, ThreadView>,
    key: PostKey,
    author: UserKey,
    body: Seq<char>,
    parent: PostKey,
)
    requires
        tree_wf(posts, threads),
        posts.contains_key(parent),
        !posts.contains_key(key),
        parent.0.0 < key.0.0,
    ensures
        tree_wf(replied(posts, key, author, body, parent), threads),
        replied(posts, key, author, body, parent)[key].parent == Some(parent),
        replied(posts, key, author, body, parent)[key].thread == replied(
            posts,
            key,
            author,
            body,
            parent,
        )[parent].thread,
        replied(posts, key, author, body, parent)[parent].children.contains(key),
{
    let child = reply_post(key, author, body, parent, posts[parent].thread);
    let added = posts.insert(key, child);
    let grown = with_child(posts[parent], key);
    let after = replied(posts, key, author, body, parent);
    assert(after == added.insert(parent, grown));
    assert(grown.children.last() == key);
    assert forall|k: PostKey| #[trigger] after.contains_key(k) implies (after[k].parent matches Some(
        q,
    ) ==> after.contains_key(q) && after[q].thread == after[k].thread && after[q].children.contains(
        after[k].key,
    )) by {
        if k != key {
            assert(posts.contains_key(k));
            if posts[k].parent == Some(parent) {
                let i = choose|i: int|
                    0 <= i < posts[parent].children.len() && posts[parent].children[i]
                        == posts[k].key;
                assert(grown.children[i] == posts[k].key);
            }
        }
    }
    assert forall|t: ThreadKey| #[trigger] threads.contains_key(t) implies after.contains_key(
        threads[t].post,
    ) && after[threads[t].post].parent is None && after[threads[t].post].thread
        == threads[t].key by {
    }
    assert forall|k: PostKey, i: int|
        after.contains_key(k) && 0 <= i < after[k].children.len() implies after.contains_key(
        #[trigger] after[k].children[i],
    ) && after[after[k].children[i]].parent == Some(after[k].key) by {
        if k == parent {
            if i < posts[parent].children.len() {
                assert(grown.children[i] == posts[parent].children[i]);
                assert(posts.contains_key(posts[parent].children[i]));
            }
        } else if k != key {
            assert(posts.contains_key(k));
            assert(posts.contains_key(posts[k].children[i]));
        }
    }
    assert forall|k: PostKey, t: ThreadKey|
        #![trigger after.contains_key(k), threads.contains_key(t)]
        after.contains_key(k) && threads.contains_key(t) && after[k].parent is None
            && after[k].thread == threads[t].key implies threads[t].post == k by {
        if k != key {
            assert(posts.contains_key(k));
        }
    }
}

/// Between the two writes of a reply every post still agrees with the post
/// it answers; only the new post is not yet listed by its parent.
pub proof fn lemma_reply_first_write(
    posts: Map<PostKey, PostView>,
    key: PostKey,
    author: UserKey,
    body: Seq<char>,
    parent: PostKey,
)
    requires
        posts_keyed(posts),
        parents_agree(posts),
        posts.contains_key(parent),
        !posts.contains_key(key),
    ensures
        parents_agree(
            posts.insert(key, reply_post(key, author, body, parent, posts[parent].thread)),
        ),
        posts_keyed(posts.insert(key, reply_post(key, author, body, parent, posts[parent].thread))),
{
    let added = posts.insert(key, reply_post(key, author, body, parent, posts[parent].thread));
    assert forall|k: PostKey| #[trigger] added.contains_key(k) implies (added[k].parent matches Some(
        q,
    ) ==> added.contains_key(q) && added[q].thread == added[k].thread) by {
        if k != key {
            assert(posts.contains_key(k));
        }
    }
}

/// What must hold of the stored posts, threads and counters between two
/// mutations: the tree is well-formed, and the counters of posts and of
/// threads can be read and are not below any stored post, any stored thread
/// or the thread of any stored post.
pub open spec fn forum_ok(
    posts: Map<PostKey, PostView>,
    threads: Map<ThreadKey, ThreadView>,
    keys: Map<Seq<u8>, Seq<u8>>,
) -> bool {
    &&& tree_wf(posts, threads)
    &&& readable_in(keys, TableType::Posts)
    &&& readable_in(keys, TableType::Threads)
    &&& posts_below(posts, highest_in(keys, TableType::Posts))
    &&& threads_below(threads, highest_in(keys, TableType::Threads))
    &&& post_threads_below(posts, highest_in(keys, TableType::Threads))
}

/// Taking an identifier keeps the forum well-formed.
pub proof fn lemma_take_keeps_forum(
    posts: Map<PostKey, PostView>,
    threads: Map<ThreadKey, ThreadView>,
    keys: Map<Seq<u8>, Seq<u8>>,
    table: TableType,
)
    requires
        forum_ok(posts, threads, keys),
        highest_in(keys, table) < u64::MAX,
    ensures
        forum_ok(posts, threads, taken(keys, table)),
{
    lemma_taken(keys, table);
    if table != TableType::Posts {
        lemma_other_counters_stay(keys, table, TableType::Posts);
    }
    if table != TableType::Threads {
        lemma_other_counters_stay(keys, table, TableType::Threads);
    }
}

/// Opening a thread keeps the forum well-formed: with the next thread
/// identifier and the next post identifier, the forum is well-formed once
/// the two identifiers are taken, once the root post is stored, and once the
/// thread is stored.
pub proof fn lemma_open_keeps_forum(
    posts: Map<PostKey, PostView>,
    threads: Map<ThreadKey, ThreadView>,
    keys: Map<Seq<u8>, Seq<u8>>,
    author: UserKey,
    title: Seq<char>,
    body: Seq<char>,
)
    requires
        forum_ok(posts, threads, keys),
        highest_in(keys, TableType::Threads) < u64::MAX,
        highest_in(keys, TableType::Posts) < u64::MAX,
    ensures
        ({
            let thread_key = ThreadKey(Key((highest_in(keys, TableType::Threads) + 1) as u64));
            let post_key = PostKey(Key((highest_in(keys, TableType::Posts) + 1) as u64));
            let after = taken(taken(keys, TableType::Threads), TableType::Posts);
            let rooted = posts.insert(post_key, root_post(post_key, author, body, thread_key));
            &&& forum_ok(posts, threads, after)
            &&& forum_ok(rooted, threads, after)
            &&& forum_ok(
                rooted,
                threads.insert(thread_key, ThreadView { key: thread_key, title, post: post_key }),
                after,
            )
        }),
{
    let thread_key = ThreadKey(Key((highest_in(keys, TableType::Threads) + 1) as u64));
    let post_key = PostKey(Key((highest_in(keys, TableType::Posts) + 1) as u64));
    let first = taken(keys, TableType::Threads);
    lemma_take_keeps_forum(posts, threads, keys, TableType::Threads);
    lemma_taken(keys, TableType::Threads);
    lemma_other_counters_stay(keys, TableType::Threads, TableType::Posts);
    lemma_take_keeps_forum(posts, threads, first, TableType::Posts);
    lemma_taken(first, TableType::Posts);
    lemma_other_counters_stay(first, TableType::Posts, TableType::Threads);
    assert(!posts.contains_key(post_key));
    assert(!threads.contains_key(thread_key));
    assert forall|k: PostKey| #[trigger] posts.contains_key(k) implies posts[k].thread
        != thread_key by {
        assert(posts[k].thread.0.0 <= highest_in(keys, TableType::Threads));
    }
    lemma_open_keeps_tree(posts, threads, post_key, thread_key, author, title, body);
}

/// A reply keeps the forum well-formed: with the next post identifier and
/// a stored parent, the forum is well-formed once the identifier is taken and
/// once both writes of the reply are done.
pub proof fn lemma_reply_keeps_forum(
    posts: Map<PostKey, PostView>,
    threads: Map<ThreadKey, ThreadView>,
    keys: Map<Seq<u8>, Seq<u8>>,
    author: UserKey,
    body: Seq<char>,
    parent: PostKey,
)
    requires
        forum_ok(posts, threads, keys),
        posts.contains_key(parent),
        highest_in(keys, TableType::Posts) < u64::MAX,
    ensures
        ({
            let key = PostKey(Key((highest_in(keys, TableType::Posts) + 1) as u64));
            let after = taken(keys, TableType::Posts);
            &&& forum_ok(posts, threads, after)
            &&& forum_ok(replied(posts, key, author, body, parent), threads, after)
        }),
{
    let key = PostKey(Key((highest_in(keys, TableType::Posts) + 1) as u64));
    lemma_take_keeps_forum(posts, threads, keys, TableType::Posts);
    lemma_taken(keys, TableType::Posts);
    lemma_other_counters_stay(keys, TableType::Posts, TableType::Threads);
    assert(parent.0.0 <= highest_in(keys, TableType::Posts));
    lemma_reply_keeps_tree(posts, threads, key, author, body, parent);
}

} // verus!
