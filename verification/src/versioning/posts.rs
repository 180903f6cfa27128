//! The migrations of the posts: the step from version 1, a linear sequence
//! of posts, to version 2, where each post is linked to its neighbours, and
//! the step to version 3, where each post knows its thread.

use std::collections::HashSet;
use vstd::prelude::*;
use crate::error::ForumError;
use crate::state::Record;
use crate::state::TableType;
use crate::state::codec::lemma_u64_order;
use crate::state::fully_typed;
use crate::state::key::HighestKeys;
use crate::state::key::Key;
use crate::state::key::highest_in;
use crate::state::key::taken;
use crate::state::lemma_rewritten;
use crate::state::lemma_typed_finite;
use crate::state::lists_typed;
use crate::state::post::Post;
use crate::state::post::PostKey;
use crate::state::post::PostView;
use crate::state::post::Posts;
use crate::state::thread::Thread;
use crate::state::thread::ThreadKey;
use crate::state::thread::ThreadView;
use crate::state::thread::Threads;
use crate::state::typed;
use crate::versioning::first_failure;
use crate::versioning::records::PostV1;
use crate::versioning::records::PostV1View;
use crate::versioning::records::PostV2;
use crate::versioning::records::PostV2View;

verus! {

/// Whether `p` is the key just before `k` among `keys`.
pub open spec fn is_pred(keys: Set<PostKey>, k: PostKey, p: PostKey) -> bool {
    &&& keys.contains(p)
    &&& p.0.0 < k.0.0
    &&& forall|q: PostKey| #[trigger] keys.contains(q) && q.0.0 < k.0.0 ==> q.0.0 <= p.0.0
}

/// Whether `s` is the key just after `k` among `keys`.
pub open spec fn is_succ(keys: Set<PostKey>, k: PostKey, s: PostKey) -> bool {
    &&& keys.contains(s)
    &&& k.0.0 < s.0.0
    &&& forall|q: PostKey| #[trigger] keys.contains(q) && k.0.0 < q.0.0 ==> s.0.0 <= q.0.0
}

/// The key just before `k` among `keys`, if there is one.
pub open spec fn pred_of(keys: Set<PostKey>, k: PostKey) -> Option<PostKey> {
    if exists|p: PostKey| is_pred(keys, k, p) {
        Some(choose|p: PostKey| is_pred(keys, k, p))
    } else {
        None
    }
}

/// The key just after `k` among `keys`, if there is one.
pub open spec fn succ_of(keys: Set<PostKey>, k: PostKey) -> Option<PostKey> {
    if exists|s: PostKey| is_succ(keys, k, s) {
        Some(choose|s: PostKey| is_succ(keys, k, s))
    } else {
        None
    }
}

/// A version 1 post at version 2: it answers the post before it and is
/// answered by the post after it.
pub open spec fn linked(p: PostV1View, before: Option<PostKey>, after: Option<PostKey>) -> PostV2View {
    PostV2View {
        key: p.key,
        body: p.body,
        author: p.author,
        parent: before,
        children: match after {
            Some(s) => seq![s],
            None => Seq::empty(),
        },
    }
}

/// The posts at version 2 that come of rows at version 1: each post linked
/// to its neighbours in the order of the identifiers that the posts are stored
/// under. Each row derives both of its links from that one order, so a post
/// lists as its child exactly the post that names it as its parent.
pub open spec fn linked_posts(rows: Map<Seq<u8>, Seq<u8>>) -> Map<PostKey, PostV2View> {
    let was = typed::<PostKey, PostV1>(rows);
    Map::new(
        |key: PostKey| was.contains_key(key),
        |key: PostKey| linked(was[key], pred_of(was.dom(), key), succ_of(was.dom(), key)),
    )
}

/// Whether rows of posts at version 1 have become `after` at version 2.
pub open spec fn posts_linked(before: Map<Seq<u8>, Seq<u8>>, after: Map<Seq<u8>, Seq<u8>>) -> bool {
    &&& fully_typed::<PostKey, PostV1>(before)
    &&& fully_typed::<PostKey, PostV2>(after)
    &&& after.dom() == before.dom()
    &&& typed::<PostKey, PostV2>(after) == linked_posts(before)
}

/// Whether `keys` are the members of `all`, each once, in ascending order.
pub open spec fn ascending(keys: Seq<PostKey>, all: Set<PostKey>) -> bool {
    &&& forall|i: int| 0 <= i < keys.len() ==> all.contains(#[trigger] keys[i])
    &&& forall|k: PostKey| #[trigger]
        all.contains(k) ==> exists|i: int| 0 <= i < keys.len() && #[trigger] keys[i] == k
    &&& forall|i: int, j: int|
        0 <= i < j < keys.len() ==> (#[trigger] keys[i]).0.0 < (#[trigger] keys[j]).0.0
}

/// In an ascending listing the neighbours of a key are its neighbours in the
/// listing.
pub proof fn lemma_neighbours(keys: Seq<PostKey>, all: Set<PostKey>, i: int)
    requires
        ascending(keys, all),
        0 <= i < keys.len(),
    ensures
        pred_of(all, keys[i]) == (if i > 0 {
            Some(keys[i - 1])
        } else {
            None
        }),
        succ_of(all, keys[i]) == (if i + 1 < keys.len() {
            Some(keys[i + 1])
        } else {
            None
        }),
{
    let k = keys[i];
    assert forall|q: PostKey| #[trigger] all.contains(q) implies exists|j: int|
        0 <= j < keys.len() && keys[j] == q by {
        let j = choose|j: int| 0 <= j < keys.len() && #[trigger] keys[j] == q;
        assert(keys[j] == q);
    }
    if i > 0 {
        let p = keys[i - 1];
        assert forall|q: PostKey| #[trigger] all.contains(q) && q.0.0 < k.0.0 implies q.0.0
            <= p.0.0 by {
            let j = choose|j: int| 0 <= j < keys.len() && keys[j] == q;
            if j > i {
                assert(keys[i].0.0 < keys[j].0.0);
            }
            if j < i - 1 {
                assert(keys[j].0.0 < keys[i - 1].0.0);
            }
        }
        assert(is_pred(all, k, p));
        let chosen = choose|p: PostKey| is_pred(all, k, p);
        assert(all.contains(chosen) && all.contains(p));
        assert(chosen.0.0 == p.0.0);
    } else {
        assert forall|p: PostKey| !is_pred(all, k, p) by {
            if all.contains(p) {
                let j = choose|j: int| 0 <= j < keys.len() && keys[j] == p;
                if j > 0 {
                    assert(keys[0].0.0 < keys[j].0.0);
                }
            }
        }
    }
    if i + 1 < keys.len() {
        let s = keys[i + 1];
        assert forall|q: PostKey| #[trigger] all.contains(q) && k.0.0 < q.0.0 implies s.0.0
            <= q.0.0 by {
            let j = choose|j: int| 0 <= j < keys.len() && keys[j] == q;
            if j < i {
                assert(keys[j].0.0 < keys[i].0.0);
            }
            if j > i + 1 {
                assert(keys[i + 1].0.0 < keys[j].0.0);
            }
        }
        assert(is_succ(all, k, s));
        let chosen = choose|s: PostKey| is_succ(all, k, s);
        assert(all.contains(chosen) && all.contains(s));
        assert(chosen.0.0 == s.0.0);
    } else {
        assert forall|s: PostKey| !is_succ(all, k, s) by {
            if all.contains(s) {
                let j = choose|j: int| 0 <= j < keys.len() && keys[j] == s;
                if j < i {
                    assert(keys[j].0.0 < keys[i].0.0);
                }
            }
        }
    }
}

/// The keys of a listing in which every row decodes are the table's keys in
/// ascending order.
pub proof fn lemma_listing_ascends<A: Record>(
    listing: Seq<Result<(PostKey, A), ForumError>>,
    rows: Map<Seq<u8>, Seq<u8>>,
    keys: Seq<PostKey>,
)
    requires
        lists_typed::<PostKey, A>(listing, rows),
        forall|i: int| 0 <= i < listing.len() ==> (#[trigger] listing[i]) is Ok,
        keys.len() == listing.len(),
        forall|i: int| 0 <= i < listing.len() ==> #[trigger] keys[i] == listing[i]->Ok_0.0,
    ensures
        ascending(keys, typed::<PostKey, A>(rows).dom()),
{
    let all = typed::<PostKey, A>(rows).dom();
    assert forall|i: int| 0 <= i < keys.len() implies all.contains(#[trigger] keys[i]) by {
        assert(listing[i] is Ok);
    }
    assert forall|k: PostKey| #[trigger] all.contains(k) implies exists|i: int|
        0 <= i < keys.len() && #[trigger] keys[i] == k by {
        assert(typed::<PostKey, A>(rows).contains_key(k));
        let i = choose|i: int|
            0 <= i < listing.len() && (#[trigger] listing[i]) is Ok && listing[i]->Ok_0.0 == k;
        assert(keys[i] == k);
    }
    assert forall|i: int, j: int| 0 <= i < j < keys.len() implies (#[trigger] keys[i]).0.0 < (
    #[trigger] keys[j]).0.0 by {
        assert(listing[i] is Ok && listing[j] is Ok);
        lemma_u64_order(keys[i].0.0, keys[j].0.0);
    }
}

/// The identifiers of the rows of a listing in which every row decodes.
fn keys_of_listing<A: Record>(listing: &Vec<Result<(PostKey, A), ForumError>>) -> (r: Vec<PostKey>)
    requires
        forall|i: int| 0 <= i < listing@.len() ==> (#[trigger] listing@[i]) is Ok,
    ensures
        r@.len() == listing@.len(),
        forall|i: int| 0 <= i < listing@.len() ==> #[trigger] r@[i] == listing@[i]->Ok_0.0,
{
    let mut keys: Vec<PostKey> = Vec::new();
    let mut i: usize = 0;
    while i < listing.len()
        invariant
            i <= listing.len(),
            keys@.len() == i,
            forall|j: int| 0 <= j < listing@.len() ==> (#[trigger] listing@[j]) is Ok,
            forall|j: int| 0 <= j < i ==> #[trigger] keys@[j] == listing@[j]->Ok_0.0,
        decreases listing.len() - i,
    {
        match &listing[i] {
            Ok((key, _)) => {
                keys.push(*key);
            },
            Err(_) => {},
        }
        i += 1;
    }
    keys
}

/// What opening the first thread for migrated posts makes of the threads and
/// of the counters: nothing where there was no post, else one new thread
/// with an empty title whose root is the post with the least identifier.
pub open spec fn first_thread_opened(
    posts: Map<Seq<u8>, Seq<u8>>,
    threads: Map<ThreadKey, ThreadView>,
    keys: Map<Seq<u8>, Seq<u8>>,
    threads_after: Map<ThreadKey, ThreadView>,
    keys_after: Map<Seq<u8>, Seq<u8>>,
) -> bool {
    let was = typed::<PostKey, PostV1>(posts);
    if was.dom() =~= Set::<PostKey>::empty() {
        &&& threads_after == threads
        &&& keys_after == keys
    } else {
        let first = choose|k: PostKey| was.contains_key(k) && pred_of(was.dom(), k) is None;
        let key = ThreadKey(Key((highest_in(keys, TableType::Threads) + 1) as u64));
        &&& highest_in(keys, TableType::Threads) < u64::MAX
        &&& keys_after == taken(keys, TableType::Threads)
        &&& was.contains_key(first) && pred_of(was.dom(), first) is None
        &&& threads_after == threads.insert(
            key,
            ThreadView { key, title: Seq::empty(), post: first },
        )
    }
}

/// Rewrites every post from version 1 to version 2: each post answers the
/// post stored just before it and is answered by the post stored just after
/// it. The post that has none before it becomes the root of a new thread,
/// which has an empty title.
pub fn posts_v1_to_v2(posts: &mut Posts, threads: &mut Threads, keys: &mut HighestKeys) -> (r:
    Result<(), ForumError>)
    ensures
        match r {
            Ok(()) => {
                &&& posts_linked(old(posts).rows(), final(posts).rows())
                &&& first_thread_opened(
                    old(posts).rows(),
                    old(threads)@,
                    old(keys).rows(),
                    final(threads)@,
                    final(keys).rows(),
                )
                &&& typed::<PostKey, PostV1>(old(posts).rows()).dom() =~= Set::<PostKey>::empty()
                    ==> final(threads).rows() == old(threads).rows()
            },
            Err(ForumError::Sled(_)) => true,
            Err(ForumError::KeysExhausted(t)) => t == TableType::Threads && old(keys).highest(t)
                == u64::MAX && final(posts).rows() == old(posts).rows(),
            Err(e) => {
                &&& e is Codec || e is TryFromSlice
                &&& final(posts).rows() == old(posts).rows()
                &&& !fully_typed::<PostKey, PostV1>(old(posts).rows()) || !old(keys).readable(
                    TableType::Threads,
                )
            },
        },
{
    let listing = match posts.iter_as::<PostV1>() {
        Ok(listing) => listing,
        Err(e) => {
            return Err(e);
        },
    };
    match first_failure(&listing) {
        Ok(()) => {},
        Err(e) => {
            return Err(e);
        },
    }
    let ghost before = posts.rows();
    let ghost was = typed::<PostKey, PostV1>(before);
    let row_keys = keys_of_listing(&listing);
    proof {
        lemma_listing_ascends::<PostV1>(listing@, before, row_keys@);
    }
    let count: usize = listing.len();
    if count > 0 {
        let key = match threads.next_key(keys) {
            Ok(key) => key,
            Err(e) => {
                return Err(e);
            },
        };
        let thread = Thread { key, title: String::new(), post: row_keys[0] };
        proof {
            assert(thread@.title =~= Seq::<char>::empty());
            lemma_neighbours(row_keys@, was.dom(), 0);
            assert(was.dom().contains(row_keys@[0]));
            let first = choose|k: PostKey| was.contains_key(k) && pred_of(was.dom(), k) is None;
            assert(was.contains_key(first) && pred_of(was.dom(), first) is None);
            let at = choose|j: int| 0 <= j < row_keys@.len() && #[trigger] row_keys@[j] == first;
            lemma_neighbours(row_keys@, was.dom(), at);
            assert(first == row_keys@[0]);
        }
        match threads.insert(key, thread) {
            Ok(()) => {},
            Err(e) => {
                return Err(e);
            },
        }
    } else {
        proof {
            assert forall|k: PostKey| !was.dom().contains(k) by {
                if was.dom().contains(k) {
                    let j = choose|j: int|
                        0 <= j < row_keys@.len() && #[trigger] row_keys@[j] == k;
                    assert(j < row_keys@.len());
                }
            }
            assert(was.dom() =~= Set::<PostKey>::empty());
        }
    }
    let mut items: Vec<(PostKey, PostV2)> = Vec::new();
    let mut i: usize = 0;
    while i < count
        invariant
            i <= count,
            count == listing@.len(),
            row_keys@.len() == count,
            items@.len() == i,
            was == typed::<PostKey, PostV1>(before),
            lists_typed::<PostKey, PostV1>(listing@, before),
            ascending(row_keys@, was.dom()),
            forall|j: int| 0 <= j < listing@.len() ==> (#[trigger] listing@[j]) is Ok,
            forall|j: int| 0 <= j < listing@.len() ==> #[trigger] row_keys@[j] == listing@[j]->Ok_0.0,
            forall|j: int|
                0 <= j < i ==> (#[trigger] items@[j]).0 == row_keys@[j] && items@[j].1@ == linked(
                    was[row_keys@[j]],
                    pred_of(was.dom(), row_keys@[j]),
                    succ_of(was.dom(), row_keys@[j]),
                ),
        decreases count - i,
    {
        match &listing[i] {
            Ok((key, old)) => {
                let parent = if i > 0 {
                    Some(row_keys[i - 1])
                } else {
                    None
                };
                let mut children: Vec<PostKey> = Vec::new();
                if i + 1 < count {
                    children.push(row_keys[i + 1]);
                }
                let post = PostV2 {
                    key: old.key,
                    body: old.body.clone(),
                    author: old.author,
                    parent,
                    children,
                };
                proof {
                    lemma_neighbours(row_keys@, was.dom(), i as int);
                    assert(listing@[i as int] is Ok);
                    if i + 1 < count {
                        assert(post@.children =~= seq![row_keys@[i + 1]]);
                    } else {
                        assert(post@.children =~= Seq::<PostKey>::empty());
                    }
                }
                items.push((*key, post));
            },
            Err(_) => {},
        }
        i += 1;
    }
    match posts.rewrite::<PostV2>(&items) {
        Ok(()) => {},
        Err(e) => {
            return Err(e);
        },
    }
    proof {
        let new_of = |key: PostKey| linked(was[key], pred_of(was.dom(), key), succ_of(was.dom(), key));
        assert forall|j: int| 0 <= j < items@.len() implies was.contains_key(
            (#[trigger] items@[j]).0,
        ) && items@[j].1@ == new_of(items@[j].0) by {
            assert(was.dom().contains(row_keys@[j]));
        }
        assert forall|key: PostKey| #[trigger] was.contains_key(key) implies exists|j: int|
            0 <= j < items@.len() && (#[trigger] items@[j]).0 == key by {
            assert(was.dom().contains(key));
            let j = choose|j: int| 0 <= j < row_keys@.len() && #[trigger] row_keys@[j] == key;
            assert(items@[j].0 == key);
        }
        lemma_rewritten::<PostKey, PostV1, PostV2>(before, items@, new_of, items@.len());
        assert(typed::<PostKey, PostV2>(posts.rows()) =~= linked_posts(before));
    }
    Ok(())
}

/// The root that the parent links lead to from `k`: `k` itself where it
/// answers no post, else the root of the post that it answers. There is none
/// where a post on the way is not stored, or where the links come back to a
/// post of `seen` or to one passed on the way.
#[verifier::opaque]
pub open spec fn root_of(
    posts: Map<PostKey, PostV2View>,
    k: PostKey,
    seen: Set<PostKey>,
) -> Option<PostKey>
    decreases posts.dom().difference(seen).len(),
    when posts.dom().finite()
{
    if !posts.contains_key(k) || seen.contains(k) {
        None
    } else {
        match posts[k].parent {
            None => Some(k),
            Some(q) => {
                proof {
                    assert(posts.dom().difference(seen).contains(k));
                    assert(posts.dom().difference(seen.insert(k)) =~= posts.dom().difference(
                        seen,
                    ).remove(k));
                }
                root_of(posts, q, seen.insert(k))
            },
        }
    }
}

/// One step on the way to the root.
pub proof fn lemma_root_step(posts: Map<PostKey, PostV2View>, k: PostKey, seen: Set<PostKey>)
    requires
        posts.dom().finite(),
    ensures
        !posts.contains_key(k) || seen.contains(k) ==> root_of(posts, k, seen) is None,
        posts.contains_key(k) && !seen.contains(k) && posts[k].parent is None ==> root_of(
            posts,
            k,
            seen,
        ) == Some(k),
        posts.contains_key(k) && !seen.contains(k) && posts[k].parent is Some ==> {
            &&& root_of(posts, k, seen) == root_of(posts, posts[k].parent->Some_0, seen.insert(k))
            &&& posts.dom().difference(seen.insert(k)).len() < posts.dom().difference(seen).len()
        },
{
    reveal(root_of);
    if posts.contains_key(k) && !seen.contains(k) {
        assert(posts.dom().difference(seen).contains(k));
        assert(posts.dom().difference(seen.insert(k)) =~= posts.dom().difference(seen).remove(k));
    }
}

/// Whether `t` is the thread with the least identifier among the stored
/// threads that have `root` as their root post.
pub open spec fn is_first_rooted(
    threads: Map<ThreadKey, ThreadView>,
    root: PostKey,
    t: ThreadKey,
) -> bool {
    &&& threads.contains_key(t)
    &&& threads[t].post == root
    &&& forall|o: ThreadKey| #[trigger]
        threads.contains_key(o) && threads[o].post == root ==> t.0.0 <= o.0.0
}

/// The thread of a root post: the identifier that the first stored thread
/// with this root carries.
pub open spec fn thread_of_root(threads: Map<ThreadKey, ThreadView>, root: PostKey) -> Option<
    ThreadKey,
> {
    if exists|t: ThreadKey| is_first_rooted(threads, root, t) {
        Some(threads[choose|t: ThreadKey| is_first_rooted(threads, root, t)].key)
    } else {
        None
    }
}

/// The thread of a post at version 2: the thread of the root that its
/// parent links lead to.
pub open spec fn thread_of_post(
    posts: Map<PostKey, PostV2View>,
    threads: Map<ThreadKey, ThreadView>,
    k: PostKey,
) -> Option<ThreadKey> {
    match root_of(posts, k, Set::empty()) {
        Some(root) => thread_of_root(threads, root),
        None => None,
    }
}

/// A version 2 post at version 3: the same post, with its thread.
pub open spec fn threaded(p: PostV2View, thread: ThreadKey) -> PostView {
    PostView {
        key: p.key,
        body: p.body,
        author: p.author,
        parent: p.parent,
        children: p.children,
        thread,
    }
}

/// The posts at version 3 that come of rows at version 2 and the stored
/// threads: each post with the thread of its root.
pub open spec fn threaded_posts(
    rows: Map<Seq<u8>, Seq<u8>>,
    threads: Map<ThreadKey, ThreadView>,
) -> Map<PostKey, PostView> {
    let was = typed::<PostKey, PostV2>(rows);
    Map::new(
        |key: PostKey| was.contains_key(key),
        |key: PostKey| threaded(was[key], thread_of_post(was, threads, key)->Some_0),
    )
}

/// Whether rows of posts at version 2 have become `after` at version 3.
pub open spec fn posts_threaded(
    before: Map<Seq<u8>, Seq<u8>>,
    threads: Map<ThreadKey, ThreadView>,
    after: Map<Seq<u8>, Seq<u8>>,
) -> bool {
    &&& fully_typed::<PostKey, PostV2>(before)
    &&& forall|key: PostKey| #[trigger]
        typed::<PostKey, PostV2>(before).contains_key(key) ==> thread_of_post(
            typed::<PostKey, PostV2>(before),
            threads,
            key,
        ) is Some
    &&& fully_typed::<PostKey, Post>(after)
    &&& after.dom() == before.dom()
    &&& typed::<PostKey, Post>(after) == threaded_posts(before, threads)
}

/// Whether some post at version 2 cannot be given a thread: its parent
/// links reach no root, or no stored thread has the root that they reach.
pub open spec fn unthreadable(
    rows: Map<Seq<u8>, Seq<u8>>,
    threads: Map<ThreadKey, ThreadView>,
) -> bool {
    exists|key: PostKey| #[trigger]
        typed::<PostKey, PostV2>(rows).contains_key(key) && thread_of_post(
            typed::<PostKey, PostV2>(rows),
            threads,
            key,
        ) is None
}

/// Where the row with the identifier `k` stands in a listing in which every
/// row decodes.
fn position_of<A: Record>(listing: &Vec<Result<(PostKey, A), ForumError>>, k: PostKey) -> (r:
    Option<usize>)
    requires
        forall|i: int| 0 <= i < listing@.len() ==> (#[trigger] listing@[i]) is Ok,
    ensures
        match r {
            Some(at) => at < listing@.len() && listing@[at as int]->Ok_0.0 == k,
            None => forall|i: int|
                0 <= i < listing@.len() ==> (#[trigger] listing@[i])->Ok_0.0 != k,
        },
{
    let mut i: usize = 0;
    while i < listing.len()
        invariant
            i <= listing.len(),
            forall|j: int| 0 <= j < listing@.len() ==> (#[trigger] listing@[j]) is Ok,
            forall|j: int| 0 <= j < i ==> (#[trigger] listing@[j])->Ok_0.0 != k,
        decreases listing.len() - i,
    {
        match &listing[i] {
            Ok((key, _)) => {
                if key.0.0 == k.0.0 {
                    return Some(i);
                }
            },
            Err(_) => {},
        }
        i += 1;
    }
    None
}

/// The root that the parent links lead to from `start`, among the posts of
/// a listing in which every row decodes.
fn find_root(
    listing: &Vec<Result<(PostKey, PostV2), ForumError>>,
    start: PostKey,
    Ghost(rows): Ghost<Map<Seq<u8>, Seq<u8>>>,
) -> (r: Result<PostKey, ForumError>)
    requires
        rows.dom().finite(),
        lists_typed::<PostKey, PostV2>(listing@, rows),
        forall|i: int| 0 <= i < listing@.len() ==> (#[trigger] listing@[i]) is Ok,
    ensures
        match r {
            Ok(root) => root_of(typed::<PostKey, PostV2>(rows), start, Set::empty()) == Some(root),
            Err(e) => (e is PostNotFound || e is NoRoot) && root_of(
                typed::<PostKey, PostV2>(rows),
                start,
                Set::empty(),
            ) is None,
        },
{
    broadcast use vstd::std_specs::hash::group_hash_axioms;

    let ghost posts = typed::<PostKey, PostV2>(rows);
    proof {
        lemma_typed_finite::<PostKey, PostV2>(rows);
    }
    let mut cur = start;
    let mut seen: HashSet<u64> = HashSet::new();
    let ghost mut passed: Set<PostKey> = Set::empty();
    loop
        invariant
            posts == typed::<PostKey, PostV2>(rows),
            posts.dom().finite(),
            lists_typed::<PostKey, PostV2>(listing@, rows),
            forall|i: int| 0 <= i < listing@.len() ==> (#[trigger] listing@[i]) is Ok,
            forall|k: PostKey| seen@.contains(k.0.0) <==> passed.contains(k),
            root_of(posts, cur, passed) == root_of(posts, start, Set::empty()),
        decreases posts.dom().difference(passed).len(),
    {
        proof {
            lemma_root_step(posts, cur, passed);
        }
        if seen.contains(&cur.0.0) {
            return Err(ForumError::NoRoot(start));
        }
        let at = match position_of(listing, cur) {
            Some(at) => at,
            None => {
                proof {
                    if posts.contains_key(cur) {
                        let j = choose|j: int|
                            0 <= j < listing@.len() && (#[trigger] listing@[j]) is Ok
                                && listing@[j]->Ok_0.0 == cur;
                        assert(listing@[j]->Ok_0.0 != cur);
                    }
                }
                return Err(ForumError::PostNotFound(cur));
            },
        };
        assert(listing@[at as int] is Ok);
        match &listing[at] {
            Ok((_, post)) => {
                match post.parent {
                    None => {
                        return Ok(cur);
                    },
                    Some(q) => {
                        seen.insert(cur.0.0);
                        proof {
                            passed = passed.insert(cur);
                        }
                        cur = q;
                    },
                }
            },
            Err(_) => {
                return Err(ForumError::NoRoot(start));
            },
        }
    }
}

/// The thread of the root post `root`, among the threads of a listing in
/// which every row decodes.
fn find_thread(
    listing: &Vec<Result<(ThreadKey, Thread), ForumError>>,
    root: PostKey,
    Ghost(rows): Ghost<Map<Seq<u8>, Seq<u8>>>,
) -> (r: Option<ThreadKey>)
    requires
        lists_typed::<ThreadKey, Thread>(listing@, rows),
        forall|i: int| 0 <= i < listing@.len() ==> (#[trigger] listing@[i]) is Ok,
    ensures
        r == thread_of_root(typed::<ThreadKey, Thread>(rows), root),
{
    let ghost threads = typed::<ThreadKey, Thread>(rows);
    let mut i: usize = 0;
    while i < listing.len()
        invariant
            i <= listing.len(),
            threads == typed::<ThreadKey, Thread>(rows),
            lists_typed::<ThreadKey, Thread>(listing@, rows),
            forall|j: int| 0 <= j < listing@.len() ==> (#[trigger] listing@[j]) is Ok,
            forall|j: int| 0 <= j < i ==> (#[trigger] listing@[j])->Ok_0.1.post != root,
        decreases listing.len() - i,
    {
        match &listing[i] {
            Ok((row, thread)) => {
                if thread.post.0.0 == root.0.0 {
                    proof {
                        let at = i as int;
                        assert(listing@[at] is Ok);
                        assert forall|o: ThreadKey| #[trigger]
                            threads.contains_key(o) && threads[o].post
                                == root implies row.0.0 <= o.0.0 by {
                            let j = choose|j: int|
                                0 <= j < listing@.len() && (#[trigger] listing@[j]) is Ok
                                    && listing@[j]->Ok_0.0 == o;
                            assert(listing@[j]->Ok_0.1@ == threads[o]);
                            if at < j {
                                lemma_u64_order(row.0.0, o.0.0);
                            }
                        }
                        assert(is_first_rooted(threads, root, *row));
                        let chosen = choose|t: ThreadKey| is_first_rooted(threads, root, t);
                        assert(chosen.0.0 == row.0.0);
                    }
                    return Some(thread.key);
                }
            },
            Err(_) => {},
        }
        i += 1;
    }
    proof {
        assert forall|t: ThreadKey| !is_first_rooted(threads, root, t) by {
            if threads.contains_key(t) {
                let j = choose|j: int|
                    0 <= j < listing@.len() && (#[trigger] listing@[j]) is Ok
                        && listing@[j]->Ok_0.0 == t;
                assert(listing@[j]->Ok_0.1@ == threads[t]);
            }
        }
    }
    None
}

/// Rewrites every post from version 2 to version 3: each post gets the
/// thread of the root that its parent links lead to.
pub fn posts_v2_to_v3(posts: &mut Posts, threads: &Threads) -> (r: Result<(), ForumError>)
    ensures
        match r {
            Ok(()) => posts_threaded(old(posts).rows(), threads@, final(posts).rows()),
            Err(ForumError::Sled(_)) => true,
            Err(e) => {
                &&& final(posts).rows() == old(posts).rows()
                &&& if e is Codec || e is TryFromSlice {
                    !fully_typed::<PostKey, PostV2>(old(posts).rows()) || !fully_typed::<
                        ThreadKey,
                        Thread,
                    >(threads.rows())
                } else {
                    &&& e is PostNotFound || e is NoRoot || e is NoThread
                    &&& exists|key: PostKey| #[trigger]
                        typed::<PostKey, PostV2>(old(posts).rows()).contains_key(key)
                            && thread_of_post(
                            typed::<PostKey, PostV2>(old(posts).rows()),
                            threads@,
                            key,
                        ) is None
                }
            },
        },
{
    let listing = match posts.iter_as::<PostV2>() {
        Ok(listing) => listing,
        Err(e) => {
            return Err(e);
        },
    };
    match first_failure(&listing) {
        Ok(()) => {},
        Err(e) => {
            return Err(e);
        },
    }
    let stored = match threads.iter() {
        Ok(stored) => stored.0,
        Err(e) => {
            return Err(e);
        },
    };
    match first_failure(&stored) {
        Ok(()) => {},
        Err(e) => {
            return Err(e);
        },
    }
    let ghost before = posts.rows();
    let ghost was = typed::<PostKey, PostV2>(before);
    let mut items: Vec<(PostKey, Post)> = Vec::new();
    let mut i: usize = 0;
    while i < listing.len()
        invariant
            i <= listing.len(),
            items@.len() == i,
            before == posts.rows(),
            before.dom().finite(),
            was == typed::<PostKey, PostV2>(before),
            lists_typed::<PostKey, PostV2>(listing@, before),
            lists_typed::<ThreadKey, Thread>(stored@, threads.rows()),
            forall|j: int| 0 <= j < listing@.len() ==> (#[trigger] listing@[j]) is Ok,
            forall|j: int| 0 <= j < stored@.len() ==> (#[trigger] stored@[j]) is Ok,
            forall|j: int|
                0 <= j < i ==> (#[trigger] items@[j]).0 == listing@[j]->Ok_0.0 && thread_of_post(
                    was,
                    threads@,
                    items@[j].0,
                ) is Some && items@[j].1@ == threaded(
                    was[items@[j].0],
                    thread_of_post(was, threads@, items@[j].0)->Some_0,
                ),
        decreases listing.len() - i,
    {
        match &listing[i] {
            Ok((key, old)) => {
                assert(was.contains_key(*key));
                let root = match find_root(&listing, *key, Ghost(before)) {
                    Ok(root) => root,
                    Err(e) => {
                        return Err(e);
                    },
                };
                let thread = match find_thread(&stored, root, Ghost(threads.rows())) {
                    Some(thread) => thread,
                    None => {
                        return Err(ForumError::NoThread(root));
                    },
                };
                let mut children: Vec<PostKey> = Vec::new();
                let mut c: usize = 0;
                while c < old.children.len()
                    invariant
                        c <= old.children.len(),
                        children@ == old.children@.take(c as int),
                    decreases old.children.len() - c,
                {
                    children.push(old.children[c]);
                    assert(children@ =~= old.children@.take(c + 1));
                    c += 1;
                }
                assert(children@ =~= old.children@);
                let post = Post {
                    key: old.key,
                    body: old.body.clone(),
                    author: old.author,
                    parent: old.parent,
                    children,
                    thread,
                };
                items.push((*key, post));
            },
            Err(_) => {},
        }
        i += 1;
    }
    match posts.rewrite::<Post>(&items) {
        Ok(()) => {},
        Err(e) => {
            return Err(e);
        },
    }
    proof {
        let new_of = |key: PostKey| threaded(was[key], thread_of_post(was, threads@, key)->Some_0);
        assert forall|j: int| 0 <= j < items@.len() implies was.contains_key(
            (#[trigger] items@[j]).0,
        ) && items@[j].1@ == new_of(items@[j].0) by {
            assert(listing@[j] is Ok);
        }
        assert forall|key: PostKey| #[trigger] was.contains_key(key) implies (exists|j: int|
            0 <= j < items@.len() && (#[trigger] items@[j]).0 == key) && thread_of_post(
            was,
            threads@,
            key,
        ) is Some by {
            let j = choose|j: int|
                0 <= j < listing@.len() && (#[trigger] listing@[j]) is Ok && listing@[j]->Ok_0.0
                    == key;
            assert(items@[j].0 == key);
        }
        lemma_rewritten::<PostKey, PostV2, Post>(before, items@, new_of, items@.len());
        assert(typed::<PostKey, Post>(posts.rows()) =~= threaded_posts(before, threads@));
    }
    Ok(())
}

} // verus!
