//! The forum's front page: every thread as a card.

use vstd::prelude::*;
use crate::error::ForumError;
use crate::state::TableKey;
use crate::state::codec::lemma_u64_order;
use crate::state::fully_typed;
use crate::state::lists_typed;
use crate::state::post::PostKey;
use crate::state::post::PostView;
use crate::state::post::Posts;
use crate::state::thread::Thread;
use crate::state::thread::ThreadKey;
use crate::state::thread::ThreadView;
use crate::state::thread::Threads;
use crate::state::user::UserKey;
use crate::state::user::UserView;
use crate::state::user::Users;
use crate::templates::partial::thread::ThreadTemplate;
use crate::templates::partial::thread::thread_card;

verus! {

/// Whether `keys` are the identifiers under which `threads` are stored, each
/// once, in ascending order.
pub open spec fn ascending_keys(keys: Seq<ThreadKey>, threads: Map<ThreadKey, ThreadView>) -> bool {
    &&& forall|i: int| 0 <= i < keys.len() ==> threads.contains_key(#[trigger] keys[i])
    &&& forall|key: ThreadKey| #[trigger]
        threads.contains_key(key) ==> exists|i: int| 0 <= i < keys.len() && #[trigger] keys[i] == key
    &&& forall|i: int, j: int|
        0 <= i < j < keys.len() ==> (#[trigger] keys[i]).0.0 < (#[trigger] keys[j]).0.0
}

/// Whether the `i`-th card is the card of the thread stored under the `i`-th
/// of `keys`, with its stored root post and that post's stored author.
pub open spec fn card_at(
    cards: Seq<ThreadTemplate>,
    keys: Seq<ThreadKey>,
    threads: Map<ThreadKey, ThreadView>,
    posts: Map<PostKey, PostView>,
    users: Map<UserKey, UserView>,
    i: int,
) -> bool {
    let thread = threads[keys[i]];
    &&& posts.contains_key(thread.post)
    &&& users.contains_key(posts[thread.post].author)
    &&& cards[i]@ == thread_card(
        thread,
        posts[thread.post],
        users[posts[thread.post].author],
        false,
    )
}

/// Whether `cards` are the cards of all stored threads in ascending order of
/// the identifiers that the threads are stored under.
pub open spec fn lists_threads(
    cards: Seq<ThreadTemplate>,
    threads: Map<ThreadKey, ThreadView>,
    posts: Map<PostKey, PostView>,
    users: Map<UserKey, UserView>,
) -> bool {
    exists|keys: Seq<ThreadKey>|
        {
            &&& #[trigger] ascending_keys(keys, threads)
            &&& cards.len() == keys.len()
            &&& forall|i: int|
                0 <= i < keys.len() ==> #[trigger] card_at(cards, keys, threads, posts, users, i)
        }
}

/// Whether the card of every stored thread can be made: its root post and
/// that post's author are stored.
pub open spec fn all_cards_exist(
    threads: Map<ThreadKey, ThreadView>,
    posts: Map<PostKey, PostView>,
    users: Map<UserKey, UserView>,
) -> bool {
    forall|key: ThreadKey| #[trigger]
        threads.contains_key(key) ==> posts.contains_key(threads[key].post) && users.contains_key(
            posts[threads[key].post].author,
        )
}

/// The forum's front page.
pub struct ForumTemplate {
    pub threads: Vec<ThreadTemplate>,
}

impl ForumTemplate {
    /// Reads every thread, in ascending order of the identifiers, as a card
    /// with the body of its root post and that post's author. A row that
    /// does not decode, a missing root post and a missing author each end the
    /// reading with their error.
    pub fn load(threads: &Threads, posts: &Posts, users: &Users) -> (r: Result<
        ForumTemplate,
        ForumError,
    >)
        ensures
            match r {
                Ok(page) => fully_typed::<ThreadKey, Thread>(threads.rows()) && lists_threads(
                    page.threads@,
                    threads@,
                    posts@,
                    users@,
                ),
                Err(ForumError::PostNotFound(p)) => !posts.rows().contains_key(p.code()),
                Err(ForumError::UserNotFound(u)) => !users.rows().contains_key(u.code()),
                Err(ForumError::TryFromSlice) => !fully_typed::<ThreadKey, Thread>(threads.rows()),
                Err(ForumError::Codec) => !fully_typed::<ThreadKey, Thread>(threads.rows())
                    || !all_cards_exist(threads@, posts@, users@),
                Err(e) => e is Sled,
            },
            fully_typed::<ThreadKey, Thread>(threads.rows()) && all_cards_exist(
                threads@,
                posts@,
                users@,
            ) ==> (r is Ok || r matches Err(ForumError::Sled(_))),
    {
        let listing = match threads.iter() {
            Ok(listing) => listing.0,
            Err(e) => {
                return Err(e);
            },
        };
        let mut cards: Vec<ThreadTemplate> = Vec::new();
        let ghost mut keys: Seq<ThreadKey> = Seq::empty();
        let mut i: usize = 0;
        while i < listing.len()
            invariant
                i <= listing.len(),
                lists_typed::<ThreadKey, Thread>(listing@, threads.rows()),
                cards@.len() == i,
                keys.len() == i,
                forall|j: int| 0 <= j < i ==> (#[trigger] listing@[j]) is Ok && keys[j] == listing@[j]->Ok_0.0,
                forall|j: int|
                    0 <= j < i ==> #[trigger] card_at(cards@, keys, threads@, posts@, users@, j),
            decreases listing.len() - i,
        {
            let ghost had = cards@;
            let ghost before = keys;
            match &listing[i] {
                Ok((key, thread)) => {
                    let copy = Thread {
                        key: thread.key,
                        title: thread.title.clone(),
                        post: thread.post,
                    };
                    assert(copy@ == threads@[*key]);
                    match ThreadTemplate::of_thread(posts, users, copy, false) {
                        Ok(card) => {
                            cards.push(card);
                            proof {
                                keys = keys.push(*key);
                                assert forall|j: int| 0 <= j < i + 1 implies #[trigger] card_at(
                                    cards@,
                                    keys,
                                    threads@,
                                    posts@,
                                    users@,
                                    j,
                                ) by {
                                    if j < i {
                                        assert(card_at(had, before, threads@, posts@, users@, j));
                                        assert(cards@[j] == had[j]);
                                        assert(keys[j] == before[j]);
                                    }
                                }
                            }
                        },
                        Err(e) => {
                            return Err(e);
                        },
                    }
                },
                Err(ForumError::TryFromSlice) => {
                    return Err(ForumError::TryFromSlice);
                },
                Err(_) => {
                    return Err(ForumError::Codec);
                },
            }
            i += 1;
        }
        proof {
            assert forall|key: ThreadKey| #[trigger] threads@.contains_key(key) implies exists|
                j: int,
            | 0 <= j < keys.len() && #[trigger] keys[j] == key by {
                let j = choose|j: int|
                    0 <= j < listing@.len() && (#[trigger] listing@[j]) is Ok
                        && listing@[j]->Ok_0.0 == key;
                assert(keys[j] == key);
            }
            assert forall|a: int, b: int| 0 <= a < b < keys.len() implies (#[trigger] keys[a]).0.0
                < (#[trigger] keys[b]).0.0 by {
                assert(listing@[a] is Ok && listing@[b] is Ok);
                lemma_u64_order(keys[a].0.0, keys[b].0.0);
            }
            assert forall|j: int| 0 <= j < keys.len() implies threads@.contains_key(
                #[trigger] keys[j],
            ) by {
                assert(listing@[j] is Ok);
            }
            assert(ascending_keys(keys, threads@));
            assert(forall|j: int| 0 <= j < listing@.len() ==> (#[trigger] listing@[j]) is Ok);
        }
        Ok(ForumTemplate { threads: cards })
    }
}

} // verus!
