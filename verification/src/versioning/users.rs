//! The migration of the users: the step from version 1, which had no
//! avatars, to version 2.

use vstd::prelude::*;
use crate::error::ForumError;
use crate::state::fully_typed;
use crate::state::lemma_rewritten;
use crate::state::lists_typed;
use crate::state::typed;
use crate::state::user::User;
use crate::state::user::UserKey;
use crate::state::user::UserView;
use crate::state::user::Users;
use crate::versioning::first_failure;
use crate::versioning::records::UserV1;
use crate::versioning::records::UserV1View;

verus! {

/// A version 1 user at version 2: the same user, with no avatar.
pub open spec fn upgrade_user(u: UserV1View) -> UserView {
    UserView { key: u.key, username: u.username, password: u.password, avatar: None }
}

/// The users at version 2 that come of rows at version 1: each user
/// upgraded, under the identifier that it was stored under.
pub open spec fn upgraded_users(rows: Map<Seq<u8>, Seq<u8>>) -> Map<UserKey, UserView> {
    Map::new(
        |key: UserKey| typed::<UserKey, UserV1>(rows).contains_key(key),
        |key: UserKey| upgrade_user(typed::<UserKey, UserV1>(rows)[key]),
    )
}

/// Whether rows of users at version 1 have become `after` at version 2:
/// the same keys, every row a user, each the upgrade of what it was.
pub open spec fn users_upgraded(
    before: Map<Seq<u8>, Seq<u8>>,
    after: Map<Seq<u8>, Seq<u8>>,
) -> bool {
    &&& fully_typed::<UserKey, UserV1>(before)
    &&& fully_typed::<UserKey, User>(after)
    &&& after.dom() == before.dom()
    &&& typed::<UserKey, User>(after) == upgraded_users(before)
}

/// Rewrites every user from version 1 to version 2.
pub fn users_v1_to_v2(users: &mut Users) -> (r: Result<(), ForumError>)
    ensures
        final(users).names() == old(users).names(),
        match r {
            Ok(()) => users_upgraded(old(users).rows(), final(users).rows()),
            Err(ForumError::Sled(_)) => true,
            Err(e) => {
                &&& e is Codec || e is TryFromSlice
                &&& !fully_typed::<UserKey, UserV1>(old(users).rows())
                &&& final(users).rows() == old(users).rows()
            },
        },
{
    let listing = match users.iter_as::<UserV1>() {
        Ok(listing) => listing,
        Err(e) => {
            return Err(e);
        },
    };
    match first_failure(&listing) {
        Ok(()) => {},
        Err(e) => {
            return Err(e);
        },
    }
    let ghost before = users.rows();
    let ghost was = typed::<UserKey, UserV1>(before);
    let mut items: Vec<(UserKey, User)> = Vec::new();
    let mut i: usize = 0;
    while i < listing.len()
        invariant
            i <= listing.len(),
            items@.len() == i,
            before == users.rows(),
            was == typed::<UserKey, UserV1>(before),
            lists_typed::<UserKey, UserV1>(listing@, before),
            forall|j: int| 0 <= j < listing@.len() ==> (#[trigger] listing@[j]) is Ok,
            forall|j: int|
                0 <= j < i ==> (#[trigger] items@[j]).0 == listing@[j]->Ok_0.0 && items@[j].1@
                    == upgrade_user(was[items@[j].0]),
        decreases listing.len() - i,
    {
        match &listing[i] {
            Ok((key, old)) => {
                let user = User {
                    key: old.key,
                    username: old.username.clone(),
                    password: old.password.clone(),
                    avatar: None,
                };
                items.push((*key, user));
            },
            Err(_) => {},
        }
        i += 1;
    }
    match users.rewrite::<User>(&items) {
        Ok(()) => {},
        Err(e) => {
            return Err(e);
        },
    }
    proof {
        let new_of = |key: UserKey| upgrade_user(was[key]);
        assert forall|j: int| 0 <= j < items@.len() implies was.contains_key(
            (#[trigger] items@[j]).0,
        ) && items@[j].1@ == new_of(items@[j].0) by {
        }
        assert forall|key: UserKey| #[trigger] was.contains_key(key) implies exists|j: int|
            0 <= j < items@.len() && (#[trigger] items@[j]).0 == key by {
            let j = choose|j: int|
                0 <= j < listing@.len() && (#[trigger] listing@[j]) is Ok && listing@[j]->Ok_0.0
                    == key;
            assert(items@[j].0 == key);
        }
        lemma_rewritten::<UserKey, UserV1, User>(before, items@, new_of, items@.len());
        assert(typed::<UserKey, User>(users.rows()) =~= upgraded_users(before));
    }
    Ok(())
}

} // verus!
