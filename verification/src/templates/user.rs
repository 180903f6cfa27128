//! A user's page.

use vstd::prelude::*;
use crate::error::ForumError;
use crate::state::TableKey;
use crate::state::user::User;
use crate::state::user::UserKey;
use crate::state::user::Users;
use crate::state::user::user_of_bytes;

verus! {

/// The page of one user.
pub struct UserTemplate {
    pub user: User,
}

impl UserTemplate {
    /// Reads the user `user_key`.
    pub fn load(users: &Users, user_key: UserKey) -> (r: Result<UserTemplate, ForumError>)
        ensures
            match r {
                Ok(page) => users@.contains_key(user_key) && users@[user_key] == page.user@,
                Err(ForumError::UserNotFound(u)) => u == user_key && !users.rows().contains_key(
                    u.code(),
                ),
                Err(ForumError::Codec) => users.rows().contains_key(user_key.code())
                    && user_of_bytes(users.rows()[user_key.code()]) is None,
                Err(e) => e is Sled,
            },
    {
        match users.get(user_key) {
            Ok(Some(user)) => Ok(UserTemplate { user }),
            Ok(None) => Err(ForumError::UserNotFound(user_key)),
            Err(e) => Err(e),
        }
    }
}

} // verus!
