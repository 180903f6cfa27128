//! Who a visitor is and what a user may do: credentials are checked against
//! the stored users, and every user may post.

use vstd::prelude::*;
use vstd::utf8::encode_utf8;
use crate::error::ForumError;
use crate::state::TableKey;
use crate::state::user::User;
use crate::state::user::UserKey;
use crate::state::user::Users;
use crate::state::user::user_of_bytes;

verus! {

/// Whether `password` is the password that the stored hash `hash` was made
/// from: what `password_auth::verify_password` finds. A text that is no
/// password hash verifies no password.
pub uninterp spec fn password_verifies(password: Seq<char>, hash: Seq<char>) -> bool;

/// `password_auth::verify_password`: whether the password matches the hash.
/// The answer depends on the two texts alone.
#[verifier::external_body]
fn verify_password(password: &str, hash: &str) -> (ok: bool)
    ensures
        ok == password_verifies(password@, hash@),
{
    password_auth::verify_password(password, hash).is_ok()
}

impl User {
    /// The identifier by which a session names its user.
    pub fn id(&self) -> (r: UserKey)
        ensures
            r == self.key,
    {
        self.key
    }

    /// The bytes that bind a session to the user: the stored password hash,
    /// so that a new password ends the sessions made under the old one.
    pub fn session_auth_hash(&self) -> (r: &[u8])
        ensures
            r@ == encode_utf8(self.password@),
    {
        self.password.as_str().as_bytes()
    }
}

/// What a visitor submits to log in or to register.
#[derive(Clone)]
pub struct Credentials {
    pub username: String,
    pub password: String,
    pub next: Option<String>,
}

/// What a user may be allowed to do.
#[derive(Debug, Clone, Copy, PartialEq, Eq, Hash, Structural)]
pub enum Permission {
    Post,
}

/// Where to go after logging in.
#[derive(Debug)]
pub struct NextUrl {
    pub next: Option<String>,
}

/// The user that a visitor is, given a checked password: the stored user
/// where the password matched, nobody where it did not.
pub fn recognize(user: User, password_matches: bool) -> (r: Option<User>)
    ensures
        r == (if password_matches {
            Some(user)
        } else {
            None
        }),
{
    if password_matches {
        Some(user)
    } else {
        None
    }
}

/// The authentication backend: it reads the stored users.
pub struct Backend {
    users: Users,
}

impl Backend {
    /// A backend over the stored users `users`.
    pub fn new(users: Users) -> (r: Self)
        ensures
            r.users() == users,
    {
        Self { users }
    }

    /// The stored users.
    pub closed spec fn users(&self) -> Users {
        self.users
    }

    /// The stored users, to read them.
    pub fn store(&self) -> (r: &Users)
        ensures
            *r == self.users(),
    {
        &self.users
    }

    /// The stored users, to register one.
    pub fn store_mut(&mut self) -> (r: &mut Users)
        ensures
            *r == old(self).users(),
            final(self).users() == *final(r),
    {
        &mut self.users
    }

    /// The user that the credentials belong to: the user that the name leads
    /// to, if the password matches the stored hash.
    pub fn authenticate(&self, creds: Credentials) -> (r: Result<Option<User>, ForumError>)
        ensures
            match r {
                Ok(Some(user)) => self.users().resolve(creds.username@) == Some(user@)
                    && password_verifies(creds.password@, user@.password),
                Ok(None) => {
                    let coded = encode_utf8(creds.username@);
                    let users = self.users();
                    ||| !users.names().contains_key(coded)
                    ||| !users.rows().contains_key(users.names()[coded])
                    ||| users.resolve(creds.username@) matches Some(user) && !password_verifies(
                        creds.password@,
                        user.password,
                    )
                },
                Err(ForumError::Codec) => {
                    let coded = encode_utf8(creds.username@);
                    let users = self.users();
                    &&& users.names().contains_key(coded)
                    &&& users.rows().contains_key(users.names()[coded])
                    &&& user_of_bytes(users.rows()[users.names()[coded]]) is None
                },
                Err(e) => e is Sled,
            },
    {
        let user = match self.users.get_by_username(&creds.username) {
            Ok(Some(user)) => user,
            Ok(None) => {
                return Ok(None);
            },
            Err(e) => {
                return Err(e);
            },
        };
        let matches = verify_password(creds.password.as_str(), user.password.as_str());
        Ok(recognize(user, matches))
    }

    /// The user with the identifier `user_id`.
    pub fn get_user(&self, user_id: &UserKey) -> (r: Result<Option<User>, ForumError>)
        ensures
            match r {
                Ok(Some(user)) => self.users()@.contains_key(*user_id) && self.users()@[*user_id]
                    == user@,
                Ok(None) => !self.users().rows().contains_key(user_id.code()),
                Err(ForumError::Codec) => self.users().rows().contains_key(user_id.code())
                    && user_of_bytes(self.users().rows()[user_id.code()]) is None,
                Err(e) => e is Sled,
            },
    {
        self.users.get(*user_id)
    }

    /// What `user` may do: post, whoever the user is.
    pub fn get_user_permissions(&self, user: &User) -> (r: Result<Vec<Permission>, ForumError>)
        ensures
            r matches Ok(permissions) && permissions@ == seq![Permission::Post],
    {
        let mut permissions: Vec<Permission> = Vec::new();
        permissions.push(Permission::Post);
        Ok(permissions)
    }

    /// Whether `user` may do `permission`.
    pub fn has_perm(&self, user: &User, permission: Permission) -> (r: Result<bool, ForumError>)
        ensures
            r matches Ok(allowed) && allowed,
    {
        match self.get_user_permissions(user) {
            Ok(permissions) => {
                let mut i: usize = 0;
                while i < permissions.len()
                    invariant
                        permissions@ == seq![Permission::Post],
                        i == 0,
                    decreases permissions.len() - i,
                {
                    if permissions[i] == permission {
                        return Ok(true);
                    }
                    i += 1;
                }
                Ok(false)
            },
            Err(e) => Err(e),
        }
    }
}

} // verus!
