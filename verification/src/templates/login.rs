//! Logging in, registering and logging out.

use argon2::Argon2;
use argon2::PasswordHasher;
use argon2::password_hash::SaltString;
use argon2::password_hash::rand_core::OsRng;
use vstd::prelude::*;
use crate::auth::Backend;
use crate::auth::Credentials;
use crate::auth::password_verifies;
use crate::error::ForumError;
use crate::state::Record;
use crate::state::TableKey;
use crate::state::TableType;
use crate::state::key::HighestKeys;
use crate::state::key::lemma_taken;
use crate::state::key::taken;
use crate::state::user::User;
use crate::state::user::UserKey;
use crate::state::user::UserView;
use crate::state::user::Users;
use crate::state::user::lemma_insert_keeps_index;
use crate::state::user::with_user;

verus! {

/// `argon2::Argon2::hash_password` with the default parameters and a salt
/// from `SaltString::generate`: a password hash in text form. The salt is
/// random, so the text differs from call to call; whatever it is, it carries
/// its salt and parameters, and the password that it was made from verifies
/// against it.
#[verifier::external_body]
fn hash_password(password: &str) -> (r: Result<String, argon2::password_hash::Error>)
    ensures
        r matches Ok(hash) ==> password_verifies(password@, hash@),
{
    let salt = SaltString::generate(&mut OsRng);
    match Argon2::default().hash_password(password.as_bytes(), &salt) {
        Ok(hash) => Ok(hash.to_string()),
        Err(e) => Err(e),
    }
}

/// The login form.
pub struct LoginTemplate {
    pub error: Option<String>,
    pub next: Option<String>,
}

impl LoginTemplate {
    /// The empty form that leads to `next` once it is filled in.
    pub fn new(next: Option<String>) -> (r: Self)
        ensures
            r.error is None,
            r.next == next,
    {
        LoginTemplate { error: None, next }
    }
}

/// How an attempt to log in ended.
pub enum LoginPost {
    Success { user: User, next: Option<String> },
    Failure { error: String, next: Option<String> },
}

impl LoginPost {
    /// Checks the credentials: the user that they belong to, or the failure
    /// that the form shows.
    pub fn attempt(backend: &Backend, creds: Credentials) -> (r: Result<LoginPost, ForumError>)
        ensures
            match r {
                Ok(LoginPost::Success { user, next }) => {
                    &&& backend.users().resolve(creds.username@) == Some(user@)
                    &&& password_verifies(creds.password@, user@.password)
                    &&& next == creds.next
                },
                Ok(LoginPost::Failure { error, next }) => {
                    &&& error@ == "Username or password incorrect"@
                    &&& next == creds.next
                    &&& !backend.users().garbled(creds.username@)
                    &&& backend.users().resolve(creds.username@) matches Some(user)
                        ==> !password_verifies(creds.password@, user.password)
                },
                Err(ForumError::Codec) => backend.users().garbled(creds.username@),
                Err(e) => e is Sled,
            },
    {
        let next = creds.next.clone();
        match backend.authenticate(creds) {
            Ok(Some(user)) => Ok(LoginPost::Success { user, next }),
            Ok(None) => Ok(
                LoginPost::Failure {
                    error: "Username or password incorrect".to_owned(),
                    next,
                },
            ),
            Err(e) => Err(e),
        }
    }
}

/// How an attempt to register ended.
pub enum RegisterPost {
    Success { user: User, next: Option<String> },
    Failure { error: String, next: Option<String> },
}

impl RegisterPost {
    /// Stores a new user under the fresh identifier `key` with the password
    /// hash `hash`, and makes the users durable.
    pub fn store(users: &mut Users, key: UserKey, creds: Credentials, hash: String) -> (r: Result<
        RegisterPost,
        ForumError,
    >)
        ensures
            match r {
                Ok(RegisterPost::Success { user, next }) => {
                    &&& user@ == (UserView {
                        key,
                        username: creds.username@,
                        password: hash@,
                        avatar: None,
                    })
                    &&& next == creds.next
                    &&& final(users).rows() == with_user(
                        old(users).rows(),
                        old(users).names(),
                        key,
                        user@,
                    ).0
                    &&& final(users).names() == with_user(
                        old(users).rows(),
                        old(users).names(),
                        key,
                        user@,
                    ).1
                    &&& final(users)@ == old(users)@.insert(key, user@)
                },
                Ok(RegisterPost::Failure { .. }) => false,
                Err(e) => e is Sled,
            },
            r is Ok && old(users).wf() && (forall|other: UserKey| #[trigger]
                old(users)@.contains_key(other) && other != key ==> old(users)@[other].username
                    != creds.username@) ==> final(users).wf(),
    {
        let stored = User {
            key,
            username: creds.username.clone(),
            password: hash.clone(),
            avatar: None,
        };
        let user = User { key, username: creds.username, password: hash, avatar: None };
        match users.insert(key, stored) {
            Ok(()) => {},
            Err(e) => {
                return Err(e);
            },
        }
        proof {
            if old(users).wf() && (forall|other: UserKey| #[trigger]
                old(users)@.contains_key(other) && other != key ==> old(users)@[other].username
                    != creds.username@) {
                lemma_insert_keeps_index(old(users).rows(), old(users).names(), key, user@);
            }
        }
        match users.flush() {
            Ok(()) => {},
            Err(e) => {
                return Err(e);
            },
        }
        Ok(RegisterPost::Success { user, next: creds.next })
    }

    /// Registers a user: refuses a name that leads to a stored user, else
    /// takes a fresh identifier, hashes the password and stores the user.
    pub fn attempt(users: &mut Users, keys: &mut HighestKeys, creds: Credentials) -> (r: Result<
        RegisterPost,
        ForumError,
    >)
        ensures
            match r {
                Ok(RegisterPost::Success { user, next }) => {
                    &&& old(users).resolve(creds.username@) is None
                    &&& !old(users).garbled(creds.username@)
                    &&& old(keys).highest(TableType::Users) < u64::MAX
                    &&& user@.key.0.0 == old(keys).highest(TableType::Users) + 1
                    &&& user@.username == creds.username@
                    &&& password_verifies(creds.password@, user@.password)
                    &&& user@.avatar is None
                    &&& next == creds.next
                    &&& final(users).rows() == with_user(
                        old(users).rows(),
                        old(users).names(),
                        user@.key,
                        user@,
                    ).0
                    &&& final(users).names() == with_user(
                        old(users).rows(),
                        old(users).names(),
                        user@.key,
                        user@,
                    ).1
                    &&& final(users)@ == old(users)@.insert(user@.key, user@)
                    &&& final(keys).rows() == taken(old(keys).rows(), TableType::Users)
                    &&& old(users).registry_wf(old(keys)) ==> !old(users)@.contains_key(user@.key)
                },
                Ok(RegisterPost::Failure { error, next }) => {
                    &&& error@ == "Username already taken"@
                    &&& next is None
                    &&& old(users).resolve(creds.username@) is Some
                    &&& final(users).rows() == old(users).rows()
                    &&& final(users).names() == old(users).names()
                    &&& final(keys).rows() == old(keys).rows()
                },
                Err(ForumError::Codec) => {
                    &&& final(users).rows() == old(users).rows()
                    &&& final(users).names() == old(users).names()
                    &&& final(keys).rows() == old(keys).rows()
                    &&& old(users).garbled(creds.username@) || (old(users).resolve(
                        creds.username@,
                    ) is None && !old(keys).readable(TableType::Users))
                },
                Err(ForumError::KeysExhausted(t)) => {
                    &&& t == TableType::Users
                    &&& old(users).resolve(creds.username@) is None
                    &&& !old(users).garbled(creds.username@)
                    &&& old(keys).readable(TableType::Users)
                    &&& old(keys).highest(t) == u64::MAX
                    &&& final(users).rows() == old(users).rows()
                    &&& final(users).names() == old(users).names()
                    &&& final(keys).rows() == old(keys).rows()
                },
                Err(ForumError::PasswordHash(_)) => {
                    &&& old(users).resolve(creds.username@) is None
                    &&& !old(users).garbled(creds.username@)
                    &&& old(keys).readable(TableType::Users)
                    &&& old(keys).highest(TableType::Users) < u64::MAX
                    &&& final(users).rows() == old(users).rows()
                    &&& final(users).names() == old(users).names()
                    &&& final(keys).rows() == taken(old(keys).rows(), TableType::Users)
                },
                Err(e) => e is Sled,
            },
            old(users).resolve(creds.username@) is Some ==> (r matches Ok(
                RegisterPost::Failure { .. },
            ) || r matches Err(ForumError::Sled(_))),
            old(users).resolve(creds.username@) is None && !old(users).garbled(creds.username@)
                && old(keys).readable(TableType::Users) && old(keys).highest(TableType::Users)
                < u64::MAX ==> (r matches Ok(RegisterPost::Success { .. }) || r matches Err(
                ForumError::Sled(_),
            ) || r matches Err(ForumError::PasswordHash(_))),
            r is Ok && old(users).wf() ==> final(users).wf(),
            !(r matches Err(ForumError::Sled(_))) && old(users).registry_wf(old(keys))
                ==> final(users).registry_wf(final(keys)),
    {
        match users.get_by_username(&creds.username) {
            Ok(Some(_)) => {
                return Ok(
                    RegisterPost::Failure {
                        error: "Username already taken".to_owned(),
                        next: None,
                    },
                );
            },
            Ok(None) => {},
            Err(e) => {
                return Err(e);
            },
        }
        let key = match users.next_key(keys) {
            Ok(key) => key,
            Err(e) => {
                return Err(e);
            },
        };
        proof {
            lemma_taken(old(keys).rows(), TableType::Users);
        }
        let hash = match hash_password(creds.password.as_str()) {
            Ok(hash) => hash,
            Err(e) => {
                return Err(ForumError::PasswordHash(e));
            },
        };
        proof {
            if users.wf() {
                assert forall|other: UserKey| #[trigger]
                    users@.contains_key(other) implies users@[other].username
                    != creds.username@ by {
                }
            }
        }
        Self::store(users, key, creds, hash)
    }
}

/// A logout that was asked for.
pub struct LogoutPost;

} // verus!
