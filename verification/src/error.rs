//! What can go wrong in the forum core.

use vstd::prelude::*;
use vstd::string::StringExecFns;
use crate::state::TableType;
use crate::state::key::decimal;
use crate::state::key::decimal_text;
use crate::state::post::PostKey;
use crate::state::thread::ThreadKey;
use crate::state::user::UserKey;

verus! {

/// `argon2::password_hash::Error`: a failure of the password hasher, carried
/// through as it is.
#[verifier::external_type_specification]
#[verifier::external_body]
pub struct ExPasswordHashError(argon2::password_hash::Error);

/// A failure of the forum core.
#[derive(Debug)]
pub enum ForumError {
    /// An identifier was not stored as eight bytes.
    TryFromSlice,
    /// Stored bytes do not decode as the record that the table holds.
    Codec,
    /// The key-value engine reported a failure.
    Sled(sled::Error),
    /// The password hasher reported a failure.
    PasswordHash(argon2::password_hash::Error),
    /// A protocol that needs an authenticated actor was given none.
    NotLoggedIn,
    PostNotFound(PostKey),
    ThreadNotFound(ThreadKey),
    UserNotFound(UserKey),
    ThreadHasNoPosts(ThreadKey),
    /// The counter of a table has reached the last identifier.
    KeysExhausted(TableType),
    /// A table is at a version that no registered transformation starts from.
    NoMigration(TableType, u64),
    /// The parent links from this post lead in a circle and reach no root.
    NoRoot(PostKey),
    /// No thread has this post as its root.
    NoThread(PostKey),
}

/// `Display` of `sled::Error`: the engine's own words for its failure.
#[verifier::external_body]
fn storage_error_text(e: &sled::Error) -> (r: String) {
    e.to_string()
}

/// `Display` of `argon2::password_hash::Error`: the hasher's own words for
/// its failure.
#[verifier::external_body]
fn hash_error_text(e: &argon2::password_hash::Error) -> (r: String) {
    e.to_string()
}

/// `label`, then the decimal notation of `number`.
fn labelled(label: &str, number: u64) -> (r: String)
    ensures
        r@ == label@ + decimal(number as nat),
{
    let mut text = label.to_owned();
    let digits = decimal_text(number);
    text.append(digits.as_str());
    text
}

impl TableType {
    /// The table's name as it is shown.
    pub open spec fn name(self) -> Seq<char> {
        match self {
            TableType::Posts => "Posts"@,
            TableType::Users => "Users"@,
            TableType::HighestKeys => "HighestKeys"@,
            TableType::Threads => "Threads"@,
        }
    }

    /// The table's name as it is shown.
    pub fn to_string(&self) -> (r: String)
        ensures
            r@ == self.name(),
    {
        match self {
            TableType::Posts => "Posts".to_owned(),
            TableType::Users => "Users".to_owned(),
            TableType::HighestKeys => "HighestKeys".to_owned(),
            TableType::Threads => "Threads".to_owned(),
        }
    }
}

impl ForumError {
    /// The message of a failure of the core's own, without the outside
    /// failure that two of the variants carry: for them the message is the
    /// label that the outside failure's words follow.
    pub open spec fn message(&self) -> Seq<char> {
        match self {
            ForumError::TryFromSlice => "failed to parse key: could not convert slice to array"@,
            ForumError::Codec => "stored bytes do not decode"@,
            ForumError::Sled(_) => "sled failed: "@,
            ForumError::PasswordHash(_) => "password hash failed: "@,
            ForumError::NotLoggedIn => "not logged in (should never happen)"@,
            ForumError::PostNotFound(key) => "post not found: "@ + decimal(key.0.0 as nat),
            ForumError::ThreadNotFound(key) => "thread not found: "@ + decimal(key.0.0 as nat),
            ForumError::UserNotFound(key) => "user not found: "@ + decimal(key.0.0 as nat),
            ForumError::ThreadHasNoPosts(key) => "thread has no posts: "@ + decimal(
                key.0.0 as nat,
            ),
            ForumError::KeysExhausted(table) => "no identifier is left for "@ + table.name(),
            ForumError::NoMigration(table, version) => "no migration starts from version "@
                + decimal(*version as nat) + " of "@ + table.name(),
            ForumError::NoRoot(key) => "no root is reached from post "@ + decimal(key.0.0 as nat),
            ForumError::NoThread(key) => "no thread has the root post "@ + decimal(
                key.0.0 as nat,
            ),
        }
    }

    /// The failure in words. Where the failure came from outside, the
    /// outside's own words follow the label.
    pub fn to_string(&self) -> (r: String)
        ensures
            match self {
                ForumError::Sled(_) | ForumError::PasswordHash(_) => self.message().is_prefix_of(
                    r@,
                ),
                _ => r@ == self.message(),
            },
    {
        match self {
            ForumError::TryFromSlice => {
                "failed to parse key: could not convert slice to array".to_owned()
            },
            ForumError::Codec => "stored bytes do not decode".to_owned(),
            ForumError::Sled(e) => {
                let mut text = "sled failed: ".to_owned();
                let words = storage_error_text(e);
                text.append(words.as_str());
                text
            },
            ForumError::PasswordHash(e) => {
                let mut text = "password hash failed: ".to_owned();
                let words = hash_error_text(e);
                text.append(words.as_str());
                assert(text@.subrange(0, "password hash failed: "@.len() as int)
                    =~= "password hash failed: "@);
                text
            },
            ForumError::NotLoggedIn => "not logged in (should never happen)".to_owned(),
            ForumError::PostNotFound(key) => labelled("post not found: ", key.0.0),
            ForumError::ThreadNotFound(key) => labelled("thread not found: ", key.0.0),
            ForumError::UserNotFound(key) => labelled("user not found: ", key.0.0),
            ForumError::ThreadHasNoPosts(key) => labelled("thread has no posts: ", key.0.0),
            ForumError::KeysExhausted(table) => {
                let mut text = "no identifier is left for ".to_owned();
                let name = table.to_string();
                text.append(name.as_str());
                text
            },
            ForumError::NoMigration(table, version) => {
                let mut text = labelled("no migration starts from version ", *version);
                text.append(" of ");
                let name = table.to_string();
                text.append(name.as_str());
                text
            },
            ForumError::NoRoot(key) => labelled("no root is reached from post ", key.0.0),
            ForumError::NoThread(key) => labelled("no thread has the root post ", key.0.0),
        }
    }
}

} // verus!
