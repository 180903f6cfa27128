//! Schema versions of the tables and the migrations between them. A
//! migration runs offline, with no other writer: it reads the table's version,
//! rewrites every row once for each version that the table is behind, and
//! records the version that the table is at.

use vstd::prelude::*;
use crate::error::ForumError;
use crate::state::AppState;
use crate::state::Record;
use crate::state::TableKey;
use crate::state::TableType;
use crate::state::Versions;
use crate::state::codec::lemma_u64_bytes_of_value;
use crate::state::codec::lemma_u64_round_trip;
use crate::state::codec::u64_bytes;
use crate::state::codec::u64_value;
use crate::state::fully_typed;
use crate::state::key::HighestKeys;
use crate::state::key::highest_in;
use crate::state::key::readable_in;
use crate::state::lemma_listing_fixed;
use crate::state::lists_typed;
use crate::state::post::Post;
use crate::state::post::PostKey;
use crate::state::post::Posts;
use crate::state::same_item;
use crate::state::thread::Thread;
use crate::state::thread::ThreadKey;
use crate::state::thread::Threads;
use crate::state::typed;
use crate::state::user::User;
use crate::state::user::UserKey;
use crate::state::user::Users;
use crate::versioning::posts::first_thread_opened;
use crate::versioning::posts::posts_linked;
use crate::versioning::posts::posts_threaded;
use crate::versioning::posts::posts_v1_to_v2;
use crate::versioning::posts::posts_v2_to_v3;
use crate::versioning::posts::unthreadable;
use crate::versioning::records::PostV1;
use crate::versioning::records::PostV2;
use crate::versioning::records::UserV1;
use crate::versioning::users::users_upgraded;
use crate::versioning::users::users_v1_to_v2;

pub mod posts;
pub mod records;
pub mod users;

verus! {

/// The schema version that the users are at once migrated.
pub const USERS_VERSION: u64 = 2;

/// The schema version that the posts are at once migrated.
pub const POSTS_VERSION: u64 = 3;

/// The error for a listing that holds a row which does not decode: the
/// failure of its first such row.
pub(crate) fn first_failure<K: TableKey, A: Record>(listing: &Vec<Result<(K, A), ForumError>>) -> (r: Result<
    (),
    ForumError,
>)
    ensures
        match r {
            Ok(()) => forall|i: int| 0 <= i < listing@.len() ==> (#[trigger] listing@[i]) is Ok,
            Err(e) => (e is Codec || e is TryFromSlice) && exists|i: int|
                0 <= i < listing@.len() && (#[trigger] listing@[i]) is Err,
        },
{
    let mut i: usize = 0;
    while i < listing.len()
        invariant
            i <= listing.len(),
            forall|j: int| 0 <= j < i ==> (#[trigger] listing@[j]) is Ok,
        decreases listing.len() - i,
    {
        match &listing[i] {
            Ok(_) => {},
            Err(ForumError::TryFromSlice) => {
                return Err(ForumError::TryFromSlice);
            },
            Err(_) => {
                return Err(ForumError::Codec);
            },
        }
        i += 1;
    }
    Ok(())
}

/// The version that the rows of the versions record for `table`.
pub open spec fn version_in(versions: Map<Seq<u8>, Seq<u8>>, table: TableType) -> Option<u64> {
    if versions.contains_key(table.code()) {
        Some(u64_value(versions[table.code()]))
    } else {
        None
    }
}

/// Whether the version of `table` can be read: no row, or a row of eight
/// bytes.
pub open spec fn version_readable(versions: Map<Seq<u8>, Seq<u8>>, table: TableType) -> bool {
    versions.contains_key(table.code()) ==> versions[table.code()].len() == 8
}

/// The version that a table is at after a migration to `target`: `target`
/// for a table without a version and for one behind it, else the version
/// that the table was at.
pub open spec fn settled_version(version: Option<u64>, target: u64) -> u64 {
    match version {
        None => target,
        Some(v) => if v < target {
            target
        } else {
            v
        },
    }
}

/// The rows of the versions with `version` recorded for `table`.
pub open spec fn recorded(
    versions: Map<Seq<u8>, Seq<u8>>,
    table: TableType,
    version: u64,
) -> Map<Seq<u8>, Seq<u8>> {
    versions.insert(table.code(), u64_bytes(version))
}

/// Recording the version that is recorded changes nothing.
pub proof fn lemma_recorded_again(versions: Map<Seq<u8>, Seq<u8>>, table: TableType)
    requires
        versions.contains_key(table.code()),
        versions[table.code()].len() == 8,
    ensures
        recorded(versions, table, version_in(versions, table)->Some_0) == versions,
{
    lemma_u64_bytes_of_value(versions[table.code()]);
}

/// What a migration of the users makes of the versions and of the users:
/// the version is settled at the users' version; users at version 1 are
/// upgraded, any others are left as they are.
pub open spec fn users_migrated(
    versions: Map<Seq<u8>, Seq<u8>>,
    users: Map<Seq<u8>, Seq<u8>>,
    versions_after: Map<Seq<u8>, Seq<u8>>,
    users_after: Map<Seq<u8>, Seq<u8>>,
) -> bool {
    let version = version_in(versions, TableType::Users);
    &&& version_readable(versions, TableType::Users)
    &&& version != Some(0u64)
    &&& versions_after == recorded(
        versions,
        TableType::Users,
        settled_version(version, USERS_VERSION),
    )
    &&& if version == Some(1u64) {
        users_upgraded(users, users_after)
    } else {
        users_after == users
    }
}

/// Migrating the users twice is migrating them once: a second run changes
/// neither the versions nor the users.
pub proof fn lemma_users_migration_settles(
    versions: Map<Seq<u8>, Seq<u8>>,
    users: Map<Seq<u8>, Seq<u8>>,
    versions_1: Map<Seq<u8>, Seq<u8>>,
    users_1: Map<Seq<u8>, Seq<u8>>,
    versions_2: Map<Seq<u8>, Seq<u8>>,
    users_2: Map<Seq<u8>, Seq<u8>>,
)
    requires
        users_migrated(versions, users, versions_1, users_1),
        users_migrated(versions_1, users_1, versions_2, users_2),
    ensures
        versions_2 == versions_1,
        users_2 == users_1,
{
    let v = settled_version(version_in(versions, TableType::Users), USERS_VERSION);
    lemma_u64_round_trip(v);
    lemma_recorded_again(versions_1, TableType::Users);
}

/// The version of `table`, if it has one.
fn read_version(versions: &Versions, table: TableType) -> (r: Result<Option<u64>, ForumError>)
    ensures
        match r {
            Ok(version) => version_readable(versions.rows(), table) && version == version_in(
                versions.rows(),
                table,
            ),
            Err(ForumError::Codec) => !version_readable(versions.rows(), table),
            Err(e) => e is Sled,
        },
{
    versions.get(table)
}

/// Records `version` for `table` and makes the versions durable.
fn record_version(versions: &mut Versions, table: TableType, version: u64) -> (r: Result<
    (),
    ForumError,
>)
    ensures
        match r {
            Ok(()) => final(versions).rows() == recorded(old(versions).rows(), table, version),
            Err(e) => e is Sled,
        },
{
    match versions.insert(table, version) {
        Ok(()) => {},
        Err(e) => {
            return Err(e);
        },
    }
    versions.flush()
}

/// Migrates the users to their current version. A table without a version
/// is taken to be new and only gets the version recorded.
pub fn migrate_users(versions: &mut Versions, users: &mut Users) -> (r: Result<(), ForumError>)
    ensures
        final(users).names() == old(users).names(),
        match r {
            Ok(()) => users_migrated(
                old(versions).rows(),
                old(users).rows(),
                final(versions).rows(),
                final(users).rows(),
            ),
            Err(ForumError::NoMigration(table, version)) => {
                &&& table == TableType::Users
                &&& version == 0
                &&& version_in(old(versions).rows(), TableType::Users) == Some(0u64)
                &&& final(users).rows() == old(users).rows()
                &&& final(versions).rows() == old(versions).rows()
            },
            Err(ForumError::Sled(_)) => true,
            Err(e) => {
                &&& e is Codec || e is TryFromSlice
                &&& final(users).rows() == old(users).rows()
                &&& final(versions).rows() == old(versions).rows()
                &&& !version_readable(old(versions).rows(), TableType::Users) || (version_in(
                    old(versions).rows(),
                    TableType::Users,
                ) == Some(1u64) && !fully_typed::<UserKey, UserV1>(old(users).rows()))
            },
        },
{
    let mut version = match read_version(versions, TableType::Users) {
        Ok(Some(version)) => version,
        Ok(None) => {
            return record_version(versions, TableType::Users, USERS_VERSION);
        },
        Err(e) => {
            return Err(e);
        },
    };
    if version < USERS_VERSION {
        if version == 1 {
            match users_v1_to_v2(users) {
                Ok(()) => {},
                Err(e) => {
                    return Err(e);
                },
            }
            version = 2;
        } else {
            return Err(ForumError::NoMigration(TableType::Users, version));
        }
    }
    match users.flush() {
        Ok(()) => {},
        Err(e) => {
            return Err(e);
        },
    }
    record_version(versions, TableType::Users, version)
}

/// The stored rows that a migration of the posts reads and writes.
pub ghost struct PostsState {
    pub versions: Map<Seq<u8>, Seq<u8>>,
    pub posts: Map<Seq<u8>, Seq<u8>>,
    pub threads: Map<Seq<u8>, Seq<u8>>,
    pub keys: Map<Seq<u8>, Seq<u8>>,
}

/// What a migration of the posts makes of the stored rows: the version
/// is settled at the posts' version; posts at version 1 are linked, with their
/// first thread opened, and then given their threads; posts at version 2
/// are given their threads; any others are left as they are.
pub open spec fn posts_migrated(a: PostsState, b: PostsState) -> bool {
    let version = version_in(a.versions, TableType::Posts);
    &&& version_readable(a.versions, TableType::Posts)
    &&& version != Some(0u64)
    &&& b.versions == recorded(
        a.versions,
        TableType::Posts,
        settled_version(version, POSTS_VERSION),
    )
    &&& if version == Some(1u64) {
        exists|linked: Map<Seq<u8>, Seq<u8>>|
            {
                &&& #[trigger] posts_linked(a.posts, linked)
                &&& first_thread_opened(
                    a.posts,
                    typed::<ThreadKey, Thread>(a.threads),
                    a.keys,
                    typed::<ThreadKey, Thread>(b.threads),
                    b.keys,
                )
                &&& posts_threaded(linked, typed::<ThreadKey, Thread>(b.threads), b.posts)
            }
    } else if version == Some(2u64) {
        &&& posts_threaded(a.posts, typed::<ThreadKey, Thread>(a.threads), b.posts)
        &&& b.threads == a.threads
        &&& b.keys == a.keys
    } else {
        &&& b.posts == a.posts
        &&& b.threads == a.threads
        &&& b.keys == a.keys
    }
}

/// What is stored where a migration of the posts ended in the failure `e` of
/// its own: the version is as it was, and the failure has its cause in what
/// was stored. An unreadable version and version 0 stop the migration before
/// it writes. At version 1, rows that are no posts of that version, an
/// unreadable or exhausted counter of threads stop it with the posts as they
/// were; after the posts are linked and their first thread is opened, a row
/// that is no thread, or a post that cannot be given a thread, stops it. At
/// version 2 the same two stop it with everything as it was.
pub open spec fn posts_migration_failed(a: PostsState, b: PostsState, e: ForumError) -> bool {
    let version = version_in(a.versions, TableType::Posts);
    let stopped_linked = {
        &&& version == Some(1u64)
        &&& posts_linked(a.posts, b.posts)
        &&& first_thread_opened(
            a.posts,
            typed::<ThreadKey, Thread>(a.threads),
            a.keys,
            typed::<ThreadKey, Thread>(b.threads),
            b.keys,
        )
    };
    &&& b.versions == a.versions
    &&& if e is Codec || e is TryFromSlice {
        ||| e is Codec && !version_readable(a.versions, TableType::Posts) && b == a
        ||| version == Some(1u64) && b.posts == a.posts && (!fully_typed::<PostKey, PostV1>(
            a.posts,
        ) || !readable_in(a.keys, TableType::Threads))
        ||| stopped_linked && !fully_typed::<ThreadKey, Thread>(b.threads)
        ||| version == Some(2u64) && b == a && (!fully_typed::<PostKey, PostV2>(a.posts)
            || !fully_typed::<ThreadKey, Thread>(a.threads))
    } else if e is KeysExhausted {
        &&& e->KeysExhausted_0 == TableType::Threads
        &&& version == Some(1u64)
        &&& highest_in(a.keys, TableType::Threads) == u64::MAX
        &&& b.posts == a.posts
    } else if e is PostNotFound || e is NoRoot || e is NoThread {
        ||| version == Some(2u64) && b == a && unthreadable(
            a.posts,
            typed::<ThreadKey, Thread>(a.threads),
        )
        ||| stopped_linked && unthreadable(b.posts, typed::<ThreadKey, Thread>(b.threads))
    } else {
        &&& e matches ForumError::NoMigration(table, at)
        &&& table == TableType::Posts
        &&& at == 0
        &&& version == Some(0u64)
        &&& b == a
    }
}

/// Migrating the posts twice is migrating them once: a second run changes
/// nothing of what is stored.
pub proof fn lemma_posts_migration_settles(a: PostsState, b: PostsState, c: PostsState)
    requires
        posts_migrated(a, b),
        posts_migrated(b, c),
    ensures
        c == b,
{
    let v = settled_version(version_in(a.versions, TableType::Posts), POSTS_VERSION);
    lemma_u64_round_trip(v);
    lemma_recorded_again(b.versions, TableType::Posts);
}

/// Migrates the posts to their current version. A table without a version
/// is taken to be new and only gets the version recorded.
pub fn migrate_posts(
    versions: &mut Versions,
    posts: &mut Posts,
    threads: &mut Threads,
    keys: &mut HighestKeys,
) -> (r: Result<(), ForumError>)
    ensures
        match r {
            Ok(()) => posts_migrated(
                PostsState {
                    versions: old(versions).rows(),
                    posts: old(posts).rows(),
                    threads: old(threads).rows(),
                    keys: old(keys).rows(),
                },
                PostsState {
                    versions: final(versions).rows(),
                    posts: final(posts).rows(),
                    threads: final(threads).rows(),
                    keys: final(keys).rows(),
                },
            ),
            Err(ForumError::Sled(_)) => true,
            Err(e) => posts_migration_failed(
                PostsState {
                    versions: old(versions).rows(),
                    posts: old(posts).rows(),
                    threads: old(threads).rows(),
                    keys: old(keys).rows(),
                },
                PostsState {
                    versions: final(versions).rows(),
                    posts: final(posts).rows(),
                    threads: final(threads).rows(),
                    keys: final(keys).rows(),
                },
                e,
            ),
        },
        r matches Err(e) ==> migration_failure(e),
{
    let mut version = match read_version(versions, TableType::Posts) {
        Ok(Some(version)) => version,
        Ok(None) => {
            return record_version(versions, TableType::Posts, POSTS_VERSION);
        },
        Err(e) => {
            return Err(e);
        },
    };
    let ghost linked = posts.rows();
    if version < POSTS_VERSION {
        if version == 1 {
            match posts_v1_to_v2(posts, threads, keys) {
                Ok(()) => {},
                Err(e) => {
                    return Err(e);
                },
            }
            proof {
                linked = posts.rows();
            }
            version = 2;
        }
        if version == 2 {
            match posts_v2_to_v3(posts, threads) {
                Ok(()) => {},
                Err(e) => {
                    return Err(e);
                },
            }
            version = 3;
        } else {
            return Err(ForumError::NoMigration(TableType::Posts, version));
        }
    }
    match posts.flush() {
        Ok(()) => {},
        Err(e) => {
            return Err(e);
        },
    }
    let r = record_version(versions, TableType::Posts, version);
    proof {
        if r is Ok {
            let a = PostsState {
                versions: old(versions).rows(),
                posts: old(posts).rows(),
                threads: old(threads).rows(),
                keys: old(keys).rows(),
            };
            let b = PostsState {
                versions: versions.rows(),
                posts: posts.rows(),
                threads: threads.rows(),
                keys: keys.rows(),
            };
            let started = version_in(a.versions, TableType::Posts);
            assert(b.versions == recorded(
                a.versions,
                TableType::Posts,
                settled_version(started, POSTS_VERSION),
            ));
            if started == Some(1u64) {
                assert(posts_linked(a.posts, linked));
                assert(posts_threaded(linked, typed::<ThreadKey, Thread>(b.threads), b.posts));
                assert(first_thread_opened(
                    a.posts,
                    typed::<ThreadKey, Thread>(a.threads),
                    a.keys,
                    typed::<ThreadKey, Thread>(b.threads),
                    b.keys,
                ));
            }
        }
    }
    r
}

/// Settles the version of a table that has no migration: a table without a
/// version gets version 1, any other keeps its version.
pub fn migrate_plain(versions: &mut Versions, table: TableType) -> (r: Result<(), ForumError>)
    ensures
        match r {
            Ok(()) => {
                &&& version_readable(old(versions).rows(), table)
                &&& version_in(old(versions).rows(), table) != Some(0u64)
                &&& final(versions).rows() == recorded(
                    old(versions).rows(),
                    table,
                    settled_version(version_in(old(versions).rows(), table), 1),
                )
            },
            Err(ForumError::NoMigration(t, version)) => {
                &&& t == table
                &&& version == 0
                &&& version_in(old(versions).rows(), table) == Some(0u64)
                &&& final(versions).rows() == old(versions).rows()
            },
            Err(ForumError::Codec) => {
                &&& !version_readable(old(versions).rows(), table)
                &&& final(versions).rows() == old(versions).rows()
            },
            Err(e) => e is Sled,
        },
{
    match read_version(versions, table) {
        Ok(Some(version)) => {
            if version < 1 {
                Err(ForumError::NoMigration(table, version))
            } else {
                record_version(versions, table, version)
            }
        },
        Ok(None) => record_version(versions, table, 1),
        Err(e) => Err(e),
    }
}

/// Migrates every table of the database `db` to its current version: opens
/// its keyspaces, each once, and migrates them as [`migrate_tables`] does.
/// What the database holds has no name here, so that only the failures
/// that the run can end in are stated.
pub fn migrate(db: sled::Db) -> (r: Result<(), ForumError>)
    ensures
        r matches Err(e) ==> migration_failure(e),
{
    let mut state = match AppState::open(db) {
        Ok(state) => state,
        Err(e) => {
            return Err(e);
        },
    };
    migrate_tables(
        &mut state.versions,
        &mut state.users,
        &mut state.posts,
        &mut state.threads,
        &mut state.highest_keys,
    )
}

/// Whether a migration can end in the failure `e`: the engine failed, a row or
/// a counter did not decode, no identifier was left for a thread, a post could
/// not be given its thread, or a table was at version 0, from which no
/// migration starts.
pub open spec fn migration_failure(e: ForumError) -> bool {
    ||| e is Sled
    ||| e is Codec
    ||| e is TryFromSlice
    ||| e is KeysExhausted
    ||| e is PostNotFound
    ||| e is NoRoot
    ||| e is NoThread
    ||| e matches ForumError::NoMigration(_, version) && version == 0
}

/// The rows of the versions after `table` was settled at `target`.
pub open spec fn settled(
    versions: Map<Seq<u8>, Seq<u8>>,
    table: TableType,
    target: u64,
) -> Map<Seq<u8>, Seq<u8>> {
    recorded(versions, table, settled_version(version_in(versions, table), target))
}

/// The stored rows of every keyspace that a migration reads or writes.
pub ghost struct Stored {
    pub versions: Map<Seq<u8>, Seq<u8>>,
    pub users: Map<Seq<u8>, Seq<u8>>,
    pub names: Map<Seq<u8>, Seq<u8>>,
    pub posts: Map<Seq<u8>, Seq<u8>>,
    pub threads: Map<Seq<u8>, Seq<u8>>,
    pub keys: Map<Seq<u8>, Seq<u8>>,
}

/// What a migration of every table makes of the stored rows: the users are
/// migrated, then the posts, then the versions of the threads and of the
/// counters are settled at 1, each on what the step before it left.
pub open spec fn all_migrated(a: Stored, b: Stored) -> bool {
    let with_users = settled(a.versions, TableType::Users, USERS_VERSION);
    let with_posts = settled(with_users, TableType::Posts, POSTS_VERSION);
    let with_threads = settled(with_posts, TableType::Threads, 1);
    &&& users_migrated(a.versions, a.users, with_users, b.users)
    &&& b.names == a.names
    &&& posts_migrated(
        PostsState { versions: with_users, posts: a.posts, threads: a.threads, keys: a.keys },
        PostsState { versions: with_posts, posts: b.posts, threads: b.threads, keys: b.keys },
    )
    &&& version_readable(with_posts, TableType::Threads)
    &&& version_in(with_posts, TableType::Threads) != Some(0u64)
    &&& version_readable(with_threads, TableType::HighestKeys)
    &&& version_in(with_threads, TableType::HighestKeys) != Some(0u64)
    &&& b.versions == settled(with_threads, TableType::HighestKeys, 1)
}

/// Whether a migration of the users that starts from what is stored can end
/// in the failure `e` of its own: the version cannot be read or is 0, or the
/// users are at version 1 and a row is no user of that version.
pub open spec fn users_migration_failed(
    versions: Map<Seq<u8>, Seq<u8>>,
    users: Map<Seq<u8>, Seq<u8>>,
    e: ForumError,
) -> bool {
    if e is Codec || e is TryFromSlice {
        ||| !version_readable(versions, TableType::Users)
        ||| version_in(versions, TableType::Users) == Some(1u64) && !fully_typed::<UserKey, UserV1>(
            users,
        )
    } else {
        &&& e matches ForumError::NoMigration(table, at)
        &&& table == TableType::Users
        &&& at == 0
        &&& version_in(versions, TableType::Users) == Some(0u64)
    }
}

/// Whether settling the version of a table without a migration can end in
/// the failure `e` of its own: the version cannot be read or is 0.
pub open spec fn plain_migration_failed(
    versions: Map<Seq<u8>, Seq<u8>>,
    table: TableType,
    e: ForumError,
) -> bool {
    if e is Codec {
        !version_readable(versions, table)
    } else {
        &&& e matches ForumError::NoMigration(t, at)
        &&& t == table
        &&& at == 0
        &&& version_in(versions, table) == Some(0u64)
    }
}

/// What is stored where a migration of every table ended in the failure `e`
/// of its own: the steps before the one that failed are done, the step that
/// failed has the cause of `e` in what it started from, and no later step
/// was begun.
pub open spec fn tables_migration_failed(a: Stored, b: Stored, e: ForumError) -> bool {
    let with_users = settled(a.versions, TableType::Users, USERS_VERSION);
    let with_posts = settled(with_users, TableType::Posts, POSTS_VERSION);
    let with_threads = settled(with_posts, TableType::Threads, 1);
    let users_done = users_migrated(a.versions, a.users, with_users, b.users) && b.names == a.names;
    let posts_done = posts_migrated(
        PostsState { versions: with_users, posts: a.posts, threads: a.threads, keys: a.keys },
        PostsState { versions: with_posts, posts: b.posts, threads: b.threads, keys: b.keys },
    );
    ||| users_migration_failed(a.versions, a.users, e) && b == a
    ||| {
        &&& users_done
        &&& posts_migration_failed(
            PostsState { versions: with_users, posts: a.posts, threads: a.threads, keys: a.keys },
            PostsState { versions: b.versions, posts: b.posts, threads: b.threads, keys: b.keys },
            e,
        )
    }
    ||| {
        &&& users_done
        &&& posts_done
        &&& b.versions == with_posts
        &&& plain_migration_failed(with_posts, TableType::Threads, e)
    }
    ||| {
        &&& users_done
        &&& posts_done
        &&& version_readable(with_posts, TableType::Threads)
        &&& version_in(with_posts, TableType::Threads) != Some(0u64)
        &&& b.versions == with_threads
        &&& plain_migration_failed(with_threads, TableType::HighestKeys, e)
    }
}

/// Migrates every table to its current version: the users, the posts, then
/// the two tables that have no migration. The first failure ends the run.
pub fn migrate_tables(
    versions: &mut Versions,
    users: &mut Users,
    posts: &mut Posts,
    threads: &mut Threads,
    keys: &mut HighestKeys,
) -> (r: Result<(), ForumError>)
    ensures
        match r {
            Ok(()) => all_migrated(
                Stored {
                    versions: old(versions).rows(),
                    users: old(users).rows(),
                    names: old(users).names(),
                    posts: old(posts).rows(),
                    threads: old(threads).rows(),
                    keys: old(keys).rows(),
                },
                Stored {
                    versions: final(versions).rows(),
                    users: final(users).rows(),
                    names: final(users).names(),
                    posts: final(posts).rows(),
                    threads: final(threads).rows(),
                    keys: final(keys).rows(),
                },
            ),
            Err(ForumError::Sled(_)) => true,
            Err(e) => tables_migration_failed(
                Stored {
                    versions: old(versions).rows(),
                    users: old(users).rows(),
                    names: old(users).names(),
                    posts: old(posts).rows(),
                    threads: old(threads).rows(),
                    keys: old(keys).rows(),
                },
                Stored {
                    versions: final(versions).rows(),
                    users: final(users).rows(),
                    names: final(users).names(),
                    posts: final(posts).rows(),
                    threads: final(threads).rows(),
                    keys: final(keys).rows(),
                },
                e,
            ),
        },
        r matches Err(e) ==> migration_failure(e),
{
    match migrate_users(versions, users) {
        Ok(()) => {},
        Err(e) => {
            return Err(e);
        },
    }
    match migrate_posts(versions, posts, threads, keys) {
        Ok(()) => {},
        Err(e) => {
            return Err(e);
        },
    }
    match migrate_plain(versions, TableType::Threads) {
        Ok(()) => {},
        Err(e) => {
            return Err(e);
        },
    }
    migrate_plain(versions, TableType::HighestKeys)
}

/// Migrating every table twice is migrating once: a second run changes
/// nothing of what is stored.
pub proof fn lemma_migration_settles(a: Stored, b: Stored, c: Stored)
    requires
        all_migrated(a, b),
        all_migrated(b, c),
    ensures
        c == b,
{
    assert forall|s: TableType, t: TableType| s != t implies s.code() != t.code() by {
        if s.code() == t.code() {
            TableType::lemma_code_injective(s, t);
        }
    }
    let a1 = settled(a.versions, TableType::Users, USERS_VERSION);
    let a2 = settled(a1, TableType::Posts, POSTS_VERSION);
    let a3 = settled(a2, TableType::Threads, 1);
    lemma_u64_round_trip(settled_version(version_in(a.versions, TableType::Users), USERS_VERSION));
    lemma_u64_round_trip(settled_version(version_in(a1, TableType::Posts), POSTS_VERSION));
    lemma_u64_round_trip(settled_version(version_in(a2, TableType::Threads), 1));
    lemma_u64_round_trip(settled_version(version_in(a3, TableType::HighestKeys), 1));
    lemma_recorded_again(b.versions, TableType::Users);
    lemma_recorded_again(b.versions, TableType::Posts);
    lemma_recorded_again(b.versions, TableType::Threads);
    lemma_recorded_again(b.versions, TableType::HighestKeys);
}

/// After a second migration the posts, the threads and the users list as
/// they did after the first: the same items in the same places.
pub proof fn lemma_migration_keeps_listings(
    a: Stored,
    b: Stored,
    c: Stored,
    posts_1: Seq<Result<(PostKey, Post), ForumError>>,
    posts_2: Seq<Result<(PostKey, Post), ForumError>>,
    threads_1: Seq<Result<(ThreadKey, Thread), ForumError>>,
    threads_2: Seq<Result<(ThreadKey, Thread), ForumError>>,
    users_1: Seq<Result<(UserKey, User), ForumError>>,
    users_2: Seq<Result<(UserKey, User), ForumError>>,
)
    requires
        all_migrated(a, b),
        all_migrated(b, c),
        lists_typed::<PostKey, Post>(posts_1, b.posts),
        lists_typed::<PostKey, Post>(posts_2, c.posts),
        lists_typed::<ThreadKey, Thread>(threads_1, b.threads),
        lists_typed::<ThreadKey, Thread>(threads_2, c.threads),
        lists_typed::<UserKey, User>(users_1, b.users),
        lists_typed::<UserKey, User>(users_2, c.users),
    ensures
        posts_1.len() == posts_2.len(),
        forall|i: int|
            0 <= i < posts_1.len() ==> same_item::<PostKey, Post>(#[trigger] posts_1[i], posts_2[i]),
        threads_1.len() == threads_2.len(),
        forall|i: int|
            0 <= i < threads_1.len() ==> same_item::<ThreadKey, Thread>(
                #[trigger] threads_1[i],
                threads_2[i],
            ),
        users_1.len() == users_2.len(),
        forall|i: int|
            0 <= i < users_1.len() ==> same_item::<UserKey, User>(#[trigger] users_1[i], users_2[i]),
{
    lemma_migration_settles(a, b, c);
    lemma_listing_fixed::<PostKey, Post>(posts_1, posts_2, b.posts);
    lemma_listing_fixed::<ThreadKey, Thread>(threads_1, threads_2, b.threads);
    lemma_listing_fixed::<UserKey, User>(users_1, users_2, b.users);
}

} // verus!
