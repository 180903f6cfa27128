use dragon_fox::error::ForumError;
use dragon_fox::state::codec::{decode_u64, encode_u64};
use dragon_fox::state::key::Key;
use dragon_fox::state::post::PostKey;
use dragon_fox::state::thread::{Thread, ThreadKey};
use dragon_fox::state::user::UserKey;
use dragon_fox::state::{AppState, Record, TableKey, TableType};
use dragon_fox::versioning::records::{PostV1, PostV2, UserV1};
use dragon_fox::versioning::posts::{posts_v1_to_v2, posts_v2_to_v3};
use dragon_fox::versioning::users::users_v1_to_v2;
use dragon_fox::versioning::{
    migrate, migrate_plain, migrate_posts, migrate_tables, migrate_users, POSTS_VERSION,
    USERS_VERSION,
};

fn database() -> sled::Db {
    sled::Config::new().temporary(true).open().unwrap()
}

fn seed_post_v1(db: &sled::Db, n: u64, body: &str) {
    let row = PostV1 { key: PostKey(Key(n)), body: body.to_string(), author: UserKey(Key(1)) };
    db.open_tree("posts").unwrap().insert(PostKey(Key(n)).to_code(), row.encode()).unwrap();
}

fn seed_post_v2(db: &sled::Db, n: u64, parent: Option<u64>, children: &[u64]) {
    let row = PostV2 {
        key: PostKey(Key(n)),
        body: format!("p{}", n),
        author: UserKey(Key(1)),
        parent: parent.map(|p| PostKey(Key(p))),
        children: children.iter().map(|c| PostKey(Key(*c))).collect(),
    };
    db.open_tree("posts").unwrap().insert(PostKey(Key(n)).to_code(), row.encode()).unwrap();
}

fn seed_user_v1(db: &sled::Db, n: u64, name: &str) {
    let row = UserV1 { key: UserKey(Key(n)), username: name.to_string(), password: "h".to_string() };
    db.open_tree("users").unwrap().insert(UserKey(Key(n)).to_code(), row.encode()).unwrap();
    db.open_tree("usernames").unwrap().insert(name.as_bytes(), UserKey(Key(n)).to_code()).unwrap();
}

fn set_version(db: &sled::Db, table: TableType, version: u64) {
    db.open_tree("versions").unwrap().insert(table.to_code(), encode_u64(version)).unwrap();
}

fn version(db: &sled::Db, table: TableType) -> Option<u64> {
    let row = db.open_tree("versions").unwrap().get(table.to_code()).unwrap();
    row.map(|bytes| decode_u64(&bytes).unwrap())
}

fn dump(db: &sled::Db, name: &str) -> Vec<(Vec<u8>, Vec<u8>)> {
    db.open_tree(name).unwrap().iter().map(|row| row.unwrap()).map(|(k, v)| (k.to_vec(), v.to_vec())).collect()
}

#[test]
fn migration_v1_to_v3_for_posts() {
    let db = database();
    for (n, body) in [(1u64, "first"), (2, "second"), (3, "third")] {
        seed_post_v1(&db, n, body);
    }
    set_version(&db, TableType::Posts, 1);
    migrate(db.clone()).ok().unwrap();
    assert_eq!(version(&db, TableType::Posts), Some(3));
    let state = AppState::open(db.clone()).ok().unwrap();
    let threads: Vec<(ThreadKey, Thread)> = state
        .threads
        .iter()
        .ok()
        .unwrap()
        .0
        .into_iter()
        .map(|row| row.ok().unwrap())
        .collect();
    assert_eq!(threads.len(), 1);
    let (thread_key, thread) = (&threads[0].0, &threads[0].1);
    assert_eq!(*thread_key, ThreadKey(Key(1)));
    assert_eq!(thread.key, ThreadKey(Key(1)));
    assert_eq!(thread.post, PostKey(Key(1)));
    assert_eq!(thread.title, "");
    let get = |n: u64| state.posts.get(PostKey(Key(n))).ok().unwrap().unwrap();
    for n in 1..=3 {
        assert_eq!(get(n).thread, ThreadKey(Key(1)));
        assert_eq!(get(n).key, PostKey(Key(n)));
        assert_eq!(get(n).author, UserKey(Key(1)));
    }
    assert_eq!(get(1).body, "first");
    assert_eq!(get(2).body, "second");
    assert_eq!(get(3).body, "third");
    assert_eq!(get(1).parent, None);
    assert_eq!(get(2).parent, Some(PostKey(Key(1))));
    assert_eq!(get(3).parent, Some(PostKey(Key(2))));
    assert_eq!(get(1).children, vec![PostKey(Key(2))]);
    assert_eq!(get(2).children, vec![PostKey(Key(3))]);
    assert!(get(3).children.is_empty());
}

#[test]
fn migration_of_users_adds_no_avatar() {
    let db = database();
    seed_user_v1(&db, 1, "alice");
    seed_user_v1(&db, 2, "bob");
    set_version(&db, TableType::Users, 1);
    migrate(db.clone()).ok().unwrap();
    assert_eq!(version(&db, TableType::Users), Some(2));
    let users = AppState::open(db.clone()).ok().unwrap().users;
    let alice = users.get_by_username(&"alice".to_string()).ok().unwrap().unwrap();
    assert_eq!(alice.key, UserKey(Key(1)));
    assert_eq!(alice.password, "h");
    assert_eq!(alice.avatar, None);
    assert_eq!(users.get(UserKey(Key(2))).ok().unwrap().unwrap().username, "bob");
}

#[test]
fn migrating_twice_changes_nothing_more() {
    let db = database();
    for n in [5u64, 7, 9] {
        seed_post_v1(&db, n, "x");
    }
    seed_user_v1(&db, 1, "alice");
    set_version(&db, TableType::Posts, 1);
    set_version(&db, TableType::Users, 1);
    migrate(db.clone()).ok().unwrap();
    let names = ["versions", "posts", "threads", "users", "usernames", "highest_keys"];
    let first: Vec<_> = names.iter().map(|name| dump(&db, name)).collect();
    migrate(db.clone()).ok().unwrap();
    let second: Vec<_> = names.iter().map(|name| dump(&db, name)).collect();
    assert_eq!(first, second);
    assert_eq!(version(&db, TableType::Posts), Some(POSTS_VERSION));
    assert_eq!(version(&db, TableType::Users), Some(USERS_VERSION));
    assert_eq!(version(&db, TableType::Threads), Some(1));
    assert_eq!(version(&db, TableType::HighestKeys), Some(1));
}

#[test]
fn opened_tables_are_migrated_together() {
    let db = database();
    seed_post_v1(&db, 4, "only");
    seed_user_v1(&db, 1, "alice");
    set_version(&db, TableType::Posts, 1);
    set_version(&db, TableType::Users, 1);
    let AppState { mut versions, mut users, mut posts, mut threads, highest_keys: mut keys, .. } =
        AppState::open(db.clone()).ok().unwrap();
    migrate_tables(&mut versions, &mut users, &mut posts, &mut threads, &mut keys).ok().unwrap();
    assert_eq!(versions.get(TableType::Users).ok().unwrap(), Some(2));
    assert_eq!(versions.get(TableType::Posts).ok().unwrap(), Some(3));
    assert_eq!(versions.get(TableType::Threads).ok().unwrap(), Some(1));
    assert_eq!(versions.get(TableType::HighestKeys).ok().unwrap(), Some(1));
    assert_eq!(users.get(UserKey(Key(1))).ok().unwrap().unwrap().avatar, None);
    let post = posts.get(PostKey(Key(4))).ok().unwrap().unwrap();
    assert_eq!((post.parent, post.children.len(), post.thread), (None, 0, ThreadKey(Key(1))));
    assert_eq!(threads.get(ThreadKey(Key(1))).ok().unwrap().unwrap().post, PostKey(Key(4)));
    let before: Vec<_> = ["versions", "posts", "threads", "users", "usernames", "highest_keys"]
        .iter()
        .map(|name| dump(&db, name))
        .collect();
    migrate_tables(&mut versions, &mut users, &mut posts, &mut threads, &mut keys).ok().unwrap();
    let after: Vec<_> = ["versions", "posts", "threads", "users", "usernames", "highest_keys"]
        .iter()
        .map(|name| dump(&db, name))
        .collect();
    assert_eq!(before, after);
    versions.insert(TableType::HighestKeys, 0).ok().unwrap();
    assert!(matches!(
        migrate_tables(&mut versions, &mut users, &mut posts, &mut threads, &mut keys),
        Err(ForumError::NoMigration(TableType::HighestKeys, 0))
    ));
}

#[test]
fn fresh_database_only_gets_its_versions() {
    let db = database();
    migrate(db.clone()).ok().unwrap();
    assert_eq!(version(&db, TableType::Posts), Some(3));
    assert_eq!(version(&db, TableType::Users), Some(2));
    assert_eq!(version(&db, TableType::Threads), Some(1));
    assert_eq!(version(&db, TableType::HighestKeys), Some(1));
    assert!(dump(&db, "posts").is_empty());
    assert!(dump(&db, "threads").is_empty());
    assert!(dump(&db, "highest_keys").is_empty());
}

#[test]
fn versions_are_never_lowered() {
    let db = database();
    set_version(&db, TableType::Posts, 9);
    set_version(&db, TableType::Threads, 4);
    migrate(db.clone()).ok().unwrap();
    assert_eq!(version(&db, TableType::Posts), Some(9));
    assert_eq!(version(&db, TableType::Threads), Some(4));
}

#[test]
fn version_without_a_migration_is_reported() {
    let db = database();
    set_version(&db, TableType::Posts, 0);
    let AppState { mut versions, mut users, mut posts, mut threads, highest_keys: mut keys, .. } =
        AppState::open(db.clone()).ok().unwrap();
    assert!(matches!(
        migrate_posts(&mut versions, &mut posts, &mut threads, &mut keys),
        Err(ForumError::NoMigration(TableType::Posts, 0))
    ));
    versions.insert(TableType::Users, 0).ok().unwrap();
    assert!(matches!(
        migrate_users(&mut versions, &mut users),
        Err(ForumError::NoMigration(TableType::Users, 0))
    ));
    versions.insert(TableType::Threads, 0).ok().unwrap();
    assert!(matches!(
        migrate_plain(&mut versions, TableType::Threads),
        Err(ForumError::NoMigration(TableType::Threads, 0))
    ));
}

#[test]
fn rows_of_another_version_stop_the_migration() {
    let db = database();
    seed_post_v2(&db, 1, None, &[]);
    let AppState { mut users, mut posts, mut threads, highest_keys: mut keys, .. } =
        AppState::open(db.clone()).ok().unwrap();
    let before = dump(&db, "posts");
    assert!(matches!(posts_v1_to_v2(&mut posts, &mut threads, &mut keys), Err(ForumError::Codec)));
    assert_eq!(dump(&db, "posts"), before);
    assert!(dump(&db, "threads").is_empty());
    db.open_tree("users").unwrap().insert(vec![1, 2], vec![3]).unwrap();
    assert!(matches!(users_v1_to_v2(&mut users), Err(ForumError::TryFromSlice)));
}

#[test]
fn threading_follows_parents_to_the_root() {
    let db = database();
    seed_post_v2(&db, 1, None, &[2]);
    seed_post_v2(&db, 2, Some(1), &[3]);
    seed_post_v2(&db, 3, Some(2), &[]);
    seed_post_v2(&db, 4, None, &[5]);
    seed_post_v2(&db, 5, Some(4), &[]);
    let AppState { mut posts, mut threads, .. } = AppState::open(db.clone()).ok().unwrap();
    for (t, root) in [(10u64, 4u64), (20, 1), (30, 1)] {
        let thread = Thread { key: ThreadKey(Key(t)), title: String::new(), post: PostKey(Key(root)) };
        threads.insert(ThreadKey(Key(t)), thread).ok().unwrap();
    }
    posts_v2_to_v3(&mut posts, &threads).ok().unwrap();
    let thread_of = |n: u64| posts.get(PostKey(Key(n))).ok().unwrap().unwrap().thread.0 .0;
    assert_eq!([thread_of(1), thread_of(2), thread_of(3)], [20, 20, 20]);
    assert_eq!([thread_of(4), thread_of(5)], [10, 10]);
    assert_eq!(posts.get(PostKey(Key(2))).ok().unwrap().unwrap().children, vec![PostKey(Key(3))]);
}

#[test]
fn threading_reports_what_it_cannot_resolve() {
    let db = database();
    seed_post_v2(&db, 1, Some(9), &[]);
    let AppState { mut posts, threads, .. } = AppState::open(db.clone()).ok().unwrap();
    assert!(matches!(
        posts_v2_to_v3(&mut posts, &threads),
        Err(ForumError::PostNotFound(PostKey(Key(9))))
    ));
    seed_post_v2(&db, 1, Some(2), &[]);
    seed_post_v2(&db, 2, Some(1), &[]);
    assert!(matches!(
        posts_v2_to_v3(&mut posts, &threads),
        Err(ForumError::NoRoot(PostKey(Key(1))))
    ));
    seed_post_v2(&db, 1, None, &[]);
    seed_post_v2(&db, 2, Some(1), &[]);
    assert!(matches!(
        posts_v2_to_v3(&mut posts, &threads),
        Err(ForumError::NoThread(PostKey(Key(1))))
    ));
}
