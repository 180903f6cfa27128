use std::time::Duration;

use dragon_fox::auth::{Backend, Credentials, Permission};
use dragon_fox::error::ForumError;
use dragon_fox::state::key::{HighestKeys, Key};
use dragon_fox::state::kv::Change;
use dragon_fox::state::post::{Post, PostKey, PostSubmission, Posts};
use dragon_fox::state::sanitizer::Sanitizer;
use dragon_fox::state::thread::{Thread, ThreadKey, ThreadSubmission, Threads};
use dragon_fox::state::user::{User, UserKey, Users};
use dragon_fox::state::{AppState, DbTreeLookup, Record, TableKey, TableType, Versions};
use dragon_fox::templates::forum::ForumTemplate;
use dragon_fox::templates::login::{LoginPost, RegisterPost};
use dragon_fox::templates::partial::post::PostSse;
use dragon_fox::templates::partial::thread::ThreadSse;
use dragon_fox::templates::thread::{
    count_in_thread, latest_in_thread, thread_order, PostPost, ThreadGet, ThreadPost,
};
use dragon_fox::templates::ThreadIndexTemplate;
use dragon_fox::templates::user::UserTemplate;

struct Forum {
    db: sled::Db,
    posts: Posts,
    threads: Threads,
    users: Users,
    keys: HighestKeys,
    sanitizer: Sanitizer,
    versions: Versions,
}

fn forum() -> Forum {
    let db = sled::Config::new().temporary(true).open().unwrap();
    let state = AppState::open(db.clone()).ok().unwrap();
    Forum {
        posts: state.posts,
        threads: state.threads,
        users: state.users,
        keys: state.highest_keys,
        sanitizer: state.sanitizer,
        versions: state.versions,
        db,
    }
}

fn creds(username: &str, password: &str) -> Credentials {
    Credentials { username: username.to_string(), password: password.to_string(), next: None }
}

fn register(f: &mut Forum, username: &str, password: &str) -> User {
    match RegisterPost::attempt(&mut f.users, &mut f.keys, creds(username, password)).ok().unwrap() {
        RegisterPost::Success { user, .. } => user,
        RegisterPost::Failure { error, .. } => panic!("{}", error),
    }
}

fn open_thread(f: &mut Forum, author: UserKey, title: &str, body: &str) -> ThreadKey {
    let submission = ThreadSubmission { title: title.to_string(), body: body.to_string() };
    ThreadPost::create(&mut f.threads, &mut f.posts, &mut f.keys, &f.sanitizer, Some(author), submission)
        .ok()
        .unwrap()
        .0
}

fn reply(f: &mut Forum, author: UserKey, thread: ThreadKey, body: &str) -> PostPost {
    let submission = PostSubmission { body: body.to_string() };
    PostPost::create(&mut f.posts, &mut f.keys, &f.sanitizer, Some(author), thread, submission)
        .ok()
        .unwrap()
}

fn post(f: &Forum, n: u64) -> Post {
    f.posts.get(PostKey(Key(n))).ok().unwrap().unwrap()
}

fn changes(sub: &mut sled::Subscriber) -> Vec<Change> {
    let mut out = Vec::new();
    while let Ok(event) = sub.next_timeout(Duration::from_millis(200)) {
        out.push(match event {
            sled::Event::Insert { key, value } => {
                Change::Insert { key: key.to_vec(), value: value.to_vec() }
            }
            sled::Event::Remove { key } => Change::Remove { key: key.to_vec() },
        });
    }
    out
}

#[test]
fn register_then_login() {
    let mut f = forum();
    let alice = register(&mut f, "alice", "hunter2");
    assert_eq!(alice.key, UserKey(Key(1)));
    let found = f.users.get_by_username(&"alice".to_string()).ok().unwrap().unwrap();
    assert_eq!(found.key, UserKey(Key(1)));
    assert_eq!(found.username, "alice");
    assert_eq!(found.avatar, None);
    let backend = Backend::new(f.users);
    let user = backend.authenticate(creds("alice", "hunter2")).ok().unwrap().unwrap();
    assert_eq!(user.key, UserKey(Key(1)));
    assert_eq!(user.username, "alice");
    assert!(backend.authenticate(creds("alice", "wrong")).ok().unwrap().is_none());
    assert!(backend.authenticate(creds("bob", "hunter2")).ok().unwrap().is_none());
}

#[test]
fn thread_create() {
    let mut f = forum();
    let alice = register(&mut f, "alice", "hunter2");
    let thread = open_thread(&mut f, alice.key, "hi", "<b>hello</b>");
    assert_eq!(thread, ThreadKey(Key(1)));
    let root = post(&f, 1);
    assert_eq!(root.key, PostKey(Key(1)));
    assert_eq!(root.thread, ThreadKey(Key(1)));
    assert_eq!(root.parent, None);
    assert!(root.children.is_empty());
    assert_eq!(root.author, alice.key);
    assert_eq!(root.body, "<b>hello</b>");
    let stored = f.threads.get(thread).ok().unwrap().unwrap();
    assert_eq!(stored.key, ThreadKey(Key(1)));
    assert_eq!(stored.post, PostKey(Key(1)));
    assert_eq!(stored.title, "hi");
}

#[test]
fn reply_tree() {
    let mut f = forum();
    let alice = register(&mut f, "alice", "hunter2");
    let thread = open_thread(&mut f, alice.key, "hi", "<b>hello</b>");
    let first = reply(&mut f, alice.key, thread, "r1");
    let second = reply(&mut f, alice.key, thread, "r2");
    assert_eq!((first.0, first.1), (PostKey(Key(2)), ThreadKey(Key(1))));
    assert_eq!((second.0, second.1), (PostKey(Key(3)), ThreadKey(Key(1))));
    assert_eq!(post(&f, 2).parent, Some(PostKey(Key(1))));
    assert_eq!(post(&f, 3).parent, Some(PostKey(Key(2))));
    assert!(post(&f, 1).children.contains(&PostKey(Key(2))));
    assert!(post(&f, 2).children.contains(&PostKey(Key(3))));
    assert!(post(&f, 3).children.is_empty());
    for n in 1..=3 {
        assert_eq!(post(&f, n).thread, ThreadKey(Key(1)));
    }
    assert_eq!(post(&f, 2).body, "r1");
    assert_eq!(post(&f, 3).body, "r2");
}

#[test]
fn live_threads_feed() {
    let mut f = forum();
    let alice = register(&mut f, "alice", "hunter2");
    let mut sub = f.threads.watch();
    open_thread(&mut f, alice.key, "hi", "<b>hello</b>");
    let feed = ThreadSse::new();
    let mut cards = Vec::new();
    for change in changes(&mut sub) {
        if let Some(card) = feed.project(&f.posts, &f.users, &change).ok().unwrap() {
            cards.push(card);
        }
    }
    assert_eq!(cards.len(), 1);
    assert_eq!(cards[0].key, ThreadKey(Key(1)));
    assert_eq!(cards[0].title, "hi");
    assert_eq!(cards[0].body, "<b>hello</b>");
    assert_eq!(cards[0].author.username, "alice");
    assert!(cards[0].sse);
}

#[test]
fn live_posts_feed_filters_by_thread() {
    let mut f = forum();
    let alice = register(&mut f, "alice", "hunter2");
    let thread = open_thread(&mut f, alice.key, "hi", "<b>hello</b>");
    let mut sub = f.posts.watch();
    reply(&mut f, alice.key, thread, "r1");
    reply(&mut f, alice.key, thread, "r2");
    let seen = changes(&mut sub);
    let one = PostSse::new(ThreadKey(Key(1)));
    let two = PostSse::new(ThreadKey(Key(2)));
    let mut of_one = Vec::new();
    let mut of_two = Vec::new();
    for change in &seen {
        if let Some(card) = one.project(&f.users, change).ok().unwrap() {
            of_one.push(card);
        }
        if let Some(card) = two.project(&f.users, change).ok().unwrap() {
            of_two.push(card);
        }
    }
    assert!(of_two.is_empty());
    // Every written row of the thread is a frame: each reply, and each parent
    // as it is stored again with the reply among its children.
    let keys: Vec<u64> = of_one.iter().map(|card| card.key.0 .0).collect();
    assert_eq!(keys, vec![2, 1, 3, 2]);
    let mut replies: Vec<&str> = Vec::new();
    for card in &of_one {
        if card.key.0 .0 != 1 && !replies.contains(&card.body.as_str()) {
            replies.push(card.body.as_str());
        }
    }
    assert_eq!(replies, vec!["r1", "r2"]);
    assert!(of_one.iter().all(|card| card.sse && card.author.username == "alice"));
}

#[test]
fn feed_skips_removals_and_reports_bad_rows() {
    let mut f = forum();
    let alice = register(&mut f, "alice", "hunter2");
    let feed = PostSse::new(ThreadKey(Key(1)));
    let removal = Change::Remove { key: vec![0; 8] };
    assert!(feed.project(&f.users, &removal).ok().unwrap().is_none());
    assert!(ThreadSse::new().project(&f.posts, &f.users, &removal).ok().unwrap().is_none());
    let bad = Change::Insert { key: vec![0; 8], value: vec![1, 2, 3] };
    assert!(matches!(feed.project(&f.users, &bad), Err(ForumError::Codec)));
    assert!(matches!(ThreadSse::new().project(&f.posts, &f.users, &bad), Err(ForumError::Codec)));
    let orphan = Post {
        key: PostKey(Key(5)),
        body: "x".to_string(),
        author: UserKey(Key(42)),
        parent: None,
        children: vec![],
        thread: ThreadKey(Key(1)),
    };
    let change = Change::Insert { key: orphan.key.to_code(), value: orphan.encode() };
    assert!(matches!(
        feed.project(&f.users, &change),
        Err(ForumError::UserNotFound(UserKey(Key(42))))
    ));
    let thread = Thread { key: ThreadKey(Key(1)), title: "t".to_string(), post: PostKey(Key(9)) };
    let change = Change::Insert { key: thread.key.to_code(), value: thread.encode() };
    assert!(matches!(
        ThreadSse::new().project(&f.posts, &f.users, &change),
        Err(ForumError::PostNotFound(PostKey(Key(9))))
    ));
    let _ = alice;
}

#[test]
fn identifiers_are_handed_out_one_after_the_other() {
    let mut f = forum();
    for want in 1..=5u64 {
        assert_eq!(f.keys.next(TableType::Posts).ok().unwrap(), Key(want));
    }
    assert_eq!(f.keys.next(TableType::Threads).ok().unwrap(), Key(1));
    assert_eq!(f.keys.next(TableType::Posts).ok().unwrap(), Key(6));
    assert_eq!(f.posts.next_key(&mut f.keys).ok().unwrap(), PostKey(Key(7)));
    assert_eq!(f.threads.next_key(&mut f.keys).ok().unwrap(), ThreadKey(Key(2)));
    assert_eq!(f.users.next_key(&mut f.keys).ok().unwrap(), UserKey(Key(1)));
}

#[test]
fn counter_that_cannot_be_read_or_is_at_its_end_is_reported() {
    let mut f = forum();
    let tree = f.db.open_tree("highest_keys").unwrap();
    tree.insert(TableType::Posts.to_code(), vec![1, 2, 3]).unwrap();
    tree.insert(TableType::Users.to_code(), vec![255; 8]).unwrap();
    let keys = &mut f.keys;
    assert!(matches!(keys.next(TableType::Posts), Err(ForumError::Codec)));
    assert!(matches!(
        keys.next(TableType::Users),
        Err(ForumError::KeysExhausted(TableType::Users))
    ));
    assert_eq!(tree.get(TableType::Posts.to_code()).unwrap().unwrap().to_vec(), vec![1, 2, 3]);
    assert_eq!(tree.get(TableType::Users.to_code()).unwrap().unwrap().to_vec(), vec![255; 8]);
}

#[test]
fn table_lists_rows_in_key_order() {
    let mut f = forum();
    for n in [300u64, 2, 256, 1, 255] {
        let p = Post {
            key: PostKey(Key(n)),
            body: format!("post {}", n),
            author: UserKey(Key(1)),
            parent: None,
            children: vec![],
            thread: ThreadKey(Key(n % 2)),
        };
        f.posts.insert(PostKey(Key(n)), p).ok().unwrap();
    }
    f.posts.flush().ok().unwrap();
    let listing = f.posts.iter().ok().unwrap().0;
    let keys: Vec<u64> = listing.iter().map(|row| row.as_ref().ok().unwrap().0 .0 .0).collect();
    assert_eq!(keys, vec![1, 2, 255, 256, 300]);
    let bodies: Vec<&str> =
        listing.iter().map(|row| row.as_ref().ok().unwrap().1.body.as_str()).collect();
    assert_eq!(bodies, vec!["post 1", "post 2", "post 255", "post 256", "post 300"]);
    assert_eq!(
        latest_in_thread(&f.posts, ThreadKey(Key(0))).ok().unwrap(),
        Some((PostKey(Key(300)), PostKey(Key(300))))
    );
    assert_eq!(
        latest_in_thread(&f.posts, ThreadKey(Key(1))).ok().unwrap(),
        Some((PostKey(Key(255)), PostKey(Key(255))))
    );
    assert_eq!(latest_in_thread(&f.posts, ThreadKey(Key(2))).ok().unwrap(), None);
}

#[test]
fn listing_gives_its_keys_and_its_values() {
    let mut f = forum();
    let alice = register(&mut f, "alice", "hunter2");
    let thread = open_thread(&mut f, alice.key, "hi", "root");
    reply(&mut f, alice.key, thread, "r1");
    f.db.open_tree("posts").unwrap().insert(vec![0, 0, 0, 0, 0, 0, 0, 9], vec![1]).unwrap();
    let keys = f.posts.iter().ok().unwrap().keys();
    assert_eq!(keys.len(), 3);
    assert_eq!(keys[0].as_ref().ok(), Some(&PostKey(Key(1))));
    assert_eq!(keys[1].as_ref().ok(), Some(&PostKey(Key(2))));
    assert!(matches!(keys[2], Err(ForumError::Codec)));
    let values = f.posts.iter().ok().unwrap().values();
    assert_eq!(values.len(), 3);
    assert_eq!(values[0].as_ref().ok().unwrap().body, "root");
    assert_eq!(values[1].as_ref().ok().unwrap().body, "r1");
    assert!(matches!(values[2], Err(ForumError::Codec)));
}

fn store_and_read_back<K: TableKey, T: Record, L: DbTreeLookup<K, T>>(
    table: &mut L,
    key: K,
    value: T,
) -> Option<T> {
    DbTreeLookup::insert(table, key, value).ok().unwrap();
    DbTreeLookup::flush(table).ok().unwrap();
    DbTreeLookup::get(table, key).ok().unwrap()
}

#[test]
fn every_table_offers_the_same_operations() {
    let mut f = forum();
    let thread = Thread { key: ThreadKey(Key(4)), title: "t".to_string(), post: PostKey(Key(1)) };
    let back = store_and_read_back(&mut f.threads, ThreadKey(Key(4)), thread).unwrap();
    assert_eq!((back.key, back.title.as_str(), back.post), (ThreadKey(Key(4)), "t", PostKey(Key(1))));
    let user = User {
        key: UserKey(Key(2)),
        username: "bob".to_string(),
        password: "h".to_string(),
        avatar: None,
    };
    let back = store_and_read_back(&mut f.users, UserKey(Key(2)), user).unwrap();
    assert_eq!(back.username, "bob");
    assert_eq!(f.users.get_by_username(&"bob".to_string()).ok().unwrap().unwrap().key, UserKey(Key(2)));
    assert_eq!(store_and_read_back(&mut f.versions, TableType::Users, 7), Some(7));
    assert_eq!(DbTreeLookup::iter(&f.users).ok().unwrap().keys().len(), 1);
}

#[test]
fn table_reports_rows_that_do_not_decode() {
    let f = forum();
    let tree = f.db.open_tree("posts").unwrap();
    tree.insert(vec![0, 0, 0, 0, 0, 0, 0, 1], vec![9, 9]).unwrap();
    tree.insert(vec![7], vec![9, 9]).unwrap();
    assert!(matches!(f.posts.get(PostKey(Key(1))), Err(ForumError::Codec)));
    assert!(f.posts.get(PostKey(Key(2))).ok().unwrap().is_none());
    let listing = f.posts.iter().ok().unwrap().0;
    assert_eq!(listing.len(), 2);
    assert!(matches!(listing[0], Err(ForumError::Codec)));
    assert!(matches!(listing[1], Err(ForumError::TryFromSlice)));
}

#[test]
fn reply_to_an_empty_thread_is_refused() {
    let mut f = forum();
    let alice = register(&mut f, "alice", "hunter2");
    let submission = PostSubmission { body: "r".to_string() };
    let r = PostPost::create(
        &mut f.posts,
        &mut f.keys,
        &f.sanitizer,
        Some(alice.key),
        ThreadKey(Key(9)),
        submission,
    );
    assert!(matches!(r, Err(ForumError::ThreadHasNoPosts(ThreadKey(Key(9))))));
    assert_eq!(f.posts.iter().ok().unwrap().0.len(), 0);
    assert_eq!(f.posts.next_key(&mut f.keys).ok().unwrap(), PostKey(Key(1)));
}

#[test]
fn reply_whose_parent_row_is_missing_is_refused() {
    let mut f = forum();
    let stray = Post {
        key: PostKey(Key(8)),
        body: "x".to_string(),
        author: UserKey(Key(1)),
        parent: None,
        children: vec![],
        thread: ThreadKey(Key(1)),
    };
    f.posts.insert(PostKey(Key(3)), stray).ok().unwrap();
    let r = PostPost::create(
        &mut f.posts,
        &mut f.keys,
        &f.sanitizer,
        Some(UserKey(Key(1))),
        ThreadKey(Key(1)),
        PostSubmission { body: "r".to_string() },
    );
    assert!(matches!(r, Err(ForumError::PostNotFound(PostKey(Key(8))))));
}

#[test]
fn protocols_need_an_actor() {
    let mut f = forum();
    let r = ThreadPost::create(
        &mut f.threads,
        &mut f.posts,
        &mut f.keys,
        &f.sanitizer,
        None,
        ThreadSubmission { title: "t".to_string(), body: "b".to_string() },
    );
    assert!(matches!(r, Err(ForumError::NotLoggedIn)));
    assert_eq!(f.posts.iter().ok().unwrap().0.len(), 0);
    assert_eq!(f.threads.iter().ok().unwrap().0.len(), 0);
    assert!(f.db.open_tree("highest_keys").unwrap().is_empty());
    let alice = register(&mut f, "alice", "hunter2");
    let thread = open_thread(&mut f, alice.key, "hi", "hello");
    assert_eq!(thread, ThreadKey(Key(1)));
    assert_eq!(post(&f, 1).thread, thread);
    let counters = f.db.open_tree("highest_keys").unwrap();
    let before: Vec<_> = counters.iter().map(|row| row.unwrap()).collect();
    let r = PostPost::create(
        &mut f.posts,
        &mut f.keys,
        &f.sanitizer,
        None,
        thread,
        PostSubmission { body: "r".to_string() },
    );
    assert!(matches!(r, Err(ForumError::NotLoggedIn)));
    assert_eq!(f.posts.iter().ok().unwrap().0.len(), 1);
    let after: Vec<_> = counters.iter().map(|row| row.unwrap()).collect();
    assert_eq!(before, after);
    let r = PostPost::create(
        &mut f.posts,
        &mut f.keys,
        &f.sanitizer,
        None,
        ThreadKey(Key(9)),
        PostSubmission { body: "r".to_string() },
    );
    assert!(matches!(r, Err(ForumError::NotLoggedIn)));
    assert_eq!(reply(&mut f, alice.key, thread, "r").0, PostKey(Key(2)));
}

#[test]
fn bodies_and_titles_are_sanitized() {
    let mut f = forum();
    let alice = register(&mut f, "alice", "hunter2");
    let thread = open_thread(
        &mut f,
        alice.key,
        "t<script>alert(1)</script>",
        "<span style=\"color:red\" onclick=\"x()\">b</span>",
    );
    assert_eq!(f.threads.get(thread).ok().unwrap().unwrap().title, "t");
    assert_eq!(post(&f, 1).body, "<span style=\"color:red\">b</span>");
    reply(&mut f, alice.key, thread, "<img src=x onerror=alert(1)>r");
    assert_eq!(post(&f, 2).body, "<img src=\"x\">r");
    let s = Sanitizer::new();
    assert_eq!(s.clean("XSS<script>attack</script>"), "XSS");
    assert_eq!(s.clean("<b>hello</b>"), "<b>hello</b>");
    assert_eq!(s.clean(&s.clean("<i>a<b>c")), s.clean("<i>a<b>c"));
}

#[test]
fn sanitizer_allows_lang_title_and_style_on_every_tag() {
    let s = Sanitizer::new();
    assert_eq!(
        s.clean("<span lang=\"en\" title=\"t\" style=\"color:red\">x</span>"),
        "<span lang=\"en\" title=\"t\" style=\"color:red\">x</span>"
    );
    assert_eq!(s.clean("<span id=\"a\" onclick=\"x()\" data-x=\"1\">x</span>"), "<span>x</span>");
    assert_eq!(s.clean("<p style=\"margin:0\">y</p>"), "<p style=\"margin:0\">y</p>");
}

#[test]
fn tables_live_in_their_named_keyspaces() {
    let mut f = forum();
    let alice = register(&mut f, "alice", "hunter2");
    open_thread(&mut f, alice.key, "hi", "hello");
    f.versions.start().ok().unwrap();
    let rows = |name: &str| f.db.open_tree(name).unwrap().len();
    assert_eq!(rows("posts"), 1);
    assert_eq!(rows("threads"), 1);
    assert_eq!(rows("users"), 1);
    assert_eq!(rows("usernames"), 1);
    assert_eq!(rows("highest_keys"), 3);
    assert_eq!(rows("versions"), 4);
    let stored = f.db.open_tree("usernames").unwrap().get("alice").unwrap().unwrap();
    assert_eq!(stored.to_vec(), alice.key.to_code());
    let raw = f.db.open_tree("threads").unwrap().get(ThreadKey(Key(1)).to_code()).unwrap();
    assert_eq!(Thread::decode(&raw.unwrap()).unwrap().title, "hi");
}

#[test]
fn tree_invariants_hold_after_mutations() {
    let mut f = forum();
    let alice = register(&mut f, "alice", "hunter2");
    let bob = register(&mut f, "bob", "pw");
    let a = open_thread(&mut f, alice.key, "a", "root a");
    let b = open_thread(&mut f, bob.key, "b", "root b");
    reply(&mut f, bob.key, a, "a1");
    reply(&mut f, alice.key, b, "b1");
    reply(&mut f, alice.key, a, "a2");
    let posts: Vec<(PostKey, Post)> =
        f.posts.iter().ok().unwrap().0.into_iter().map(|row| row.ok().unwrap()).collect();
    assert_eq!(posts.len(), 5);
    for (key, p) in &posts {
        assert_eq!(p.key, *key);
        if let Some(q) = p.parent {
            let parent = f.posts.get(q).ok().unwrap().unwrap();
            assert_eq!(parent.thread, p.thread);
            assert!(parent.children.contains(&p.key));
        }
    }
    for row in f.threads.iter().ok().unwrap().0 {
        let (key, t) = row.ok().unwrap();
        assert_eq!(t.key, key);
        let root = f.posts.get(t.post).ok().unwrap().unwrap();
        assert_eq!(root.parent, None);
        assert_eq!(root.thread, t.key);
    }
    assert_eq!(post(&f, 3).parent, Some(PostKey(Key(1))));
    assert_eq!(post(&f, 4).parent, Some(PostKey(Key(2))));
    assert_eq!(post(&f, 5).parent, Some(PostKey(Key(3))));
}

#[test]
fn every_user_is_found_by_name() {
    let mut f = forum();
    for name in ["alice", "bob", "carol"] {
        register(&mut f, name, "pw");
    }
    for n in 1..=3u64 {
        let user = f.users.get(UserKey(Key(n))).ok().unwrap().unwrap();
        let found = f.users.get_by_username(&user.username).ok().unwrap().unwrap();
        assert_eq!(found.key, user.key);
        assert_eq!(found.username, user.username);
        assert_eq!(found.password, user.password);
        assert_eq!(found.avatar, user.avatar);
    }
    assert!(f.users.get_by_username(&"dave".to_string()).ok().unwrap().is_none());
}

#[test]
fn name_without_a_user_row_counts_as_not_found() {
    let f = forum();
    let names = f.db.open_tree("usernames").unwrap();
    names.insert("ghost".as_bytes(), vec![0, 0, 0, 0, 0, 0, 0, 9]).unwrap();
    assert!(f.users.get_by_username(&"ghost".to_string()).ok().unwrap().is_none());
    let rows = f.db.open_tree("users").unwrap();
    rows.insert(vec![0, 0, 0, 0, 0, 0, 0, 9], vec![1]).unwrap();
    assert!(matches!(f.users.get_by_username(&"ghost".to_string()), Err(ForumError::Codec)));
}

#[test]
fn taken_name_leaves_everything_as_it_was() {
    let mut f = forum();
    register(&mut f, "alice", "hunter2");
    let names = ["users", "usernames", "highest_keys"];
    let dump = |db: &sled::Db| -> Vec<Vec<(Vec<u8>, Vec<u8>)>> {
        names
            .iter()
            .map(|name| {
                db.open_tree(name)
                    .unwrap()
                    .iter()
                    .map(|row| row.unwrap())
                    .map(|(k, v)| (k.to_vec(), v.to_vec()))
                    .collect()
            })
            .collect()
    };
    let before = dump(&f.db);
    let outcome = RegisterPost::attempt(&mut f.users, &mut f.keys, creds("alice", "x"));
    assert!(matches!(outcome, Ok(RegisterPost::Failure { .. })));
    assert_eq!(dump(&f.db), before);
}

#[test]
fn name_that_leads_to_a_bad_row_stops_registration_and_login() {
    let mut f = forum();
    f.db.open_tree("usernames").unwrap().insert("ghost", vec![0, 0, 0, 0, 0, 0, 0, 9]).unwrap();
    f.db.open_tree("users").unwrap().insert(vec![0, 0, 0, 0, 0, 0, 0, 9], vec![1]).unwrap();
    let outcome = RegisterPost::attempt(&mut f.users, &mut f.keys, creds("ghost", "x"));
    assert!(matches!(outcome, Err(ForumError::Codec)));
    assert!(f.db.open_tree("highest_keys").unwrap().is_empty());
    let backend = Backend::new(f.users);
    assert!(matches!(LoginPost::attempt(&backend, creds("ghost", "x")), Err(ForumError::Codec)));
}

#[test]
fn taken_name_is_refused() {
    let mut f = forum();
    register(&mut f, "alice", "hunter2");
    match RegisterPost::attempt(&mut f.users, &mut f.keys, creds("alice", "other")).ok().unwrap() {
        RegisterPost::Failure { error, next } => {
            assert_eq!(error, "Username already taken");
            assert_eq!(next, None);
        }
        RegisterPost::Success { .. } => panic!("registered twice"),
    }
    assert_eq!(f.users.next_key(&mut f.keys).ok().unwrap(), UserKey(Key(2)));
    assert_eq!(f.users.get(UserKey(Key(1))).ok().unwrap().unwrap().username, "alice");
}

#[test]
fn login_attempts() {
    let mut f = forum();
    register(&mut f, "alice", "hunter2");
    let backend = Backend::new(f.users);
    let mut good = creds("alice", "hunter2");
    good.next = Some("/thread/1".to_string());
    match LoginPost::attempt(&backend, good).ok().unwrap() {
        LoginPost::Success { user, next } => {
            assert_eq!(user.username, "alice");
            assert_eq!(next, Some("/thread/1".to_string()));
        }
        LoginPost::Failure { .. } => panic!("refused"),
    }
    match LoginPost::attempt(&backend, creds("alice", "nope")).ok().unwrap() {
        LoginPost::Failure { error, next } => {
            assert_eq!(error, "Username or password incorrect");
            assert_eq!(next, None);
        }
        LoginPost::Success { .. } => panic!("admitted"),
    }
}

#[test]
fn password_is_checked_against_a_known_hash() {
    let f = forum();
    let mut users = f.users;
    let hash = "$argon2i$v=19$m=65536,t=1,p=1$c29tZXNhbHQAAAAAAAAAAA$+r0d29hqEB0yasKr55ZgICsQGSkl0v0kgwhd+U3wyRo";
    let user = User {
        key: UserKey(Key(1)),
        username: "alice".to_string(),
        password: hash.to_string(),
        avatar: None,
    };
    users.insert(UserKey(Key(1)), user).ok().unwrap();
    let plain = User {
        key: UserKey(Key(2)),
        username: "bob".to_string(),
        password: "password".to_string(),
        avatar: None,
    };
    users.insert(UserKey(Key(2)), plain).ok().unwrap();
    let backend = Backend::new(users);
    assert!(backend.authenticate(creds("alice", "password")).ok().unwrap().is_some());
    assert!(backend.authenticate(creds("alice", "bogus")).ok().unwrap().is_none());
    assert!(backend.authenticate(creds("bob", "password")).ok().unwrap().is_none());
}

#[test]
fn sessions_are_bound_to_the_password_hash() {
    let mut f = forum();
    let alice = register(&mut f, "alice", "hunter2");
    assert_eq!(alice.session_auth_hash(), alice.password.as_bytes());
    assert!(alice.password.starts_with("$argon2"));
    assert_eq!(alice.id(), UserKey(Key(1)));
    let backend = Backend::new(f.users);
    assert_eq!(backend.get_user(&alice.key).ok().unwrap().unwrap().username, "alice");
    assert!(backend.get_user(&UserKey(Key(5))).ok().unwrap().is_none());
    assert_eq!(backend.get_user_permissions(&alice).ok().unwrap(), vec![Permission::Post]);
    assert!(backend.has_perm(&alice, Permission::Post).ok().unwrap());
}

#[test]
fn thread_is_shown_in_walk_order() {
    let mut f = forum();
    let alice = register(&mut f, "alice", "hunter2");
    let thread = open_thread(&mut f, alice.key, "hi", "root");
    reply(&mut f, alice.key, thread, "r1");
    reply(&mut f, alice.key, thread, "r2");
    let page = ThreadGet::load(&f.threads, &f.posts, &f.users, thread).ok().unwrap();
    assert_eq!(page.key, thread);
    let bodies: Vec<&str> = page.posts.iter().map(|card| card.body.as_str()).collect();
    assert_eq!(bodies, vec!["root", "r1", "r2"]);
    assert!(page.posts.iter().all(|card| !card.sse && card.author.username == "alice"));
    assert!(matches!(
        ThreadGet::load(&f.threads, &f.posts, &f.users, ThreadKey(Key(7))),
        Err(ForumError::ThreadNotFound(ThreadKey(Key(7))))
    ));
}

#[test]
fn walk_takes_the_last_child_first_and_each_post_once() {
    let mut f = forum();
    let shape: [(u64, Vec<u64>); 5] =
        [(1, vec![2, 3]), (2, vec![4]), (3, vec![4, 1]), (4, vec![5]), (5, vec![])];
    for (n, children) in shape {
        let p = Post {
            key: PostKey(Key(n)),
            body: String::new(),
            author: UserKey(Key(1)),
            parent: None,
            children: children.into_iter().map(|c| PostKey(Key(c))).collect(),
            thread: ThreadKey(Key(1)),
        };
        f.posts.insert(PostKey(Key(n)), p).ok().unwrap();
    }
    let order: Vec<u64> = thread_order(&f.posts, PostKey(Key(1)))
        .ok()
        .unwrap()
        .iter()
        .map(|p| p.key.0 .0)
        .collect();
    assert_eq!(order, vec![1, 3, 4, 5, 2]);
    let dangling = Post {
        key: PostKey(Key(6)),
        body: String::new(),
        author: UserKey(Key(1)),
        parent: None,
        children: vec![PostKey(Key(77))],
        thread: ThreadKey(Key(1)),
    };
    f.posts.insert(PostKey(Key(6)), dangling).ok().unwrap();
    assert!(matches!(
        thread_order(&f.posts, PostKey(Key(6))),
        Err(ForumError::PostNotFound(PostKey(Key(77))))
    ));
}

#[test]
fn front_page_lists_every_thread() {
    let mut f = forum();
    let alice = register(&mut f, "alice", "hunter2");
    let bob = register(&mut f, "bob", "pw");
    open_thread(&mut f, alice.key, "first", "body one");
    open_thread(&mut f, bob.key, "second", "body two");
    let page = ForumTemplate::load(&f.threads, &f.posts, &f.users).ok().unwrap();
    let shown: Vec<(u64, &str, &str, &str, bool)> = page
        .threads
        .iter()
        .map(|c| (c.key.0 .0, c.title.as_str(), c.body.as_str(), c.author.username.as_str(), c.sse))
        .collect();
    assert_eq!(
        shown,
        vec![(1, "first", "body one", "alice", false), (2, "second", "body two", "bob", false)]
    );
    let lost = Thread { key: ThreadKey(Key(3)), title: "x".to_string(), post: PostKey(Key(50)) };
    f.threads.insert(ThreadKey(Key(3)), lost).ok().unwrap();
    assert!(matches!(
        ForumTemplate::load(&f.threads, &f.posts, &f.users),
        Err(ForumError::PostNotFound(PostKey(Key(50))))
    ));
}

#[test]
fn thread_index_counts_the_posts_of_each_thread() {
    let mut f = forum();
    let alice = register(&mut f, "alice", "hunter2");
    let first = open_thread(&mut f, alice.key, "first", "one");
    let second = open_thread(&mut f, alice.key, "second", "two");
    reply(&mut f, alice.key, first, "r1");
    reply(&mut f, alice.key, first, "r2");
    f.db.open_tree("posts").unwrap().insert(vec![0, 0, 0, 0, 0, 0, 0, 99], vec![7]).unwrap();
    assert_eq!(count_in_thread(&f.posts, first).ok().unwrap(), 3);
    assert_eq!(count_in_thread(&f.posts, second).ok().unwrap(), 1);
    assert_eq!(count_in_thread(&f.posts, ThreadKey(Key(9))).ok().unwrap(), 0);
    let thread = f.threads.get(first).ok().unwrap().unwrap();
    let entry = ThreadIndexTemplate::of_thread(&f.posts, &f.users, thread, false).ok().unwrap();
    assert_eq!(
        (entry.key, entry.title.as_str(), entry.body.as_str(), entry.num_posts, entry.sse),
        (first, "first", "one", 3, false)
    );
    assert_eq!(entry.author, "alice");
    let lost = Thread { key: ThreadKey(Key(5)), title: "x".to_string(), post: PostKey(Key(50)) };
    assert!(matches!(
        ThreadIndexTemplate::of_thread(&f.posts, &f.users, lost, true),
        Err(ForumError::PostNotFound(PostKey(Key(50))))
    ));
}

#[test]
fn a_table_lists_the_same_when_listed_again() {
    let mut f = forum();
    let alice = register(&mut f, "alice", "hunter2");
    let thread = open_thread(&mut f, alice.key, "hi", "root");
    reply(&mut f, alice.key, thread, "r1");
    f.db.open_tree("posts").unwrap().insert(vec![3], vec![7]).unwrap();
    let shape = |posts: &Posts| -> Vec<Option<(u64, String)>> {
        posts
            .iter()
            .ok()
            .unwrap()
            .0
            .into_iter()
            .map(|row| row.ok().map(|(key, post)| (key.0 .0, post.body)))
            .collect()
    };
    let first = shape(&f.posts);
    assert_eq!(first, shape(&f.posts));
    assert_eq!(first, vec![Some((1, "root".to_string())), Some((2, "r1".to_string())), None]);
}

#[test]
fn user_page() {
    let mut f = forum();
    register(&mut f, "alice", "hunter2");
    assert_eq!(UserTemplate::load(&f.users, UserKey(Key(1))).ok().unwrap().user.username, "alice");
    assert!(matches!(
        UserTemplate::load(&f.users, UserKey(Key(2))),
        Err(ForumError::UserNotFound(UserKey(Key(2))))
    ));
}

#[test]
fn start_gives_every_table_its_first_version() {
    let mut f = forum();
    let versions = &mut f.versions;
    versions.insert(TableType::Posts, 3).ok().unwrap();
    versions.start().ok().unwrap();
    assert_eq!(versions.get(TableType::Posts).ok().unwrap(), Some(3));
    assert_eq!(versions.get(TableType::Users).ok().unwrap(), Some(1));
    assert_eq!(versions.get(TableType::HighestKeys).ok().unwrap(), Some(1));
    assert_eq!(versions.get(TableType::Threads).ok().unwrap(), Some(1));
    versions.insert(TableType::Users, 2).ok().unwrap();
    versions.start().ok().unwrap();
    assert_eq!(versions.get(TableType::Users).ok().unwrap(), Some(2));
    assert_eq!(versions.start_table(TableType::Users).ok().unwrap(), false);
}
