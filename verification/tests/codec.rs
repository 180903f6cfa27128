use bincode::Options;
use dragon_fox::state::codec::{
    decode_u64, encode_u64, put_list, put_opt, put_opt_text, put_text, read_list, read_opt,
    read_opt_text, read_text, read_u64,
};
use dragon_fox::state::key::Key;
use dragon_fox::state::post::{Post, PostKey};
use dragon_fox::state::thread::{Thread, ThreadKey};
use dragon_fox::state::user::{User, UserKey};
use dragon_fox::state::{Record, TableKey, TableType};

fn post_key(n: u64) -> PostKey {
    PostKey(Key(n))
}

fn sample_post() -> Post {
    Post {
        key: post_key(2),
        body: "héllo".to_string(),
        author: UserKey(Key(7)),
        parent: Some(post_key(1)),
        children: vec![post_key(3), post_key(4)],
        thread: ThreadKey(Key(9)),
    }
}

#[test]
fn u64_is_stored_big_endian() {
    assert_eq!(encode_u64(1), vec![0, 0, 0, 0, 0, 0, 0, 1]);
    assert_eq!(encode_u64(0x0102030405060708), vec![1, 2, 3, 4, 5, 6, 7, 8]);
    assert_eq!(encode_u64(u64::MAX), vec![255; 8]);
    assert_eq!(decode_u64(&[1, 2, 3, 4, 5, 6, 7, 8]), Some(0x0102030405060708));
    assert_eq!(decode_u64(&[1, 2, 3]), None);
    assert_eq!(decode_u64(&[0; 9]), None);
}

#[test]
fn u64_round_trips() {
    for x in [0u64, 1, 255, 256, 65535, 1 << 32, u64::MAX - 1, u64::MAX] {
        assert_eq!(decode_u64(&encode_u64(x)), Some(x));
        assert_eq!(read_u64(&encode_u64(x), 0), Some((x, 8)));
    }
}

#[test]
fn byte_order_of_keys_is_numeric_order() {
    let numbers = [0u64, 1, 2, 255, 256, 257, 65536, 1 << 40, u64::MAX];
    for a in numbers {
        for b in numbers {
            assert_eq!(encode_u64(a) < encode_u64(b), a < b);
        }
    }
}

#[test]
fn text_is_length_prefixed_utf8() {
    let mut out = Vec::new();
    put_text(&mut out, "hé");
    assert_eq!(out, vec![0, 0, 0, 0, 0, 0, 0, 3, b'h', 0xc3, 0xa9]);
    assert_eq!(read_text(&out, 0), Some(("hé".to_string(), 11)));
}

#[test]
fn text_with_bad_utf8_or_short_buffer_is_refused() {
    assert_eq!(read_text(&[0, 0, 0, 0, 0, 0, 0, 1, 0xff], 0), None);
    assert_eq!(read_text(&[0, 0, 0, 0, 0, 0, 0, 5, b'a'], 0), None);
    assert_eq!(read_text(&[0, 0, 0], 0), None);
    assert_eq!(read_text(&[255, 255, 255, 255, 255, 255, 255, 255, b'a'], 0), None);
}

#[test]
fn option_uses_a_tag_byte() {
    let mut out = Vec::new();
    put_opt(&mut out, None);
    assert_eq!(out, vec![0]);
    assert_eq!(read_opt(&out, 0), Some((None, 1)));
    let mut out = Vec::new();
    put_opt(&mut out, Some(5));
    assert_eq!(out, vec![1, 0, 0, 0, 0, 0, 0, 0, 5]);
    assert_eq!(read_opt(&out, 0), Some((Some(5), 9)));
    assert_eq!(read_opt(&[2, 0, 0, 0, 0, 0, 0, 0, 5], 0), None);
    assert_eq!(read_opt(&[1, 0, 0], 0), None);
    assert_eq!(read_opt(&[], 0), None);
}

#[test]
fn optional_text_uses_a_tag_byte() {
    let mut out = Vec::new();
    put_opt_text(&mut out, &None);
    assert_eq!(out, vec![0]);
    assert_eq!(read_opt_text(&out, 0), Some((None, 1)));
    let mut out = Vec::new();
    put_opt_text(&mut out, &Some("a".to_string()));
    assert_eq!(out, vec![1, 0, 0, 0, 0, 0, 0, 0, 1, b'a']);
    assert_eq!(read_opt_text(&out, 0), Some((Some("a".to_string()), 10)));
    assert_eq!(read_opt_text(&[7], 0), None);
}

#[test]
fn list_is_length_prefixed() {
    let mut out = Vec::new();
    put_list(&mut out, &vec![1, 258]);
    assert_eq!(
        out,
        vec![0, 0, 0, 0, 0, 0, 0, 2, 0, 0, 0, 0, 0, 0, 0, 1, 0, 0, 0, 0, 0, 0, 1, 2]
    );
    assert_eq!(read_list(&out, 0), Some((vec![1, 258], 24)));
    assert_eq!(read_list(&out[..23], 0), None);
    assert_eq!(read_list(&[255; 8], 0), None);
}

#[test]
fn post_has_the_stored_layout() {
    let bytes = sample_post().encode();
    let mut want = Vec::new();
    want.extend_from_slice(&[0, 0, 0, 0, 0, 0, 0, 2]);
    want.extend_from_slice(&[0, 0, 0, 0, 0, 0, 0, 6]);
    want.extend_from_slice("héllo".as_bytes());
    want.extend_from_slice(&[0, 0, 0, 0, 0, 0, 0, 7]);
    want.extend_from_slice(&[1, 0, 0, 0, 0, 0, 0, 0, 1]);
    want.extend_from_slice(&[0, 0, 0, 0, 0, 0, 0, 2]);
    want.extend_from_slice(&[0, 0, 0, 0, 0, 0, 0, 3]);
    want.extend_from_slice(&[0, 0, 0, 0, 0, 0, 0, 4]);
    want.extend_from_slice(&[0, 0, 0, 0, 0, 0, 0, 9]);
    assert_eq!(bytes, want);
}

#[test]
fn post_layout_is_the_big_endian_fixed_width_layout_of_bincode() {
    let options = bincode::options().with_big_endian().with_fixint_encoding();
    let p = sample_post();
    let tuple = (
        p.key.0 .0,
        p.body.clone(),
        p.author.0 .0,
        p.parent.map(|k| k.0 .0),
        p.children.iter().map(|k| k.0 .0).collect::<Vec<u64>>(),
        p.thread.0 .0,
    );
    assert_eq!(p.encode(), options.serialize(&tuple).unwrap());
    let t = Thread { key: ThreadKey(Key(3)), title: "hi".to_string(), post: post_key(4) };
    assert_eq!(t.encode(), options.serialize(&(3u64, "hi".to_string(), 4u64)).unwrap());
    let u = User {
        key: UserKey(Key(5)),
        username: "alice".to_string(),
        password: "hash".to_string(),
        avatar: Some("a.png".to_string()),
    };
    assert_eq!(
        u.encode(),
        options
            .serialize(&(5u64, "alice".to_string(), "hash".to_string(), Some("a.png".to_string())))
            .unwrap()
    );
    assert_eq!(encode_u64(77), options.serialize(&77u64).unwrap());
}

#[test]
fn post_round_trips() {
    let p = sample_post();
    let back = Post::decode(&p.encode()).unwrap();
    assert_eq!(back.key, p.key);
    assert_eq!(back.body, p.body);
    assert_eq!(back.author, p.author);
    assert_eq!(back.parent, p.parent);
    assert_eq!(back.children, p.children);
    assert_eq!(back.thread, p.thread);
    let root = Post {
        key: post_key(1),
        body: String::new(),
        author: UserKey(Key(1)),
        parent: None,
        children: vec![],
        thread: ThreadKey(Key(1)),
    };
    let back = Post::decode(&root.encode()).unwrap();
    assert_eq!(back.parent, None);
    assert!(back.children.is_empty());
    assert_eq!(back.body, "");
}

#[test]
fn thread_round_trips() {
    let t = Thread { key: ThreadKey(Key(3)), title: "a <b>title</b>".to_string(), post: post_key(4) };
    let back = Thread::decode(&t.encode()).unwrap();
    assert_eq!(back.key, t.key);
    assert_eq!(back.title, t.title);
    assert_eq!(back.post, t.post);
}

#[test]
fn user_round_trips() {
    for avatar in [None, Some("pic".to_string())] {
        let u = User {
            key: UserKey(Key(5)),
            username: "alice".to_string(),
            password: "$argon2id$x".to_string(),
            avatar,
        };
        let back = User::decode(&u.encode()).unwrap();
        assert_eq!(back.key, u.key);
        assert_eq!(back.username, u.username);
        assert_eq!(back.password, u.password);
        assert_eq!(back.avatar, u.avatar);
    }
}

#[test]
fn identifiers_round_trip() {
    for n in [0u64, 1, 99, u64::MAX] {
        assert_eq!(PostKey::from_code(&post_key(n).to_code()), Some(post_key(n)));
        assert_eq!(ThreadKey::from_code(&ThreadKey(Key(n)).to_code()), Some(ThreadKey(Key(n))));
        assert_eq!(UserKey::from_code(&UserKey(Key(n)).to_code()), Some(UserKey(Key(n))));
        assert_eq!(Key::try_from_bytes(&Key(n).to_bytes()).ok(), Some(Key(n)));
    }
    assert_eq!(PostKey::from_code(&[1, 2, 3]), None);
    assert!(Key::try_from_bytes(&[1, 2, 3]).is_err());
}

#[test]
fn table_types_have_their_discriminants() {
    assert_eq!(TableType::Posts.discriminant(), 0);
    assert_eq!(TableType::Users.discriminant(), 1);
    assert_eq!(TableType::HighestKeys.discriminant(), 2);
    assert_eq!(TableType::Threads.discriminant(), 3);
    assert_eq!(TableType::Threads.to_code(), vec![0, 0, 0, 0, 0, 0, 0, 3]);
    for t in [TableType::Posts, TableType::Users, TableType::HighestKeys, TableType::Threads] {
        assert_eq!(TableType::from_code(&t.to_code()), Some(t));
    }
    assert_eq!(TableType::from_code(&[0, 0, 0, 0, 0, 0, 0, 4]), None);
    assert_eq!(TableType::from_code(&[0]), None);
}

#[test]
fn corrupt_records_are_refused() {
    let bytes = sample_post().encode();
    assert!(Post::decode(&bytes[..bytes.len() - 1]).is_none());
    let mut longer = bytes.clone();
    longer.push(0);
    assert!(Post::decode(&longer).is_none());
    assert!(Post::decode(&[]).is_none());
    assert!(Thread::decode(&[1, 2, 3]).is_none());
    assert!(User::decode(&bytes).is_none());
    assert_eq!(u64::decode(&[0; 7]), None);
}
