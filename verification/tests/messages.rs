use dragon_fox::comm::{frame, unframe, Request, Response};
use dragon_fox::error::ForumError;
use dragon_fox::state::key::{decimal_text, Key};
use dragon_fox::state::post::PostKey;
use dragon_fox::state::thread::ThreadKey;
use dragon_fox::state::user::UserKey;
use dragon_fox::state::TableType;

#[test]
fn identifiers_are_shown_in_decimal() {
    assert_eq!(decimal_text(0), "0");
    assert_eq!(decimal_text(7), "7");
    assert_eq!(decimal_text(10), "10");
    assert_eq!(decimal_text(1905), "1905");
    assert_eq!(decimal_text(u64::MAX), u64::MAX.to_string());
    assert_eq!(Key(42).to_string(), "42");
    assert_eq!(PostKey(Key(1)).to_string(), "1");
    assert_eq!(ThreadKey(Key(230)).to_string(), "230");
    assert_eq!(UserKey(Key(99)).to_string(), "99");
}

#[test]
fn failures_are_put_in_words() {
    assert_eq!(ForumError::PostNotFound(PostKey(Key(12))).to_string(), "post not found: 12");
    assert_eq!(ForumError::ThreadNotFound(ThreadKey(Key(3))).to_string(), "thread not found: 3");
    assert_eq!(ForumError::UserNotFound(UserKey(Key(0))).to_string(), "user not found: 0");
    assert_eq!(
        ForumError::ThreadHasNoPosts(ThreadKey(Key(5))).to_string(),
        "thread has no posts: 5"
    );
    assert_eq!(ForumError::NotLoggedIn.to_string(), "not logged in (should never happen)");
    assert_eq!(
        ForumError::TryFromSlice.to_string(),
        "failed to parse key: could not convert slice to array"
    );
    assert_eq!(ForumError::Codec.to_string(), "stored bytes do not decode");
    assert_eq!(
        ForumError::KeysExhausted(TableType::Users).to_string(),
        "no identifier is left for Users"
    );
    assert_eq!(
        ForumError::NoMigration(TableType::Posts, 0).to_string(),
        "no migration starts from version 0 of Posts"
    );
    assert_eq!(ForumError::NoRoot(PostKey(Key(4))).to_string(), "no root is reached from post 4");
    assert_eq!(
        ForumError::NoThread(PostKey(Key(4))).to_string(),
        "no thread has the root post 4"
    );
    assert_eq!(TableType::HighestKeys.to_string(), "HighestKeys");
    assert_eq!(TableType::Threads.to_string(), "Threads");
}

#[test]
fn outside_failures_keep_their_own_words() {
    let storage = sled::Error::Unsupported("no".to_string());
    let words = storage.to_string();
    assert_eq!(ForumError::Sled(storage).to_string(), format!("sled failed: {}", words));
    let hashing = argon2::password_hash::Error::Password;
    let words = hashing.to_string();
    assert_eq!(
        ForumError::PasswordHash(hashing).to_string(),
        format!("password hash failed: {}", words)
    );
}

#[test]
fn requests_round_trip() {
    for request in [Request::Render(PostKey(Key(7))), Request::Track(PostKey(Key(u64::MAX)))] {
        assert_eq!(Request::decode(&request.encode()), Some(request));
    }
    assert_eq!(
        Request::Track(PostKey(Key(258))).encode(),
        vec![0, 0, 0, 1, 0, 0, 0, 0, 0, 0, 1, 2]
    );
    assert_eq!(Request::decode(&[0, 0, 0, 2, 0, 0, 0, 0, 0, 0, 0, 1]), None);
    assert_eq!(Request::decode(&[0, 0, 0, 0, 0, 0, 0, 0, 0, 0, 0]), None);
    assert_eq!(Request::decode(&[0, 0, 0, 0, 0, 0, 0, 0, 0, 0, 0, 1, 0]), None);
    assert_eq!(Request::decode(&[1, 0, 0, 0, 0, 0, 0, 0, 0, 0, 0, 1]), None);
}

#[test]
fn responses_round_trip() {
    let response = Response::Render("<p>hé</p>".to_string());
    let bytes = response.encode();
    assert_eq!(&bytes[..12], &[0, 0, 0, 0, 0, 0, 0, 0, 0, 0, 0, 10]);
    match Response::decode(&bytes) {
        Some(Response::Render(text)) => assert_eq!(text, "<p>hé</p>"),
        None => panic!("not decoded"),
    }
    assert!(Response::decode(&bytes[..bytes.len() - 1]).is_none());
    assert!(Response::decode(&[0, 0, 0, 1, 0, 0, 0, 0, 0, 0, 0, 0]).is_none());
}

#[test]
fn frames_carry_up_to_255_bytes() {
    assert_eq!(frame(&[]), Some(vec![0]));
    assert_eq!(frame(&[9, 8]), Some(vec![2, 9, 8]));
    assert_eq!(frame(&[1; 255]).map(|f| (f.len(), f[0])), Some((256, 255)));
    assert_eq!(frame(&[1; 256]), None);
    assert_eq!(unframe(&[2, 9, 8, 7]), Some((vec![9, 8], 3)));
    assert_eq!(unframe(&[0]), Some((vec![], 1)));
    assert_eq!(unframe(&[3, 9, 8]), None);
    assert_eq!(unframe(&[]), None);
    let request = Request::Render(PostKey(Key(5)));
    let framed = frame(&request.encode()).unwrap();
    let (payload, taken) = unframe(&framed).unwrap();
    assert_eq!(taken, framed.len());
    assert_eq!(Request::decode(&payload), Some(request));
}
