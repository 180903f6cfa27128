//! The records of earlier schema versions, as the migrations read them.

use vstd::prelude::*;
use crate::state::Record;
use crate::state::codec::lemma_holds_at_split;
use crate::state::codec::lemma_take_list;
use crate::state::codec::lemma_take_opt;
use crate::state::codec::lemma_take_text;
use crate::state::codec::lemma_take_u64;
use crate::state::codec::lemma_u64_round_trip;
use crate::state::codec::list_bytes;
use crate::state::codec::opt_bytes;
use crate::state::codec::put_list;
use crate::state::codec::put_opt;
use crate::state::codec::put_text;
use crate::state::codec::put_u64;
use crate::state::codec::read_list;
use crate::state::codec::read_opt;
use crate::state::codec::read_text;
use crate::state::codec::read_u64;
use crate::state::codec::take_list;
use crate::state::codec::take_opt;
use crate::state::codec::take_text;
use crate::state::codec::take_u64;
use crate::state::codec::text_bytes;
use crate::state::codec::text_fits;
use crate::state::codec::u64_bytes;
use crate::state::key::Key;
use crate::state::post::PostKey;
use crate::state::post::key_numbers;
use crate::state::post::keys_of;
use crate::state::post::numbers_of;
use crate::state::post::opt_number;
use crate::state::post::opt_post_key;
use crate::state::post::post_keys;
use crate::state::user::UserKey;

verus! {

/// A user of schema version 1: no avatar yet.
pub struct UserV1 {
    pub key: UserKey,
    pub username: String,
    pub password: String,
}

/// A version 1 user as a mathematical value.
pub ghost struct UserV1View {
    pub key: UserKey,
    pub username: Seq<char>,
    pub password: Seq<char>,
}

impl View for UserV1 {
    type V = UserV1View;

    open spec fn view(&self) -> UserV1View {
        UserV1View { key: self.key, username: self.username@, password: self.password@ }
    }
}

/// The stored form of a version 1 user: key, name, password hash.
pub open spec fn user_v1_bytes(u: UserV1View) -> Seq<u8> {
    u64_bytes(u.key.0.0) + (text_bytes(u.username) + text_bytes(u.password))
}

/// The version 1 user that stored bytes stand for.
pub open spec fn user_v1_of_bytes(b: Seq<u8>) -> Option<UserV1View> {
    match take_u64(b, 0) {
        Some((key, at_name)) => match take_text(b, at_name) {
            Some((username, at_password)) => match take_text(b, at_password) {
                Some((password, end)) => if end == b.len() {
                    Some(UserV1View { key: UserKey(Key(key)), username, password })
                } else {
                    None
                },
                None => None,
            },
            None => None,
        },
        None => None,
    }
}

impl Record for UserV1 {
    open spec fn encoding(image: UserV1View) -> Seq<u8> {
        user_v1_bytes(image)
    }

    open spec fn decoding(bytes: Seq<u8>) -> Option<UserV1View> {
        user_v1_of_bytes(bytes)
    }

    open spec fn storable(image: UserV1View) -> bool {
        text_fits(image.username) && text_fits(image.password)
    }

    proof fn lemma_round_trip(image: UserV1View) {
        let f0 = u64_bytes(image.key.0.0);
        let f1 = text_bytes(image.username);
        let f2 = text_bytes(image.password);
        let b = user_v1_bytes(image);
        lemma_u64_round_trip(image.key.0.0);
        assert(b.subrange(0, b.len() as int) =~= b);
        lemma_holds_at_split(b, 0, f0, f1 + f2);
        lemma_take_u64(b, 0, image.key.0.0);
        lemma_holds_at_split(b, 8, f1, f2);
        lemma_take_text(b, 8, image.username);
        lemma_take_text(b, 8 + f1.len() as int, image.password);
    }

    fn encode(&self) -> (r: Vec<u8>) {
        let mut out: Vec<u8> = Vec::new();
        put_u64(&mut out, self.key.0.0);
        put_text(&mut out, self.username.as_str());
        put_text(&mut out, self.password.as_str());
        out
    }

    fn decode(bytes: &[u8]) -> (r: Option<UserV1>) {
        let (key, at) = match read_u64(bytes, 0) {
            Some(x) => x,
            None => {
                return None;
            },
        };
        let (username, at) = match read_text(bytes, at) {
            Some(x) => x,
            None => {
                return None;
            },
        };
        let (password, at) = match read_text(bytes, at) {
            Some(x) => x,
            None => {
                return None;
            },
        };
        if at != bytes.len() {
            return None;
        }
        Some(UserV1 { key: UserKey(Key(key)), username, password })
    }
}

/// A post of schema version 1: one of a linear sequence, with no links.
pub struct PostV1 {
    pub key: PostKey,
    pub body: String,
    pub author: UserKey,
}

/// A version 1 post as a mathematical value.
pub ghost struct PostV1View {
    pub key: PostKey,
    pub body: Seq<char>,
    pub author: UserKey,
}

impl View for PostV1 {
    type V = PostV1View;

    open spec fn view(&self) -> PostV1View {
        PostV1View { key: self.key, body: self.body@, author: self.author }
    }
}

/// The stored form of a version 1 post: key, body, author.
pub open spec fn post_v1_bytes(p: PostV1View) -> Seq<u8> {
    u64_bytes(p.key.0.0) + (text_bytes(p.body) + u64_bytes(p.author.0.0))
}

/// The version 1 post that stored bytes stand for.
pub open spec fn post_v1_of_bytes(b: Seq<u8>) -> Option<PostV1View> {
    match take_u64(b, 0) {
        Some((key, at_body)) => match take_text(b, at_body) {
            Some((body, at_author)) => match take_u64(b, at_author) {
                Some((author, end)) => if end == b.len() {
                    Some(PostV1View { key: PostKey(Key(key)), body, author: UserKey(Key(author)) })
                } else {
                    None
                },
                None => None,
            },
            None => None,
        },
        None => None,
    }
}

impl Record for PostV1 {
    open spec fn encoding(image: PostV1View) -> Seq<u8> {
        post_v1_bytes(image)
    }

    open spec fn decoding(bytes: Seq<u8>) -> Option<PostV1View> {
        post_v1_of_bytes(bytes)
    }

    open spec fn storable(image: PostV1View) -> bool {
        text_fits(image.body)
    }

    proof fn lemma_round_trip(image: PostV1View) {
        let f0 = u64_bytes(image.key.0.0);
        let f1 = text_bytes(image.body);
        let f2 = u64_bytes(image.author.0.0);
        let b = post_v1_bytes(image);
        lemma_u64_round_trip(image.key.0.0);
        lemma_u64_round_trip(image.author.0.0);
        assert(b.subrange(0, b.len() as int) =~= b);
        lemma_holds_at_split(b, 0, f0, f1 + f2);
        lemma_take_u64(b, 0, image.key.0.0);
        lemma_holds_at_split(b, 8, f1, f2);
        lemma_take_text(b, 8, image.body);
        lemma_take_u64(b, 8 + f1.len() as int, image.author.0.0);
    }

    fn encode(&self) -> (r: Vec<u8>) {
        let mut out: Vec<u8> = Vec::new();
        put_u64(&mut out, self.key.0.0);
        put_text(&mut out, self.body.as_str());
        put_u64(&mut out, self.author.0.0);
        out
    }

    fn decode(bytes: &[u8]) -> (r: Option<PostV1>) {
        let (key, at) = match read_u64(bytes, 0) {
            Some(x) => x,
            None => {
                return None;
            },
        };
        let (body, at) = match read_text(bytes, at) {
            Some(x) => x,
            None => {
                return None;
            },
        };
        let (author, at) = match read_u64(bytes, at) {
            Some(x) => x,
            None => {
                return None;
            },
        };
        if at != bytes.len() {
            return None;
        }
        Some(PostV1 { key: PostKey(Key(key)), body, author: UserKey(Key(author)) })
    }
}

/// A post of schema version 2: linked to its parent and children, not yet
/// to a thread.
pub struct PostV2 {
    pub key: PostKey,
    pub body: String,
    pub author: UserKey,
    pub parent: Option<PostKey>,
    pub children: Vec<PostKey>,
}

/// A version 2 post as a mathematical value.
pub ghost struct PostV2View {
    pub key: PostKey,
    pub body: Seq<char>,
    pub author: UserKey,
    pub parent: Option<PostKey>,
    pub children: Seq<PostKey>,
}

impl View for PostV2 {
    type V = PostV2View;

    open spec fn view(&self) -> PostV2View {
        PostV2View {
            key: self.key,
            body: self.body@,
            author: self.author,
            parent: self.parent,
            children: self.children@,
        }
    }
}

/// The stored form of a version 2 post: key, body, author, parent, children.
pub open spec fn post_v2_bytes(p: PostV2View) -> Seq<u8> {
    u64_bytes(p.key.0.0) + (text_bytes(p.body) + (u64_bytes(p.author.0.0) + (opt_bytes(
        opt_number(p.parent),
    ) + list_bytes(key_numbers(p.children)))))
}

/// The version 2 post that stored bytes stand for.
pub open spec fn post_v2_of_bytes(b: Seq<u8>) -> Option<PostV2View> {
    match take_u64(b, 0) {
        Some((key, at_body)) => match take_text(b, at_body) {
            Some((body, at_author)) => match take_u64(b, at_author) {
                Some((author, at_parent)) => match take_opt(b, at_parent) {
                    Some((parent, at_children)) => match take_list(b, at_children) {
                        Some((children, end)) => if end == b.len() {
                            Some(
                                PostV2View {
                                    key: PostKey(Key(key)),
                                    body,
                                    author: UserKey(Key(author)),
                                    parent: opt_post_key(parent),
                                    children: post_keys(children),
                                },
                            )
                        } else {
                            None
                        },
                        None => None,
                    },
                    None => None,
                },
                None => None,
            },
            None => None,
        },
        None => None,
    }
}

impl Record for PostV2 {
    open spec fn encoding(image: PostV2View) -> Seq<u8> {
        post_v2_bytes(image)
    }

    open spec fn decoding(bytes: Seq<u8>) -> Option<PostV2View> {
        post_v2_of_bytes(bytes)
    }

    open spec fn storable(image: PostV2View) -> bool {
        text_fits(image.body) && image.children.len() <= u64::MAX
    }

    proof fn lemma_round_trip(image: PostV2View) {
        let f0 = u64_bytes(image.key.0.0);
        let f1 = text_bytes(image.body);
        let f2 = u64_bytes(image.author.0.0);
        let f3 = opt_bytes(opt_number(image.parent));
        let f4 = list_bytes(key_numbers(image.children));
        let b = post_v2_bytes(image);
        lemma_u64_round_trip(image.key.0.0);
        lemma_u64_round_trip(image.author.0.0);
        assert(b.subrange(0, b.len() as int) =~= b);
        lemma_holds_at_split(b, 0, f0, f1 + (f2 + (f3 + f4)));
        lemma_take_u64(b, 0, image.key.0.0);
        lemma_holds_at_split(b, 8, f1, f2 + (f3 + f4));
        lemma_take_text(b, 8, image.body);
        let a2: int = 8 + f1.len() as int;
        lemma_holds_at_split(b, a2, f2, f3 + f4);
        lemma_take_u64(b, a2, image.author.0.0);
        let a3: int = a2 + 8;
        lemma_holds_at_split(b, a3, f3, f4);
        lemma_take_opt(b, a3, opt_number(image.parent));
        let a4: int = a3 + f3.len() as int;
        lemma_take_list(b, a4, key_numbers(image.children));
        assert(post_keys(key_numbers(image.children)) =~= image.children);
    }

    fn encode(&self) -> (r: Vec<u8>) {
        let mut out: Vec<u8> = Vec::new();
        put_u64(&mut out, self.key.0.0);
        put_text(&mut out, self.body.as_str());
        put_u64(&mut out, self.author.0.0);
        put_opt(
            &mut out,
            match self.parent {
                Some(k) => Some(k.0.0),
                None => None,
            },
        );
        let numbers = numbers_of(&self.children);
        put_list(&mut out, &numbers);
        out
    }

    fn decode(bytes: &[u8]) -> (r: Option<PostV2>) {
        let (key, at) = match read_u64(bytes, 0) {
            Some(x) => x,
            None => {
                return None;
            },
        };
        let (body, at) = match read_text(bytes, at) {
            Some(x) => x,
            None => {
                return None;
            },
        };
        let (author, at) = match read_u64(bytes, at) {
            Some(x) => x,
            None => {
                return None;
            },
        };
        let (parent, at) = match read_opt(bytes, at) {
            Some(x) => x,
            None => {
                return None;
            },
        };
        let (children, at) = match read_list(bytes, at) {
            Some(x) => x,
            None => {
                return None;
            },
        };
        if at != bytes.len() {
            return None;
        }
        Some(
            PostV2 {
                key: PostKey(Key(key)),
                body,
                author: UserKey(Key(author)),
                parent: match parent {
                    Some(n) => Some(PostKey(Key(n))),
                    None => None,
                },
                children: keys_of(&children),
            },
        )
    }
}

} // verus!
