//! The messages of the rendering service and their frames on a byte stream:
//! one length byte, then that many bytes of payload.

use vstd::prelude::*;
use vstd::slice::slice_subrange;
use vstd::slice::slice_to_vec;
use crate::state::codec::lemma_holds_at_split;
use crate::state::codec::lemma_take_text;
use crate::state::codec::lemma_take_u64;
use crate::state::codec::lemma_u64_round_trip;
use crate::state::codec::put_text;
use crate::state::codec::put_u64;
use crate::state::codec::read_text;
use crate::state::codec::read_u64;
use crate::state::codec::take_text;
use crate::state::codec::take_u64;
use crate::state::codec::text_bytes;
use crate::state::codec::text_fits;
use crate::state::codec::u64_bytes;
use crate::state::key::Key;
use crate::state::post::PostKey;

verus! {

/// What a client asks of the rendering service.
#[derive(Debug, Clone, Copy, PartialEq, Eq, Structural)]
pub enum Request {
    Render(PostKey),
    Track(PostKey),
}

/// What the rendering service answers.
#[derive(Debug)]
pub enum Response {
    Render(String),
}

/// The four bytes that name a variant: its index, most significant byte
/// first.
pub open spec fn variant_bytes(index: u8) -> Seq<u8> {
    seq![0u8, 0u8, 0u8, index]
}

/// The variant index stored at the start of `b`, if it is below `count`.
pub open spec fn take_variant(b: Seq<u8>, count: u8) -> Option<u8> {
    if b.len() >= 4 && b[0] == 0 && b[1] == 0 && b[2] == 0 && b[3] < count {
        Some(b[3])
    } else {
        None
    }
}

/// The payload of a request: the variant, then the post's identifier.
pub open spec fn request_bytes(r: Request) -> Seq<u8> {
    match r {
        Request::Render(key) => variant_bytes(0) + u64_bytes(key.0.0),
        Request::Track(key) => variant_bytes(1) + u64_bytes(key.0.0),
    }
}

/// The request that a payload stands for.
pub open spec fn request_of_bytes(b: Seq<u8>) -> Option<Request> {
    match take_variant(b, 2) {
        Some(index) => match take_u64(b, 4) {
            Some((key, end)) => if end == b.len() {
                if index == 0 {
                    Some(Request::Render(PostKey(Key(key))))
                } else {
                    Some(Request::Track(PostKey(Key(key))))
                }
            } else {
                None
            },
            None => None,
        },
        None => None,
    }
}

/// Decoding the payload of a request gives the request back.
pub proof fn lemma_request_round_trip(r: Request)
    ensures
        request_of_bytes(request_bytes(r)) == Some(r),
{
    let key = match r {
        Request::Render(key) => key,
        Request::Track(key) => key,
    };
    let index: u8 = if r is Render {
        0
    } else {
        1
    };
    let b = request_bytes(r);
    lemma_u64_round_trip(key.0.0);
    assert(b.subrange(0, b.len() as int) =~= b);
    lemma_holds_at_split(b, 0, variant_bytes(index), u64_bytes(key.0.0));
    lemma_take_u64(b, 4, key.0.0);
}

/// The payload of a response: the variant, then the rendered text.
pub open spec fn response_bytes(text: Seq<char>) -> Seq<u8> {
    variant_bytes(0) + text_bytes(text)
}

/// The rendered text that a payload stands for.
pub open spec fn response_of_bytes(b: Seq<u8>) -> Option<Seq<char>> {
    match take_variant(b, 1) {
        Some(_) => match take_text(b, 4) {
            Some((text, end)) => if end == b.len() {
                Some(text)
            } else {
                None
            },
            None => None,
        },
        None => None,
    }
}

/// Decoding the payload of a response gives the rendered text back.
pub proof fn lemma_response_round_trip(text: Seq<char>)
    requires
        text_fits(text),
    ensures
        response_of_bytes(response_bytes(text)) == Some(text),
{
    let b = response_bytes(text);
    assert(b.subrange(0, b.len() as int) =~= b);
    lemma_holds_at_split(b, 0, variant_bytes(0), text_bytes(text));
    lemma_take_text(b, 4, text);
}

/// Reads the variant index at the start of `b`.
fn read_variant(b: &[u8], count: u8) -> (r: Option<u8>)
    ensures
        r == take_variant(b@, count),
{
    if b.len() >= 4 && b[0] == 0 && b[1] == 0 && b[2] == 0 && b[3] < count {
        Some(b[3])
    } else {
        None
    }
}

/// Appends the four bytes of a variant index.
fn put_variant(out: &mut Vec<u8>, index: u8)
    ensures
        final(out)@ == old(out)@ + variant_bytes(index),
{
    out.push(0);
    out.push(0);
    out.push(0);
    out.push(index);
}

impl Request {
    /// The payload of the request.
    pub fn encode(&self) -> (r: Vec<u8>)
        ensures
            r@ == request_bytes(*self),
    {
        let mut out: Vec<u8> = Vec::new();
        match self {
            Request::Render(key) => {
                put_variant(&mut out, 0);
                put_u64(&mut out, key.0.0);
            },
            Request::Track(key) => {
                put_variant(&mut out, 1);
                put_u64(&mut out, key.0.0);
            },
        }
        out
    }

    /// The request that `bytes` are the payload of, if they are one.
    pub fn decode(bytes: &[u8]) -> (r: Option<Request>)
        ensures
            r == request_of_bytes(bytes@),
    {
        let index = match read_variant(bytes, 2) {
            Some(index) => index,
            None => {
                return None;
            },
        };
        let (key, end) = match read_u64(bytes, 4) {
            Some(x) => x,
            None => {
                return None;
            },
        };
        if end != bytes.len() {
            return None;
        }
        if index == 0 {
            Some(Request::Render(PostKey(Key(key))))
        } else {
            Some(Request::Track(PostKey(Key(key))))
        }
    }
}

impl Response {
    /// The rendered text that the response carries.
    pub open spec fn text(&self) -> Seq<char> {
        match self {
            Response::Render(text) => text@,
        }
    }

    /// The payload of the response.
    pub fn encode(&self) -> (r: Vec<u8>)
        ensures
            text_fits(self.text()),
            r@ == response_bytes(self.text()),
    {
        let mut out: Vec<u8> = Vec::new();
        put_variant(&mut out, 0);
        match self {
            Response::Render(text) => {
                put_text(&mut out, text.as_str());
            },
        }
        out
    }

    /// The response that `bytes` are the payload of, if they are one.
    pub fn decode(bytes: &[u8]) -> (r: Option<Response>)
        ensures
            match r {
                Some(response) => response_of_bytes(bytes@) == Some(response.text()),
                None => response_of_bytes(bytes@) is None,
            },
    {
        match read_variant(bytes, 1) {
            Some(_) => {},
            None => {
                return None;
            },
        }
        let (text, end) = match read_text(bytes, 4) {
            Some(x) => x,
            None => {
                return None;
            },
        };
        if end != bytes.len() {
            return None;
        }
        Some(Response::Render(text))
    }
}

/// A payload as it travels: its length in one byte, then the payload.
pub open spec fn framed(payload: Seq<u8>) -> Seq<u8> {
    seq![payload.len() as u8] + payload
}

/// The payload of the frame at the start of `b`, with the number of bytes
/// that the frame takes; nothing where the frame is not complete.
pub open spec fn take_frame(b: Seq<u8>) -> Option<(Seq<u8>, int)> {
    if b.len() >= 1 && 1 + b[0] <= b.len() {
        Some((b.subrange(1, 1 + b[0]), 1 + b[0]))
    } else {
        None
    }
}

/// Reading a frame gives back the payload that was framed, whatever follows
/// the frame.
pub proof fn lemma_frame_round_trip(payload: Seq<u8>, rest: Seq<u8>)
    requires
        payload.len() <= 255,
    ensures
        take_frame(framed(payload) + rest) == Some((payload, 1 + payload.len() as int)),
{
    let b = framed(payload) + rest;
    assert(b[0] == payload.len() as u8);
    assert(b.subrange(1, 1 + payload.len() as int) =~= payload);
}

/// Frames a payload. A payload of more than 255 bytes has no frame.
pub fn frame(payload: &[u8]) -> (r: Option<Vec<u8>>)
    ensures
        match r {
            Some(bytes) => payload@.len() <= 255 && bytes@ == framed(payload@),
            None => payload@.len() > 255,
        },
{
    if payload.len() > 255 {
        return None;
    }
    let mut out: Vec<u8> = Vec::new();
    out.push(payload.len() as u8);
    out.extend_from_slice(payload);
    Some(out)
}

/// Reads the frame at the start of `bytes`.
pub fn unframe(bytes: &[u8]) -> (r: Option<(Vec<u8>, usize)>)
    ensures
        match r {
            Some((payload, taken)) => take_frame(bytes@) == Some((payload@, taken as int)),
            None => take_frame(bytes@) is None,
        },
{
    if bytes.len() < 1 {
        return None;
    }
    let length: usize = bytes[0] as usize;
    if length > bytes.len() - 1 {
        return None;
    }
    let payload = slice_to_vec(slice_subrange(bytes, 1, 1 + length));
    Some((payload, 1 + length))
}

} // verus!
