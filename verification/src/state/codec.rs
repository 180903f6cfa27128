//! The stored byte layout: big-endian fixed-width integers, length-prefixed
//! UTF-8 strings, one-byte option tags and length-prefixed lists.

use vstd::prelude::*;
use vstd::slice::slice_subrange;
use vstd::slice::slice_to_vec;
use vstd::utf8::decode_utf8;
use vstd::utf8::encode_utf8;
use vstd::utf8::valid_utf8;

verus! {

/// The eight bytes of `x`, most significant first.
pub open spec fn u64_bytes(x: u64) -> Seq<u8> {
    seq![
        ((x >> 56) & 0xff) as u8,
        ((x >> 48) & 0xff) as u8,
        ((x >> 40) & 0xff) as u8,
        ((x >> 32) & 0xff) as u8,
        ((x >> 24) & 0xff) as u8,
        ((x >> 16) & 0xff) as u8,
        ((x >> 8) & 0xff) as u8,
        (x & 0xff) as u8,
    ]
}

/// The number whose big-endian digits are the eight given bytes.
pub open spec fn u64_of_digits(
    b0: u8,
    b1: u8,
    b2: u8,
    b3: u8,
    b4: u8,
    b5: u8,
    b6: u8,
    b7: u8,
) -> u64 {
    (b0 as u64) << 56 | (b1 as u64) << 48 | (b2 as u64) << 40 | (b3 as u64) << 32 | (b4 as u64)
        << 24 | (b5 as u64) << 16 | (b6 as u64) << 8 | (b7 as u64)
}

/// The number whose big-endian digits are the first eight bytes of `b`.
pub open spec fn u64_value(b: Seq<u8>) -> u64 {
    u64_of_digits(b[0], b[1], b[2], b[3], b[4], b[5], b[6], b[7])
}

/// Decoding the eight bytes of a number gives the number back.
pub proof fn lemma_u64_round_trip(x: u64)
    ensures
        u64_bytes(x).len() == 8,
        u64_value(u64_bytes(x)) == x,
{
    assert(x == (((x >> 56) & 0xff) as u8 as u64) << 56 | (((x >> 48) & 0xff) as u8 as u64) << 48
        | (((x >> 40) & 0xff) as u8 as u64) << 40 | (((x >> 32) & 0xff) as u8 as u64) << 32 | (((x
        >> 24) & 0xff) as u8 as u64) << 24 | (((x >> 16) & 0xff) as u8 as u64) << 16 | (((x >> 8)
        & 0xff) as u8 as u64) << 8 | ((x & 0xff) as u8 as u64)) by (bit_vector);
}

/// Encoding the number read from eight bytes gives the bytes back.
pub proof fn lemma_u64_bytes_of_value(b: Seq<u8>)
    requires
        b.len() == 8,
    ensures
        u64_bytes(u64_value(b)) == b,
{
    let (b0, b1, b2, b3, b4, b5, b6, b7) = (b[0], b[1], b[2], b[3], b[4], b[5], b[6], b[7]);
    let x = u64_of_digits(b0, b1, b2, b3, b4, b5, b6, b7);
    assert(x == (b0 as u64) << 56 | (b1 as u64) << 48 | (b2 as u64) << 40 | (b3 as u64) << 32 | (
    b4 as u64) << 24 | (b5 as u64) << 16 | (b6 as u64) << 8 | (b7 as u64) ==> ((x >> 56) & 0xff) as u8
        == b0 && ((x >> 48) & 0xff) as u8 == b1 && ((x >> 40) & 0xff) as u8 == b2 && ((x >> 32)
        & 0xff) as u8 == b3 && ((x >> 24) & 0xff) as u8 == b4 && ((x >> 16) & 0xff) as u8 == b5 && ((x
        >> 8) & 0xff) as u8 == b6 && (x & 0xff) as u8 == b7) by (bit_vector);
}

/// Two numbers with the same eight bytes are the same number.
pub proof fn lemma_u64_bytes_injective(x: u64, y: u64)
    requires
        u64_bytes(x) == u64_bytes(y),
    ensures
        x == y,
{
    lemma_u64_round_trip(x);
    lemma_u64_round_trip(y);
}

/// Whether `b` holds the bytes `part` from position `at` on.
pub open spec fn holds_at(b: Seq<u8>, at: int, part: Seq<u8>) -> bool {
    &&& 0 <= at
    &&& at + part.len() <= b.len()
    &&& b.subrange(at, at + part.len()) == part
}

/// Where two parts stand one after the other, each stands at its own place.
pub proof fn lemma_holds_at_split(b: Seq<u8>, at: int, first: Seq<u8>, second: Seq<u8>)
    requires
        holds_at(b, at, first + second),
    ensures
        holds_at(b, at, first),
        holds_at(b, at + first.len(), second),
{
    let whole = first + second;
    assert(b.subrange(at, at + first.len()) =~= whole.subrange(0, first.len() as int));
    assert(whole.subrange(0, first.len() as int) =~= first);
    assert(b.subrange(at + first.len(), at + first.len() + second.len()) =~= whole.subrange(
        first.len() as int,
        whole.len() as int,
    ));
    assert(whole.subrange(first.len() as int, whole.len() as int) =~= second);
}

/// The number stored at position `at`, with the position behind it.
pub open spec fn take_u64(b: Seq<u8>, at: int) -> Option<(u64, int)> {
    if 0 <= at && at + 8 <= b.len() {
        Some((u64_value(b.subrange(at, at + 8)), at + 8))
    } else {
        None
    }
}

/// Reading a number where its bytes stand gives the number.
pub proof fn lemma_take_u64(b: Seq<u8>, at: int, x: u64)
    requires
        holds_at(b, at, u64_bytes(x)),
    ensures
        take_u64(b, at) == Some((x, at + 8)),
{
    lemma_u64_round_trip(x);
}

/// Appends the eight bytes of `x`.
pub fn put_u64(out: &mut Vec<u8>, x: u64)
    ensures
        final(out)@ == old(out)@ + u64_bytes(x),
{
    out.push(((x >> 56) & 0xff) as u8);
    out.push(((x >> 48) & 0xff) as u8);
    out.push(((x >> 40) & 0xff) as u8);
    out.push(((x >> 32) & 0xff) as u8);
    out.push(((x >> 24) & 0xff) as u8);
    out.push(((x >> 16) & 0xff) as u8);
    out.push(((x >> 8) & 0xff) as u8);
    out.push((x & 0xff) as u8);
}

/// The eight bytes of `x` as a buffer of their own.
pub fn encode_u64(x: u64) -> (r: Vec<u8>)
    ensures
        r@ == u64_bytes(x),
{
    let mut out: Vec<u8> = Vec::new();
    put_u64(&mut out, x);
    out
}

/// Reads the number stored at position `at`.
pub fn read_u64(b: &[u8], at: usize) -> (r: Option<(u64, usize)>)
    ensures
        match r {
            Some((x, next)) => take_u64(b@, at as int) == Some((x, next as int)),
            None => take_u64(b@, at as int) is None,
        },
{
    if b.len() < 8 || at > b.len() - 8 {
        return None;
    }
    let x: u64 = (b[at] as u64) << 56 | (b[at + 1] as u64) << 48 | (b[at + 2] as u64) << 40 | (b[at
        + 3] as u64) << 32 | (b[at + 4] as u64) << 24 | (b[at + 5] as u64) << 16 | (b[at + 6] as u64)
        << 8 | (b[at + 7] as u64);
    Some((x, at + 8))
}

/// Reads a buffer that holds one number and nothing else.
pub fn decode_u64(b: &[u8]) -> (r: Option<u64>)
    ensures
        r == (if b@.len() == 8 {
            Some(u64_value(b@))
        } else {
            None
        }),
{
    if b.len() != 8 {
        return None;
    }
    match read_u64(b, 0) {
        Some((x, _)) => {
            Some(x)
        },
        None => None,
    }
}

/// A byte string behind its length.
pub open spec fn blob_bytes(raw: Seq<u8>) -> Seq<u8> {
    u64_bytes(raw.len() as u64) + raw
}

/// The length-prefixed byte string stored at position `at`.
pub open spec fn take_blob(b: Seq<u8>, at: int) -> Option<(Seq<u8>, int)> {
    match take_u64(b, at) {
        Some((n, start)) => if start + n <= b.len() {
            Some((b.subrange(start, start + n), start + n))
        } else {
            None
        },
        None => None,
    }
}

/// Reading a byte string where its encoding stands gives the byte string.
pub proof fn lemma_take_blob(b: Seq<u8>, at: int, raw: Seq<u8>)
    requires
        raw.len() <= u64::MAX,
        holds_at(b, at, blob_bytes(raw)),
    ensures
        take_blob(b, at) == Some((raw, at + 8 + raw.len())),
{
    lemma_u64_round_trip(raw.len() as u64);
    lemma_holds_at_split(b, at, u64_bytes(raw.len() as u64), raw);
    lemma_take_u64(b, at, raw.len() as u64);
}

/// A text as stored: its UTF-8 bytes behind their number.
pub open spec fn text_bytes(s: Seq<char>) -> Seq<u8> {
    blob_bytes(encode_utf8(s))
}

/// The text stored at position `at`.
pub open spec fn take_text(b: Seq<u8>, at: int) -> Option<(Seq<char>, int)> {
    match take_blob(b, at) {
        Some((raw, next)) => if valid_utf8(raw) {
            Some((decode_utf8(raw), next))
        } else {
            None
        },
        None => None,
    }
}

/// Whether the UTF-8 form of `s` has a length that the prefix can hold.
pub open spec fn text_fits(s: Seq<char>) -> bool {
    encode_utf8(s).len() <= u64::MAX
}

/// Reading a text where its encoding stands gives the text.
pub proof fn lemma_take_text(b: Seq<u8>, at: int, s: Seq<char>)
    requires
        text_fits(s),
        holds_at(b, at, text_bytes(s)),
    ensures
        take_text(b, at) == Some((s, at + text_bytes(s).len())),
        text_bytes(s).len() == 8 + encode_utf8(s).len(),
{
    broadcast use vstd::utf8::encode_utf8_valid_utf8, vstd::utf8::encode_utf8_decode_utf8;

    lemma_u64_round_trip(encode_utf8(s).len() as u64);
    lemma_take_blob(b, at, encode_utf8(s));
}

/// `String::from_utf8`: the string whose UTF-8 bytes are `raw`, or nothing
/// where `raw` is not well-formed UTF-8.
#[verifier::external_body]
fn string_from_utf8(raw: Vec<u8>) -> (r: Option<String>)
    ensures
        r matches Some(s) ==> encode_utf8(s@) == raw@,
        r is None ==> !valid_utf8(raw@),
{
    String::from_utf8(raw).ok()
}

/// Appends a byte string behind its length.
pub fn put_blob(out: &mut Vec<u8>, raw: &[u8])
    ensures
        final(out)@ == old(out)@ + blob_bytes(raw@),
        raw@.len() <= u64::MAX,
{
    put_u64(out, raw.len() as u64);
    out.extend_from_slice(raw);
}

/// Appends a text as stored.
pub fn put_text(out: &mut Vec<u8>, s: &str)
    ensures
        final(out)@ == old(out)@ + text_bytes(s@),
        text_fits(s@),
{
    put_blob(out, s.as_bytes());
}

/// Reads the length-prefixed byte string stored at position `at`.
pub fn read_blob(b: &[u8], at: usize) -> (r: Option<(Vec<u8>, usize)>)
    ensures
        match r {
            Some((raw, next)) => take_blob(b@, at as int) == Some((raw@, next as int)),
            None => take_blob(b@, at as int) is None,
        },
{
    match read_u64(b, at) {
        Some((n, start)) => {
            if n > (b.len() - start) as u64 {
                return None;
            }
            let end: usize = start + n as usize;
            let raw = slice_to_vec(slice_subrange(b, start, end));
            Some((raw, end))
        },
        None => None,
    }
}

/// Reads the text stored at position `at`.
pub fn read_text(b: &[u8], at: usize) -> (r: Option<(String, usize)>)
    ensures
        match r {
            Some((s, next)) => take_text(b@, at as int) == Some((s@, next as int)),
            None => take_text(b@, at as int) is None,
        },
{
    broadcast use
        vstd::utf8::encode_utf8_valid_utf8,
        vstd::utf8::encode_utf8_decode_utf8,
        vstd::utf8::decode_utf8_encode_utf8,
    ;

    match read_blob(b, at) {
        Some((raw, next)) => {
            match string_from_utf8(raw) {
                Some(s) => Some((s, next)),
                None => None,
            }
        },
        None => None,
    }
}

/// An optional number as stored: a tag byte, then the number where there is one.
pub open spec fn opt_bytes(o: Option<u64>) -> Seq<u8> {
    match o {
        None => seq![0u8],
        Some(x) => seq![1u8] + u64_bytes(x),
    }
}

/// The optional number stored at position `at`.
pub open spec fn take_opt(b: Seq<u8>, at: int) -> Option<(Option<u64>, int)> {
    if 0 <= at < b.len() {
        if b[at] == 0 {
            Some((None, at + 1))
        } else if b[at] == 1 {
            match take_u64(b, at + 1) {
                Some((x, next)) => Some((Some(x), next)),
                None => None,
            }
        } else {
            None
        }
    } else {
        None
    }
}

/// Reading an optional number where its encoding stands gives it back.
pub proof fn lemma_take_opt(b: Seq<u8>, at: int, o: Option<u64>)
    requires
        holds_at(b, at, opt_bytes(o)),
    ensures
        take_opt(b, at) == Some((o, at + opt_bytes(o).len())),
{
    match o {
        None => {
            assert(b[at] == b.subrange(at, at + 1)[0]);
        },
        Some(x) => {
            lemma_u64_round_trip(x);
            lemma_holds_at_split(b, at, seq![1u8], u64_bytes(x));
            assert(b[at] == b.subrange(at, at + 1)[0]);
            lemma_take_u64(b, at + 1, x);
        },
    }
}

/// Appends an optional number as stored.
pub fn put_opt(out: &mut Vec<u8>, o: Option<u64>)
    ensures
        final(out)@ == old(out)@ + opt_bytes(o),
{
    match o {
        None => {
            out.push(0u8);
        },
        Some(x) => {
            out.push(1u8);
            put_u64(out, x);
        },
    }
}

/// Reads the optional number stored at position `at`.
pub fn read_opt(b: &[u8], at: usize) -> (r: Option<(Option<u64>, usize)>)
    ensures
        match r {
            Some((o, next)) => take_opt(b@, at as int) == Some((o, next as int)),
            None => take_opt(b@, at as int) is None,
        },
{
    if at >= b.len() {
        return None;
    }
    let tag: u8 = b[at];
    if tag == 0 {
        Some((None, at + 1))
    } else if tag == 1 {
        match read_u64(b, at + 1) {
            Some((x, next)) => Some((Some(x), next)),
            None => None,
        }
    } else {
        None
    }
}

/// An optional text as stored: a tag byte, then the text where there is one.
pub open spec fn opt_text_bytes(o: Option<Seq<char>>) -> Seq<u8> {
    match o {
        None => seq![0u8],
        Some(s) => seq![1u8] + text_bytes(s),
    }
}

/// The optional text stored at position `at`.
pub open spec fn take_opt_text(b: Seq<u8>, at: int) -> Option<(Option<Seq<char>>, int)> {
    if 0 <= at < b.len() {
        if b[at] == 0 {
            Some((None, at + 1))
        } else if b[at] == 1 {
            match take_text(b, at + 1) {
                Some((s, next)) => Some((Some(s), next)),
                None => None,
            }
        } else {
            None
        }
    } else {
        None
    }
}

/// Reading an optional text where its encoding stands gives it back.
pub proof fn lemma_take_opt_text(b: Seq<u8>, at: int, o: Option<Seq<char>>)
    requires
        o matches Some(s) ==> text_fits(s),
        holds_at(b, at, opt_text_bytes(o)),
    ensures
        take_opt_text(b, at) == Some((o, at + opt_text_bytes(o).len())),
{
    match o {
        None => {
            assert(b[at] == b.subrange(at, at + 1)[0]);
        },
        Some(s) => {
            lemma_holds_at_split(b, at, seq![1u8], text_bytes(s));
            assert(b[at] == b.subrange(at, at + 1)[0]);
            lemma_take_text(b, at + 1, s);
        },
    }
}

/// Appends an optional text as stored.
pub fn put_opt_text(out: &mut Vec<u8>, o: &Option<String>)
    ensures
        final(out)@ == old(out)@ + opt_text_bytes(
            match *o {
                Some(s) => Some(s@),
                None => None,
            },
        ),
        *o matches Some(s) ==> text_fits(s@),
{
    match o {
        None => {
            out.push(0u8);
        },
        Some(s) => {
            out.push(1u8);
            put_text(out, s.as_str());
        },
    }
}

/// Reads the optional text stored at position `at`.
pub fn read_opt_text(b: &[u8], at: usize) -> (r: Option<(Option<String>, usize)>)
    ensures
        match r {
            Some((o, next)) => take_opt_text(b@, at as int) == Some(
                (
                    match o {
                        Some(s) => Some(s@),
                        None => None,
                    },
                    next as int,
                ),
            ),
            None => take_opt_text(b@, at as int) is None,
        },
{
    if at >= b.len() {
        return None;
    }
    let tag: u8 = b[at];
    if tag == 0 {
        Some((None, at + 1))
    } else if tag == 1 {
        match read_text(b, at + 1) {
            Some((s, next)) => Some((Some(s), next)),
            None => None,
        }
    } else {
        None
    }
}

/// The bytes of the numbers of `l`, one after the other.
pub open spec fn items_bytes(l: Seq<u64>) -> Seq<u8> {
    Seq::new(8 * l.len(), |j: int| u64_bytes(l[j / 8])[j % 8])
}

/// A list of numbers as stored: its items behind their count.
pub open spec fn list_bytes(l: Seq<u64>) -> Seq<u8> {
    u64_bytes(l.len() as u64) + items_bytes(l)
}

/// The list of numbers stored at position `at`.
pub open spec fn take_list(b: Seq<u8>, at: int) -> Option<(Seq<u64>, int)> {
    match take_u64(b, at) {
        Some((n, start)) => if start + 8 * n <= b.len() {
            Some(
                (
                    Seq::new(
                        n as nat,
                        |i: int| u64_value(b.subrange(start + 8 * i, start + 8 * i + 8)),
                    ),
                    start + 8 * n,
                ),
            )
        } else {
            None
        },
        None => None,
    }
}

/// The bytes of one more item stand behind those of the items before it.
pub proof fn lemma_items_bytes_push(l: Seq<u64>, x: u64)
    ensures
        items_bytes(l.push(x)) == items_bytes(l) + u64_bytes(x),
{
    lemma_u64_round_trip(x);
    let left = items_bytes(l.push(x));
    let right = items_bytes(l) + u64_bytes(x);
    assert forall|j: int| 0 <= j < left.len() implies left[j] == right[j] by {
    }
}

/// Reading a list where its encoding stands gives the list.
pub proof fn lemma_take_list(b: Seq<u8>, at: int, l: Seq<u64>)
    requires
        l.len() <= u64::MAX,
        holds_at(b, at, list_bytes(l)),
    ensures
        take_list(b, at) == Some((l, at + 8 + 8 * l.len())),
        list_bytes(l).len() == 8 + 8 * l.len(),
{
    lemma_u64_round_trip(l.len() as u64);
    lemma_holds_at_split(b, at, u64_bytes(l.len() as u64), items_bytes(l));
    lemma_take_u64(b, at, l.len() as u64);
    let start = at + 8;
    let got = Seq::new(l.len(), |i: int| u64_value(b.subrange(start + 8 * i, start + 8 * i + 8)));
    assert forall|i: int| 0 <= i < l.len() implies got[i] == l[i] by {
        let piece = b.subrange(start + 8 * i, start + 8 * i + 8);
        let all = b.subrange(start, start + 8 * l.len());
        assert forall|k: int| 0 <= k < 8 implies piece[k] == u64_bytes(l[i])[k] by {
            assert(piece[k] == all[8 * i + k]);
        }
        lemma_u64_round_trip(l[i]);
    }
}

/// Appends a list of numbers as stored.
pub fn put_list(out: &mut Vec<u8>, l: &Vec<u64>)
    ensures
        final(out)@ == old(out)@ + list_bytes(l@),
        l@.len() <= u64::MAX,
{
    put_u64(out, l.len() as u64);
    let mut i: usize = 0;
    while i < l.len()
        invariant
            i <= l.len(),
            out@ == old(out)@ + u64_bytes(l@.len() as u64) + items_bytes(l@.take(i as int)),
        decreases l.len() - i,
    {
        put_u64(out, l[i]);
        proof {
            lemma_items_bytes_push(l@.take(i as int), l@[i as int]);
            assert(out@ =~= old(out)@ + u64_bytes(l@.len() as u64) + items_bytes(
                l@.take(i + 1),
            ));
        }
        i += 1;
    }
}

/// Reads the list of numbers stored at position `at`.
pub fn read_list(b: &[u8], at: usize) -> (r: Option<(Vec<u64>, usize)>)
    ensures
        match r {
            Some((l, next)) => take_list(b@, at as int) == Some((l@, next as int)),
            None => take_list(b@, at as int) is None,
        },
{
    match read_u64(b, at) {
        Some((n, start)) => {
            if n > ((b.len() - start) / 8) as u64 {
                return None;
            }
            let count: usize = n as usize;
            let mut l: Vec<u64> = Vec::new();
            let mut i: usize = 0;
            while i < count
                invariant
                    i <= count,
                    start + 8 * count <= b@.len() <= usize::MAX,
                    l@.len() == i,
                    forall|k: int|
                        0 <= k < i ==> l@[k] == u64_value(
                            #[trigger] b@.subrange(start + 8 * k, start + 8 * k + 8),
                        ),
                decreases count - i,
            {
                match read_u64(b, start + 8 * i) {
                    Some((x, _)) => {
                        l.push(x);
                    },
                    None => {
                        return None;
                    },
                }
                i += 1;
            }
            assert(l@ =~= Seq::new(
                n as nat,
                |i: int| u64_value(b@.subrange(start + 8 * i, start + 8 * i + 8)),
            ));
            Some((l, start + 8 * count))
        },
        None => None,
    }
}

/// Whether `a` comes before `b` in the order of the key-value engine: byte by
/// byte, a shorter key before its extensions.
pub open spec fn bytes_lt(a: Seq<u8>, b: Seq<u8>) -> bool {
    ||| a.len() < b.len() && a == b.subrange(0, a.len() as int)
    ||| exists|i: int|
        0 <= i < a.len() && i < b.len() && a[i] < b[i] && a.subrange(0, i) == b.subrange(0, i)
}

/// Of two keys at most one comes before the other.
pub proof fn lemma_bytes_lt_asymmetric(a: Seq<u8>, b: Seq<u8>)
    requires
        bytes_lt(a, b),
    ensures
        !bytes_lt(b, a),
{
    if bytes_lt(b, a) {
        let a_prefix = a.len() < b.len() && a == b.subrange(0, a.len() as int);
        let b_prefix = b.len() < a.len() && b == a.subrange(0, b.len() as int);
        if a_prefix {
            let j = choose|j: int|
                0 <= j < b.len() && j < a.len() && b[j] < a[j] && b.subrange(0, j) == a.subrange(
                    0,
                    j,
                );
            assert(a[j] == b.subrange(0, a.len() as int)[j]);
        } else if b_prefix {
            let i = choose|i: int|
                0 <= i < a.len() && i < b.len() && a[i] < b[i] && a.subrange(0, i) == b.subrange(
                    0,
                    i,
                );
            assert(b[i] == a.subrange(0, b.len() as int)[i]);
        } else {
            let i = choose|i: int|
                0 <= i < a.len() && i < b.len() && a[i] < b[i] && a.subrange(0, i) == b.subrange(
                    0,
                    i,
                );
            let j = choose|j: int|
                0 <= j < b.len() && j < a.len() && b[j] < a[j] && b.subrange(0, j) == a.subrange(
                    0,
                    j,
                );
            if i < j {
                assert(a[i] == a.subrange(0, j)[i]);
                assert(b[i] == b.subrange(0, j)[i]);
            } else if j < i {
                assert(a[j] == a.subrange(0, i)[j]);
                assert(b[j] == b.subrange(0, i)[j]);
            }
        }
    }
}

/// The byte order of two encoded numbers is the order of the numbers.
pub proof fn lemma_u64_order(x: u64, y: u64)
    ensures
        bytes_lt(u64_bytes(x), u64_bytes(y)) <==> x < y,
{
    let a = u64_bytes(x);
    let b = u64_bytes(y);
    lemma_u64_round_trip(x);
    lemma_u64_round_trip(y);
    let (a0, a1, a2, a3, a4, a5, a6, a7) = (a[0], a[1], a[2], a[3], a[4], a[5], a[6], a[7]);
    let (b0, b1, b2, b3, b4, b5, b6, b7) = (b[0], b[1], b[2], b[3], b[4], b[5], b[6], b[7]);
    assert(x == (a0 as u64) << 56 | (a1 as u64) << 48 | (a2 as u64) << 40 | (a3 as u64) << 32 | (
    a4 as u64) << 24 | (a5 as u64) << 16 | (a6 as u64) << 8 | (a7 as u64) && y == (b0 as u64) << 56
        | (b1 as u64) << 48 | (b2 as u64) << 40 | (b3 as u64) << 32 | (b4 as u64) << 24 | (b5 as u64)
        << 16 | (b6 as u64) << 8 | (b7 as u64) ==> (x < y <==> (a0 < b0 || (a0 == b0 && (a1 < b1 || (
    a1 == b1 && (a2 < b2 || (a2 == b2 && (a3 < b3 || (a3 == b3 && (a4 < b4 || (a4 == b4 && (a5 < b5
        || (a5 == b5 && (a6 < b6 || (a6 == b6 && a7 < b7)))))))))))))))) by (bit_vector);
    if x < y {
        let i: int = if a0 != b0 {
            0
        } else if a1 != b1 {
            1
        } else if a2 != b2 {
            2
        } else if a3 != b3 {
            3
        } else if a4 != b4 {
            4
        } else if a5 != b5 {
            5
        } else if a6 != b6 {
            6
        } else {
            7
        };
        assert(a.subrange(0, i) =~= b.subrange(0, i));
    }
    if bytes_lt(a, b) {
        let i = choose|i: int|
            0 <= i < a.len() && i < b.len() && a[i] < b[i] && a.subrange(0, i) == b.subrange(0, i);
        assert forall|k: int| 0 <= k < i implies a[k] == b[k] by {
            assert(a[k] == a.subrange(0, i)[k]);
        }
    }
}

} // verus!
