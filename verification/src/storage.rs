//! What the storage operations compute around their HTTP requests: the
//! request URLs, the content identifier read from an upload response, and the
//! base64 text in which downloaded content is handed on.

use base64::{engine::general_purpose::STANDARD as BASE64, Engine};
use vstd::prelude::*;
use vstd::utf8::{
    encode_utf8, is_char_boundary, length_of_first_scalar, pop_first_scalar, valid_utf8,
};

verus! {

broadcast use {vstd::utf8::encode_utf8_valid_utf8, vstd::utf8::is_char_boundary_start_end_of_seq};

// ---------------------------------------------------------------------------
// Trimming ASCII bytes off text
// ---------------------------------------------------------------------------

/// `b` without the copies of `c` at its end.
pub open spec fn trim_end_byte(b: Seq<u8>, c: u8) -> Seq<u8>
    decreases b.len(),
{
    if b.len() > 0 && b.last() == c {
        trim_end_byte(b.drop_last(), c)
    } else {
        b
    }
}

/// `b` without the copies of `c` at its start.
pub open spec fn trim_start_byte(b: Seq<u8>, c: u8) -> Seq<u8>
    decreases b.len(),
{
    if b.len() > 0 && b[0] == c {
        trim_start_byte(b.drop_first(), c)
    } else {
        b
    }
}

/// The UTF-8 encoding of a concatenation is the concatenation of the encodings.
pub proof fn lemma_encode_utf8_concat(a: Seq<char>, b: Seq<char>)
    ensures
        encode_utf8(a + b) == encode_utf8(a) + encode_utf8(b),
    decreases a.len(),
{
    if a.len() == 0 {
        assert(a + b =~= b);
        assert(encode_utf8(a) =~= Seq::<u8>::empty());
        assert(encode_utf8(a) + encode_utf8(b) =~= encode_utf8(b));
    } else {
        assert((a + b).drop_first() =~= a.drop_first() + b);
        lemma_encode_utf8_concat(a.drop_first(), b);
        assert(encode_utf8(a + b) =~= encode_utf8(a) + encode_utf8(b));
    }
}

proof fn lemma_ascii_prefix_boundary(b: Seq<u8>, k: int)
    requires
        valid_utf8(b),
        0 <= k <= b.len(),
        forall|i: int| 0 <= i < k ==> b[i] < 0x80,
    ensures
        is_char_boundary(b, k),
    decreases k,
{
    if k > 0 {
        assert(length_of_first_scalar(b) == 1);
        let rest = pop_first_scalar(b);
        assert forall|i: int| 0 <= i < k - 1 implies rest[i] < 0x80 by {
            assert(rest[i] == b[i + 1]);
        }
        lemma_ascii_prefix_boundary(rest, k - 1);
    }
}

/// `s` without the ASCII character `c` at its end (as `str::trim_end_matches`).
fn trim_end_ascii(s: &str, c: u8) -> (r: &str)
    requires
        c < 0x80,
    ensures
        encode_utf8(r@) == trim_end_byte(encode_utf8(s@), c),
{
    let b = s.as_bytes();
    assert(b@ == encode_utf8(s@));
    let mut e: usize = b.len();
    assert(b@.subrange(0, e as int) =~= b@);
    while e > 0 && b[e - 1] == c
        invariant
            0 <= e <= b@.len(),
            trim_end_byte(b@, c) == trim_end_byte(b@.subrange(0, e as int), c),
            forall|j: int| e <= j < b@.len() ==> b@[j] == c,
        decreases e,
    {
        assert(b@.subrange(0, e as int).drop_last() =~= b@.subrange(0, e - 1));
        e = e - 1;
    }
    proof {
        if e < b@.len() {
            vstd::utf8::is_char_boundary_iff_is_leading_byte(b@, e as int);
        }
    }
    let (left, _) = s.split_at(e);
    assert(encode_utf8(left@) =~= b@.subrange(0, e as int));
    left
}

/// `s` without the ASCII character `c` at its start (as `str::trim_start_matches`).
fn trim_start_ascii(s: &str, c: u8) -> (r: &str)
    requires
        c < 0x80,
    ensures
        encode_utf8(r@) == trim_start_byte(encode_utf8(s@), c),
{
    let b = s.as_bytes();
    assert(b@ == encode_utf8(s@));
    let mut k: usize = 0;
    assert(b@.subrange(0, b@.len() as int) =~= b@);
    while k < b.len() && b[k] == c
        invariant
            0 <= k <= b@.len(),
            trim_start_byte(b@, c) == trim_start_byte(b@.subrange(k as int, b@.len() as int), c),
            forall|j: int| 0 <= j < k ==> b@[j] == c,
        decreases b@.len() - k,
    {
        assert(b@.subrange(k as int, b@.len() as int).drop_first() =~= b@.subrange(
            k + 1,
            b@.len() as int,
        ));
        k = k + 1;
    }
    proof {
        lemma_ascii_prefix_boundary(b@, k as int);
    }
    let (_, right) = s.split_at(k);
    assert(encode_utf8(right@) =~= b@.subrange(k as int, b@.len() as int));
    right
}

fn append_str(s: &mut String, t: &str)
    ensures
        encode_utf8(final(s)@) == encode_utf8(old(s)@) + encode_utf8(t@),
{
    s.append(t);
    proof {
        lemma_encode_utf8_concat(old(s)@, t@);
    }
}

// ---------------------------------------------------------------------------
// URLs
// ---------------------------------------------------------------------------

/// The URL to which a file is uploaded: the node URL without trailing `/`,
/// then `/api/storage/v1/data`.
pub fn upload_url(storage_url: &str) -> (url: String)
    ensures
        encode_utf8(url@) == trim_end_byte(encode_utf8(storage_url@), 0x2f) + encode_utf8(
            "/api/storage/v1/data"@,
        ),
{
    let mut url = String::from_str(trim_end_ascii(storage_url, 0x2f));
    append_str(&mut url, "/api/storage/v1/data");
    url
}

/// The URL from which the content `cid` is downloaded: the node URL without
/// trailing `/`, then `/api/storage/v1/data/<cid>/network/stream`.
pub fn download_url(storage_url: &str, cid: &str) -> (url: String)
    ensures
        encode_utf8(url@) == trim_end_byte(encode_utf8(storage_url@), 0x2f) + encode_utf8(
            "/api/storage/v1/data/"@,
        ) + encode_utf8(cid@) + encode_utf8("/network/stream"@),
{
    let mut url = String::from_str(trim_end_ascii(storage_url, 0x2f));
    append_str(&mut url, "/api/storage/v1/data/");
    append_str(&mut url, cid);
    append_str(&mut url, "/network/stream");
    url
}

// ---------------------------------------------------------------------------
// Upload response
// ---------------------------------------------------------------------------

/// Whether `c` has the Unicode `White_Space` property, which
/// `char::is_whitespace` tests: U+0009 to U+000D, U+0020, U+0085, U+00A0,
/// U+1680, U+2000 to U+200A, U+2028, U+2029, U+202F, U+205F and U+3000.
pub open spec fn is_white_space(c: char) -> bool {
    let u = c as u32;
    ||| 0x9 <= u <= 0xd
    ||| u == 0x20
    ||| u == 0x85
    ||| u == 0xa0
    ||| u == 0x1680
    ||| 0x2000 <= u <= 0x200a
    ||| u == 0x2028
    ||| u == 0x2029
    ||| u == 0x202f
    ||| u == 0x205f
    ||| u == 0x3000
}

/// `s` without the white space at its start.
pub open spec fn trim_start_white_space(s: Seq<char>) -> Seq<char>
    decreases s.len(),
{
    if s.len() > 0 && is_white_space(s[0]) {
        trim_start_white_space(s.drop_first())
    } else {
        s
    }
}

/// `s` without the white space at its end.
pub open spec fn trim_end_white_space(s: Seq<char>) -> Seq<char>
    decreases s.len(),
{
    if s.len() > 0 && is_white_space(s.last()) {
        trim_end_white_space(s.drop_last())
    } else {
        s
    }
}

/// `s` without leading and trailing white space.
pub open spec fn trim_white_space(s: Seq<char>) -> Seq<char> {
    trim_end_white_space(trim_start_white_space(s))
}

/// `str::trim`: the string without leading and trailing white space, where
/// white space is what `char::is_whitespace` accepts (the Unicode
/// `White_Space` property).
#[verifier::external_body]
fn trim(s: &str) -> (r: &str)
    ensures
        r@ == trim_white_space(s@),
{
    s.trim()
}

/// The `cid` member of the JSON object in `body`, when it is a string (as
/// `serde_json::from_str::<serde_json::Value>` and then `["cid"].as_str()` find
/// it).
pub uninterp spec fn json_cid_field(body: Seq<char>) -> Option<Seq<char>>;

/// `serde_json::from_str::<serde_json::Value>`, then `["cid"].as_str()`: the
/// `cid` string member of the JSON object that `body` holds, `None` when `body`
/// is not JSON or has no such member. The contract only names the result.
#[verifier::external_body]
fn json_cid(body: &str) -> (c: Option<String>)
    ensures
        match c {
            Some(s) => json_cid_field(body@) == Some(s@),
            None => json_cid_field(body@) is None,
        },
{
    match serde_json::from_str::<serde_json::Value>(body) {
        Ok(v) => v["cid"].as_str().map(String::from),
        Err(_) => None,
    }
}

/// The content identifier in an upload response: the `cid` string of the JSON
/// object that the body holds, or else the body without surrounding white
/// space and without the `"` around it.
pub fn cid_from_response(body: &str) -> (cid: String)
    ensures
        match json_cid_field(body@) {
            Some(c) => cid@ == c,
            None => encode_utf8(cid@) == trim_start_byte(
                trim_end_byte(encode_utf8(trim_white_space(body@)), 0x22),
                0x22,
            ),
        },
{
    match json_cid(body) {
        Some(c) => c,
        None => {
            let t = trim(body);
            let u = trim_end_ascii(t, 0x22);
            let v = trim_start_ascii(u, 0x22);
            String::from_str(v)
        },
    }
}

// ---------------------------------------------------------------------------
// Downloaded content as base64
// ---------------------------------------------------------------------------

/// The character of the standard base64 alphabet (`A-Z a-z 0-9 + /`) for the
/// six-bit value `v`.
pub open spec fn base64_char(v: int) -> char {
    if v < 26 {
        (0x41 + v) as char
    } else if v < 52 {
        (0x61 + v - 26) as char
    } else if v < 62 {
        (0x30 + v - 52) as char
    } else if v == 62 {
        '+'
    } else {
        '/'
    }
}

/// The standard base64 text of `bytes` (RFC 4648): each group of three bytes
/// becomes four characters, six bits each, most significant first; a last group
/// of one or two bytes is filled with zero bits and padded with `=`.
pub open spec fn base64_standard(bytes: Seq<u8>) -> Seq<char>
    decreases bytes.len(),
{
    if bytes.len() == 0 {
        seq![]
    } else if bytes.len() == 1 {
        let a = bytes[0] as int;
        seq![base64_char(a / 4), base64_char((a % 4) * 16), '=', '=']
    } else if bytes.len() == 2 {
        let (a, b) = (bytes[0] as int, bytes[1] as int);
        seq![base64_char(a / 4), base64_char((a % 4) * 16 + b / 16), base64_char((b % 16) * 4), '=']
    } else {
        let (a, b, c) = (bytes[0] as int, bytes[1] as int, bytes[2] as int);
        seq![
            base64_char(a / 4),
            base64_char((a % 4) * 16 + b / 16),
            base64_char((b % 16) * 4 + c / 64),
            base64_char(c % 64),
        ] + base64_standard(bytes.subrange(3, bytes.len() as int))
    }
}

/// `base64::engine::general_purpose::STANDARD.encode`: the standard, padded
/// base64 text of the bytes.
#[verifier::external_body]
fn base64_encode(bytes: &[u8]) -> (text: String)
    ensures
        text@ == base64_standard(bytes@),
{
    BASE64.encode(bytes)
}

/// `base64::engine::general_purpose::STANDARD.decode`. The engine requires
/// canonical padding and rejects nonzero trailing bits, so it accepts exactly the
/// texts that its encoder writes: the contract claims that a result is bytes
/// whose encoding is the text, and that the text of any bytes is decoded to them.
/// A refusal carries the engine's message, whose words are not stated.
#[verifier::external_body]
fn base64_decode(text: &str) -> (bytes: Result<Vec<u8>, String>)
    ensures
        bytes matches Ok(v) ==> base64_standard(v@) == text@,
        bytes matches Ok(v) ==> forall|w: Seq<u8>| #[trigger] base64_standard(w) == text@ ==> v@ == w,
        (exists|w: Seq<u8>| #[trigger] base64_standard(w) == text@) ==> bytes is Ok,
{
    match BASE64.decode(text) {
        Ok(v) => Ok(v),
        Err(e) => Err(e.to_string()),
    }
}

/// The base64 text in which downloaded content is handed on.
pub fn encode_content(bytes: &[u8]) -> (text: String)
    ensures
        text@ == base64_standard(bytes@),
{
    base64_encode(bytes)
}

/// The content that a base64 text stands for: an error, with the decoder's
/// message, when the text is not the standard base64 text of any bytes.
pub fn decode_content(text: &str) -> (bytes: Result<Vec<u8>, String>)
    ensures
        bytes is Ok <==> (exists|w: Seq<u8>| #[trigger] base64_standard(w) == text@),
        forall|w: Seq<u8>|
            #[trigger] base64_standard(w) == text@ ==> (bytes matches Ok(v) && v@ == w),
{
    base64_decode(text)
}

// ---------------------------------------------------------------------------
// IDL documents
// ---------------------------------------------------------------------------

#[verifier::external_type_specification]
#[verifier::external_body]
pub struct ExJsonValue(serde_json::Value);

/// The JSON value that `bytes` hold, as `serde_json::from_slice` reads it;
/// `None` when they hold none.
pub uninterp spec fn json_document(bytes: Seq<u8>) -> Option<serde_json::Value>;

/// `serde_json::from_slice::<serde_json::Value>`: the JSON value the bytes
/// hold, or the parser's message. The contract only names the value.
#[verifier::external_body]
fn json_from_slice(bytes: &[u8]) -> (r: Result<serde_json::Value, String>)
    ensures
        match r {
            Ok(v) => json_document(bytes@) == Some(v),
            Err(_) => json_document(bytes@) is None,
        },
{
    match serde_json::from_slice::<serde_json::Value>(bytes) {
        Ok(v) => Ok(v),
        Err(e) => Err(e.to_string()),
    }
}

/// The JSON document in `bytes`, or the parser's message when they hold none.
pub fn idl_from_bytes(bytes: &[u8]) -> (r: Result<serde_json::Value, String>)
    ensures
        match r {
            Ok(v) => json_document(bytes@) == Some(v),
            Err(_) => json_document(bytes@) is None,
        },
{
    json_from_slice(bytes)
}

/// Why downloaded content is not an IDL document.
pub enum IdlError {
    /// The content is not base64 text; the decoder's message.
    Base64(String),
    /// The decoded bytes are not JSON; the parser's message.
    NotJson(String),
}

/// The IDL document that base64 `content` stands for: a base64 error when the
/// content is not the base64 text of any bytes, else the JSON document those
/// bytes hold, or a JSON error when they hold none.
pub fn idl_from_content(content: &str) -> (r: Result<serde_json::Value, IdlError>)
    ensures
        r matches Err(IdlError::Base64(_)) <==> !(exists|w: Seq<u8>| #[trigger] base64_standard(w) == content@),
        forall|w: Seq<u8>|
            #[trigger] base64_standard(w) == content@ ==> match r {
                Ok(v) => json_document(w) == Some(v),
                Err(IdlError::NotJson(_)) => json_document(w) is None,
                Err(IdlError::Base64(_)) => false,
            },
{
    match decode_content(content) {
        Err(e) => Err(IdlError::Base64(e)),
        Ok(bytes) => match idl_from_bytes(bytes.as_slice()) {
            Ok(v) => Ok(v),
            Err(e) => Err(IdlError::NotJson(e)),
        },
    }
}

} // verus!
