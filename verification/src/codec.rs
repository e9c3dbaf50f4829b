//! The byte layout in which the registry records are stored in account data:
//! little-endian integers, `u32`-length-prefixed UTF-8 strings, a `u32` count
//! before the elements of a list, fields in declaration order (the Borsh layout).

use vstd::prelude::*;
use vstd::slice::slice_subrange;
use vstd::utf8::{decode_utf8, encode_utf8, valid_utf8};

use crate::ids::AccountId;
use crate::state::{texts, EntryModel, ProgramEntry, RegistryState, StateModel};

verus! {

broadcast use {vstd::utf8::encode_utf8_valid_utf8, vstd::utf8::encode_utf8_decode_utf8};

// ---------------------------------------------------------------------------
// Integers
// ---------------------------------------------------------------------------

/// The four little-endian bytes of `x`.
pub open spec fn le_u32(x: u32) -> Seq<u8> {
    seq![
        (x & 0xff) as u8,
        ((x >> 8u32) & 0xff) as u8,
        ((x >> 16u32) & 0xff) as u8,
        ((x >> 24u32) & 0xff) as u8,
    ]
}

/// The eight little-endian bytes of `x`.
pub open spec fn le_u64(x: u64) -> Seq<u8> {
    seq![
        (x & 0xff) as u8,
        ((x >> 8u64) & 0xff) as u8,
        ((x >> 16u64) & 0xff) as u8,
        ((x >> 24u64) & 0xff) as u8,
        ((x >> 32u64) & 0xff) as u8,
        ((x >> 40u64) & 0xff) as u8,
        ((x >> 48u64) & 0xff) as u8,
        ((x >> 56u64) & 0xff) as u8,
    ]
}

pub open spec fn join_u32(b0: u8, b1: u8, b2: u8, b3: u8) -> u32 {
    (b0 as u32) | ((b1 as u32) << 8u32) | ((b2 as u32) << 16u32) | ((b3 as u32) << 24u32)
}

pub open spec fn join_u64(b0: u8, b1: u8, b2: u8, b3: u8, b4: u8, b5: u8, b6: u8, b7: u8) -> u64 {
    (b0 as u64) | ((b1 as u64) << 8u64) | ((b2 as u64) << 16u64) | ((b3 as u64) << 24u64) | ((b4
        as u64) << 32u64) | ((b5 as u64) << 40u64) | ((b6 as u64) << 48u64) | ((b7 as u64) << 56u64)
}

/// The little-endian `u32` stored at `pos`.
pub open spec fn u32_at(b: Seq<u8>, pos: int) -> u32 {
    join_u32(b[pos], b[pos + 1], b[pos + 2], b[pos + 3])
}

/// The little-endian `u64` stored at `pos`.
pub open spec fn u64_at(b: Seq<u8>, pos: int) -> u64 {
    join_u64(b[pos], b[pos + 1], b[pos + 2], b[pos + 3], b[pos + 4], b[pos + 5], b[pos + 6], b[pos + 7])
}

proof fn lemma_u32_roundtrip(x: u32)
    ensures
        u32_at(le_u32(x), 0) == x,
{
    let b = le_u32(x);
    let (b0, b1, b2, b3) = (b[0], b[1], b[2], b[3]);
    assert(join_u32(b0, b1, b2, b3) == x) by (bit_vector)
        requires
            b0 == (x & 0xff) as u8,
            b1 == ((x >> 8u32) & 0xff) as u8,
            b2 == ((x >> 16u32) & 0xff) as u8,
            b3 == ((x >> 24u32) & 0xff) as u8,
    ;
}

proof fn lemma_u32_bytes(b: Seq<u8>, pos: int)
    requires
        0 <= pos,
        pos + 4 <= b.len(),
    ensures
        le_u32(u32_at(b, pos)) == b.subrange(pos, pos + 4),
{
    let (b0, b1, b2, b3) = (b[pos], b[pos + 1], b[pos + 2], b[pos + 3]);
    let x = u32_at(b, pos);
    assert((x & 0xff) as u8 == b0 && ((x >> 8u32) & 0xff) as u8 == b1 && ((x >> 16u32) & 0xff) as u8
        == b2 && ((x >> 24u32) & 0xff) as u8 == b3) by (bit_vector)
        requires
            x == join_u32(b0, b1, b2, b3),
    ;
    assert(le_u32(x) =~= b.subrange(pos, pos + 4));
}

proof fn lemma_u64_roundtrip(x: u64)
    ensures
        u64_at(le_u64(x), 0) == x,
{
    let b = le_u64(x);
    let (b0, b1, b2, b3, b4, b5, b6, b7) = (b[0], b[1], b[2], b[3], b[4], b[5], b[6], b[7]);
    assert(join_u64(b0, b1, b2, b3, b4, b5, b6, b7) == x) by (bit_vector)
        requires
            b0 == (x & 0xff) as u8,
            b1 == ((x >> 8u64) & 0xff) as u8,
            b2 == ((x >> 16u64) & 0xff) as u8,
            b3 == ((x >> 24u64) & 0xff) as u8,
            b4 == ((x >> 32u64) & 0xff) as u8,
            b5 == ((x >> 40u64) & 0xff) as u8,
            b6 == ((x >> 48u64) & 0xff) as u8,
            b7 == ((x >> 56u64) & 0xff) as u8,
    ;
}

proof fn lemma_u64_bytes(b: Seq<u8>, pos: int)
    requires
        0 <= pos,
        pos + 8 <= b.len(),
    ensures
        le_u64(u64_at(b, pos)) == b.subrange(pos, pos + 8),
{
    let (b0, b1, b2, b3, b4, b5, b6, b7) = (
        b[pos],
        b[pos + 1],
        b[pos + 2],
        b[pos + 3],
        b[pos + 4],
        b[pos + 5],
        b[pos + 6],
        b[pos + 7],
    );
    let x = u64_at(b, pos);
    assert((x & 0xff) as u8 == b0 && ((x >> 8u64) & 0xff) as u8 == b1 && ((x >> 16u64) & 0xff) as u8
        == b2 && ((x >> 24u64) & 0xff) as u8 == b3 && ((x >> 32u64) & 0xff) as u8 == b4 && ((x
        >> 40u64) & 0xff) as u8 == b5 && ((x >> 48u64) & 0xff) as u8 == b6 && ((x >> 56u64) & 0xff)
        as u8 == b7) by (bit_vector)
        requires
            x == join_u64(b0, b1, b2, b3, b4, b5, b6, b7),
    ;
    assert(le_u64(x) =~= b.subrange(pos, pos + 8));
}

/// The number whose little-endian bytes are the eight from `pos`.
pub open spec fn le_value8(b: Seq<u8>, pos: int) -> int {
    b[pos] + 0x100 * b[pos + 1] + 0x1_0000 * b[pos + 2] + 0x100_0000 * b[pos + 3] + 0x1_0000_0000 * b[pos
        + 4] + 0x100_0000_0000 * b[pos + 5] + 0x1_0000_0000_0000 * b[pos + 6] + 0x100_0000_0000_0000 * b[pos
        + 7]
}

proof fn lemma_join_u64_value(b0: u8, b1: u8, b2: u8, b3: u8, b4: u8, b5: u8, b6: u8, b7: u8)
    ensures
        join_u64(b0, b1, b2, b3, b4, b5, b6, b7) as int == b0 + 0x100 * b1 + 0x1_0000 * b2 + 0x100_0000
            * b3 + 0x1_0000_0000 * b4 + 0x100_0000_0000 * b5 + 0x1_0000_0000_0000 * b6
            + 0x100_0000_0000_0000 * b7,
{
    assert(((b0 as u64) | ((b1 as u64) << 8u64) | ((b2 as u64) << 16u64) | ((b3 as u64) << 24u64) | ((b4
        as u64) << 32u64) | ((b5 as u64) << 40u64) | ((b6 as u64) << 48u64) | ((b7 as u64) << 56u64))
        == (b0 as u64) + 0x100u64 * (b1 as u64) + 0x1_0000u64 * (b2 as u64) + 0x100_0000u64 * (b3 as u64)
        + 0x1_0000_0000u64 * (b4 as u64) + 0x100_0000_0000u64 * (b5 as u64) + 0x1_0000_0000_0000u64 * (
    b6 as u64) + 0x100_0000_0000_0000u64 * (b7 as u64)) by (bit_vector);
}

/// The little-endian `u64` at `pos` is the number its eight bytes stand for.
proof fn lemma_u64_at_value(b: Seq<u8>, pos: int)
    ensures
        u64_at(b, pos) as int == le_value8(b, pos),
{
    lemma_join_u64_value(b[pos], b[pos + 1], b[pos + 2], b[pos + 3], b[pos + 4], b[pos + 5], b[pos + 6], b[pos + 7]);
}

/// The bytes stored for a registry state are its authority's 32 bytes, in
/// order, and then its program count as a little-endian `u64`: 40 bytes.
pub proof fn lemma_state_bytes_layout(m: StateModel)
    requires
        m.authority.len() == 32,
    ensures
        state_bytes(m).len() == 40,
        state_bytes(m).subrange(0, 32) == m.authority,
        le_value8(state_bytes(m), 32) == m.program_count,
{
    let b = state_bytes(m);
    let c = le_u64(m.program_count);
    assert(b.subrange(0, 32) =~= m.authority);
    assert forall|k: int| 0 <= k < 8 implies b[32 + k] == c[k] by {}
    lemma_u64_roundtrip(m.program_count);
    lemma_u64_at_value(c, 0);
    assert(le_value8(b, 32) == le_value8(c, 0));
}

// ---------------------------------------------------------------------------
// Layout
// ---------------------------------------------------------------------------

/// Why bytes are not the encoding of a record.
#[derive(Debug, Clone, Copy, PartialEq, Eq, Structural)]
pub enum DecodeError {
    /// The bytes end inside a field.
    UnexpectedEnd,
    /// A string field is not UTF-8.
    InvalidUtf8,
    /// Bytes are left over after the record.
    TrailingBytes,
}

/// A string: the `u32` length of its UTF-8 bytes, then the bytes.
pub open spec fn text_bytes(s: Seq<char>) -> Seq<u8> {
    le_u32(encode_utf8(s).len() as u32) + encode_utf8(s)
}

/// The encodings of the strings of `ts`, one after another.
pub open spec fn texts_body(ts: Seq<Seq<char>>) -> Seq<u8>
    decreases ts.len(),
{
    if ts.len() == 0 {
        seq![]
    } else {
        texts_body(ts.drop_last()) + text_bytes(ts.last())
    }
}

/// A list of strings: the `u32` count, then the strings.
pub open spec fn texts_bytes(ts: Seq<Seq<char>>) -> Seq<u8> {
    le_u32(ts.len() as u32) + texts_body(ts)
}

/// A program id: its eight words, each little-endian.
pub open spec fn program_id_le(pid: Seq<u32>) -> Seq<u8> {
    Seq::new(32, |i: int| le_u32(pid[i / 4])[i % 4])
}

/// The words of a program id stored in 32 bytes.
pub open spec fn words_le(b: Seq<u8>) -> Seq<u32> {
    Seq::new(8, |i: int| u32_at(b, 4 * i))
}

/// The length of a string's UTF-8 encoding fits in the `u32` prefix.
pub open spec fn text_fits(s: Seq<char>) -> bool {
    encode_utf8(s).len() <= u32::MAX
}

pub open spec fn texts_fit(ts: Seq<Seq<char>>) -> bool {
    &&& ts.len() <= u32::MAX
    &&& forall|i: int| 0 <= i < ts.len() ==> text_fits(#[trigger] ts[i])
}

/// A registry state whose fields have the sizes of the real type.
pub open spec fn state_well_formed(m: StateModel) -> bool {
    m.authority.len() == 32
}

/// A program entry whose fields have the sizes of the real type and whose
/// strings and tag list can be length-prefixed.
pub open spec fn entry_encodable(m: EntryModel) -> bool {
    &&& m.program_id.len() == 8
    &&& m.author.len() == 32
    &&& text_fits(m.name)
    &&& text_fits(m.version)
    &&& text_fits(m.idl_cid)
    &&& text_fits(m.description)
    &&& texts_fit(m.tags)
}

/// The bytes of a registry state: the authority, then the count.
pub open spec fn state_bytes(m: StateModel) -> Seq<u8> {
    m.authority + le_u64(m.program_count)
}

/// The bytes of a program entry, fields in declaration order.
#[verifier::opaque]
pub open spec fn entry_bytes(m: EntryModel) -> Seq<u8> {
    program_id_le(m.program_id) + (text_bytes(m.name) + (text_bytes(m.version) + (m.author + (
    text_bytes(m.idl_cid) + (text_bytes(m.description) + (le_u64(m.registered_at) + texts_bytes(
        m.tags,
    )))))))
}

/// The number whose little-endian bytes are the four from `pos`.
pub open spec fn le_value4(b: Seq<u8>, pos: int) -> int {
    b[pos] + 0x100 * b[pos + 1] + 0x1_0000 * b[pos + 2] + 0x100_0000 * b[pos + 3]
}

proof fn lemma_le_u32_value(x: u32)
    ensures
        le_value4(le_u32(x), 0) == x,
{
    let b = le_u32(x);
    let (b0, b1, b2, b3) = (b[0], b[1], b[2], b[3]);
    assert((b0 as u32) + 0x100u32 * (b1 as u32) + 0x1_0000u32 * (b2 as u32) + 0x100_0000u32 * (b3 as u32)
        == x) by (bit_vector)
        requires
            b0 == (x & 0xff) as u8,
            b1 == ((x >> 8u32) & 0xff) as u8,
            b2 == ((x >> 16u32) & 0xff) as u8,
            b3 == ((x >> 24u32) & 0xff) as u8,
    ;
}

/// The bytes stored for a program entry start with its eight program id words,
/// each as a little-endian `u32`, followed by the name's UTF-8 length as a
/// little-endian `u32` and the name's UTF-8 bytes.
pub proof fn lemma_entry_bytes_start(m: EntryModel)
    requires
        entry_encodable(m),
    ensures
        entry_bytes(m).len() >= 36 + encode_utf8(m.name).len(),
        forall|i: int| 0 <= i < 8 ==> #[trigger] le_value4(entry_bytes(m), 4 * i) == m.program_id[i],
        le_value4(entry_bytes(m), 32) == encode_utf8(m.name).len(),
        entry_bytes(m).subrange(36, 36 + encode_utf8(m.name).len() as int) == encode_utf8(m.name),
{
    reveal(entry_bytes);
    let b = entry_bytes(m);
    let n = encode_utf8(m.name);
    assert forall|i: int| 0 <= i < 8 implies #[trigger] le_value4(b, 4 * i) == m.program_id[i] by {
        let c = le_u32(m.program_id[i]);
        assert(b[4 * i] == c[0]);
        assert(b[4 * i + 1] == c[1]);
        assert(b[4 * i + 2] == c[2]);
        assert(b[4 * i + 3] == c[3]);
        lemma_le_u32_value(m.program_id[i]);
    }
    let c = le_u32(n.len() as u32);
    assert(b[32] == c[0] && b[33] == c[1] && b[34] == c[2] && b[35] == c[3]);
    lemma_le_u32_value(n.len() as u32);
    assert(b.subrange(36, 36 + n.len() as int) =~= n);
}

// ---------------------------------------------------------------------------
// Reading
// ---------------------------------------------------------------------------

/// The string stored at `pos`, and the position after it.
#[verifier::opaque]
pub open spec fn text_at(b: Seq<u8>, pos: int) -> Result<(Seq<char>, int), DecodeError> {
    if pos + 4 > b.len() {
        Err(DecodeError::UnexpectedEnd)
    } else {
        let n = u32_at(b, pos);
        if pos + 4 + n > b.len() {
            Err(DecodeError::UnexpectedEnd)
        } else {
            let raw = b.subrange(pos + 4, pos + 4 + n);
            if valid_utf8(raw) {
                Ok((decode_utf8(raw), pos + 4 + n))
            } else {
                Err(DecodeError::InvalidUtf8)
            }
        }
    }
}

/// `count` strings stored one after another from `pos`, and the position after them.
#[verifier::opaque]
pub open spec fn texts_at(b: Seq<u8>, pos: int, count: nat) -> Result<
    (Seq<Seq<char>>, int),
    DecodeError,
>
    decreases count,
{
    if count == 0 {
        Ok((seq![], pos))
    } else {
        match texts_at(b, pos, (count - 1) as nat) {
            Ok((ts, p)) => match text_at(b, p) {
                Ok((s, q)) => Ok((ts.push(s), q)),
                Err(e) => Err(e),
            },
            Err(e) => Err(e),
        }
    }
}

/// The registry state stored in `b`, which must hold nothing else.
pub open spec fn parse_state(b: Seq<u8>) -> Result<StateModel, DecodeError> {
    if b.len() < 40 {
        Err(DecodeError::UnexpectedEnd)
    } else if b.len() > 40 {
        Err(DecodeError::TrailingBytes)
    } else {
        Ok(StateModel { authority: b.subrange(0, 32), program_count: u64_at(b, 32) })
    }
}

/// The tag list and what follows a program entry's timestamp at `p`.
pub open spec fn parse_entry_tail(b: Seq<u8>, p: int) -> Result<Seq<Seq<char>>, DecodeError> {
    if p + 4 > b.len() {
        Err(DecodeError::UnexpectedEnd)
    } else {
        match texts_at(b, p + 4, u32_at(b, p) as nat) {
            Ok((tags, q)) => if q != b.len() {
                Err(DecodeError::TrailingBytes)
            } else {
                Ok(tags)
            },
            Err(e) => Err(e),
        }
    }
}

/// The program entry stored in `b`, which must hold nothing else.
pub open spec fn parse_entry(b: Seq<u8>) -> Result<EntryModel, DecodeError> {
    if b.len() < 32 {
        Err(DecodeError::UnexpectedEnd)
    } else {
        match text_at(b, 32) {
            Err(e) => Err(e),
            Ok((name, p1)) => match text_at(b, p1) {
                Err(e) => Err(e),
                Ok((version, p2)) => if p2 + 32 > b.len() {
                    Err(DecodeError::UnexpectedEnd)
                } else {
                    match text_at(b, p2 + 32) {
                        Err(e) => Err(e),
                        Ok((idl_cid, p3)) => match text_at(b, p3) {
                            Err(e) => Err(e),
                            Ok((description, p4)) => if p4 + 8 > b.len() {
                                Err(DecodeError::UnexpectedEnd)
                            } else {
                                match parse_entry_tail(b, p4 + 8) {
                                    Err(e) => Err(e),
                                    Ok(tags) => Ok(
                                        EntryModel {
                                            program_id: words_le(b.subrange(0, 32)),
                                            name,
                                            version,
                                            author: b.subrange(p2, p2 + 32),
                                            idl_cid,
                                            description,
                                            registered_at: u64_at(b, p4),
                                            tags,
                                        },
                                    ),
                                }
                            },
                        },
                    }
                },
            },
        }
    }
}

// ---------------------------------------------------------------------------
// Reading what was written, writing what was read
// ---------------------------------------------------------------------------

proof fn lemma_text_at_encoded(b: Seq<u8>, pos: int, s: Seq<char>)
    requires
        0 <= pos,
        text_fits(s),
        pos + text_bytes(s).len() <= b.len(),
        b.subrange(pos, pos + text_bytes(s).len()) == text_bytes(s),
    ensures
        text_at(b, pos) == Ok::<(Seq<char>, int), DecodeError>((s, pos + text_bytes(s).len())),
{
    reveal(text_at);
    let e = encode_utf8(s);
    let n = e.len() as u32;
    lemma_u32_roundtrip(n);
    assert(b.subrange(pos, pos + 4) =~= le_u32(n));
    assert(u32_at(b, pos) == u32_at(le_u32(n), 0));
    assert(n as int == e.len());
    let t = text_bytes(s);
    assert(t.subrange(4, 4 + e.len() as int) =~= e);
    assert(b.subrange(pos + 4, pos + 4 + n) =~= b.subrange(pos, pos + t.len()).subrange(
        4,
        4 + e.len() as int,
    ));
}

proof fn lemma_text_at_bytes(b: Seq<u8>, pos: int)
    requires
        0 <= pos,
        text_at(b, pos) is Ok,
    ensures
        ({
            let (s, q) = text_at(b, pos)->Ok_0;
            &&& text_fits(s)
            &&& q == pos + text_bytes(s).len()
            &&& q <= b.len()
            &&& b.subrange(pos, q) == text_bytes(s)
        }),
{
    reveal(text_at);
    let n = u32_at(b, pos);
    let raw = b.subrange(pos + 4, pos + 4 + n);
    vstd::utf8::decode_utf8_encode_utf8(raw);
    lemma_u32_bytes(b, pos);
    let s = decode_utf8(raw);
    assert(encode_utf8(s).len() as u32 == n);
    assert(b.subrange(pos, pos + 4 + n) =~= le_u32(n) + raw);
}

proof fn lemma_texts_at_encoded(b: Seq<u8>, pos: int, ts: Seq<Seq<char>>)
    requires
        0 <= pos,
        forall|i: int| 0 <= i < ts.len() ==> text_fits(#[trigger] ts[i]),
        pos + texts_body(ts).len() <= b.len(),
        b.subrange(pos, pos + texts_body(ts).len()) == texts_body(ts),
    ensures
        texts_at(b, pos, ts.len()) == Ok::<(Seq<Seq<char>>, int), DecodeError>(
            (ts, pos + texts_body(ts).len()),
        ),
    decreases ts.len(),
{
    reveal(texts_at);
    if ts.len() > 0 {
        let init = ts.drop_last();
        let body = texts_body(init);
        assert(texts_body(ts) == body + text_bytes(ts.last()));
        assert(b.subrange(pos, pos + body.len()) =~= body) by {
            assert(b.subrange(pos, pos + body.len()) =~= b.subrange(
                pos,
                pos + texts_body(ts).len(),
            ).subrange(0, body.len() as int));
        }
        assert forall|i: int| 0 <= i < init.len() implies text_fits(#[trigger] init[i]) by {
            assert(init[i] == ts[i]);
        }
        lemma_texts_at_encoded(b, pos, init);
        let p = pos + body.len();
        assert(b.subrange(p, p + text_bytes(ts.last()).len()) =~= text_bytes(ts.last())) by {
            assert(b.subrange(p, p + text_bytes(ts.last()).len()) =~= b.subrange(
                pos,
                pos + texts_body(ts).len(),
            ).subrange(body.len() as int, texts_body(ts).len() as int));
        }
        assert(text_fits(ts[ts.len() - 1]));
        lemma_text_at_encoded(b, p, ts.last());
        assert(init.push(ts.last()) =~= ts);
    } else {
        assert(ts =~= seq![]);
    }
}

proof fn lemma_texts_at_bytes(b: Seq<u8>, pos: int, count: nat)
    requires
        0 <= pos <= b.len(),
        texts_at(b, pos, count) is Ok,
    ensures
        ({
            let (ts, q) = texts_at(b, pos, count)->Ok_0;
            &&& ts.len() == count
            &&& forall|i: int| 0 <= i < ts.len() ==> text_fits(#[trigger] ts[i])
            &&& q == pos + texts_body(ts).len()
            &&& q <= b.len()
            &&& b.subrange(pos, q) == texts_body(ts)
        }),
    decreases count,
{
    reveal(texts_at);
    if count > 0 {
        lemma_texts_at_bytes(b, pos, (count - 1) as nat);
        let (init, p) = texts_at(b, pos, (count - 1) as nat)->Ok_0;
        lemma_text_at_bytes(b, p);
        let (s, q) = text_at(b, p)->Ok_0;
        let ts = init.push(s);
        assert(ts.drop_last() =~= init);
        assert(b.subrange(pos, q) =~= b.subrange(pos, p) + b.subrange(p, q));
        assert forall|i: int| 0 <= i < ts.len() implies text_fits(#[trigger] ts[i]) by {
            if i < init.len() {
                assert(ts[i] == init[i]);
            }
        }
    } else {
        assert(b.subrange(pos, pos) =~= Seq::<u8>::empty());
    }
}

proof fn lemma_program_id_le(pid: Seq<u32>)
    requires
        pid.len() == 8,
    ensures
        words_le(program_id_le(pid)) == pid,
{
    let b = program_id_le(pid);
    assert forall|i: int| 0 <= i < 8 implies #[trigger] words_le(b)[i] == pid[i] by {
        lemma_u32_roundtrip(pid[i]);
        assert(b.subrange(4 * i, 4 * i + 4) =~= le_u32(pid[i]));
        assert(u32_at(b, 4 * i) == u32_at(le_u32(pid[i]), 0));
    }
    assert(words_le(b) =~= pid);
}

proof fn lemma_words_le(b: Seq<u8>)
    requires
        b.len() == 32,
    ensures
        program_id_le(words_le(b)) == b,
{
    let w = words_le(b);
    assert forall|i: int| 0 <= i < 32 implies #[trigger] program_id_le(w)[i] == b[i] by {
        let k = i / 4;
        lemma_u32_bytes(b, 4 * k);
        assert(b.subrange(4 * k, 4 * k + 4)[i % 4] == b[i]);
    }
    assert(program_id_le(w) =~= b);
}

/// Reading the bytes of a registry state gives the state back.
pub proof fn lemma_parse_state_encoded(m: StateModel)
    requires
        state_well_formed(m),
    ensures
        parse_state(state_bytes(m)) == Ok::<StateModel, DecodeError>(m),
{
    let b = state_bytes(m);
    lemma_u64_roundtrip(m.program_count);
    assert(b.subrange(0, 32) =~= m.authority);
    assert(b.subrange(32, 40) =~= le_u64(m.program_count));
    assert(u64_at(b, 32) == u64_at(le_u64(m.program_count), 0));
}

/// Bytes that read as a registry state are exactly that state's bytes.
pub proof fn lemma_parse_state_bytes(b: Seq<u8>)
    requires
        parse_state(b) is Ok,
    ensures
        state_well_formed(parse_state(b)->Ok_0),
        state_bytes(parse_state(b)->Ok_0) == b,
{
    lemma_u64_bytes(b, 32);
    assert(state_bytes(parse_state(b)->Ok_0) =~= b);
}

/// A prefix `x` of what is stored from `pos`.
proof fn lemma_split_at(b: Seq<u8>, pos: int, x: Seq<u8>, rest: Seq<u8>)
    requires
        0 <= pos <= b.len(),
        b.subrange(pos, b.len() as int) == x + rest,
    ensures
        pos + x.len() <= b.len(),
        b.subrange(pos, pos + x.len()) == x,
        b.subrange(pos + x.len(), b.len() as int) == rest,
{
    assert(b.subrange(pos, pos + x.len()) =~= (x + rest).subrange(0, x.len() as int));
    assert(b.subrange(pos + x.len(), b.len() as int) =~= (x + rest).subrange(
        x.len() as int,
        (x + rest).len() as int,
    ));
}

/// A string stored at `pos`, followed by `rest`.
proof fn lemma_text_prefix(b: Seq<u8>, pos: int, s: Seq<char>, rest: Seq<u8>)
    requires
        0 <= pos <= b.len(),
        text_fits(s),
        b.subrange(pos, b.len() as int) == text_bytes(s) + rest,
    ensures
        text_at(b, pos) == Ok::<(Seq<char>, int), DecodeError>((s, pos + text_bytes(s).len())),
        b.subrange(pos + text_bytes(s).len(), b.len() as int) == rest,
{
    lemma_split_at(b, pos, text_bytes(s), rest);
    lemma_text_at_encoded(b, pos, s);
}

/// What follows a stored string.
proof fn lemma_text_split(b: Seq<u8>, pos: int)
    requires
        0 <= pos <= b.len(),
        text_at(b, pos) is Ok,
    ensures
        b.subrange(pos, b.len() as int) == text_bytes(text_at(b, pos)->Ok_0.0) + b.subrange(
            text_at(b, pos)->Ok_0.1,
            b.len() as int,
        ),
        text_fits(text_at(b, pos)->Ok_0.0),
        pos <= text_at(b, pos)->Ok_0.1 <= b.len(),
{
    lemma_text_at_bytes(b, pos);
    let q = text_at(b, pos)->Ok_0.1;
    assert(b.subrange(pos, b.len() as int) =~= b.subrange(pos, q) + b.subrange(q, b.len() as int));
}

proof fn lemma_bytes_split(b: Seq<u8>, pos: int, n: int)
    requires
        0 <= pos,
        0 <= n,
        pos + n <= b.len(),
    ensures
        b.subrange(pos, b.len() as int) == b.subrange(pos, pos + n) + b.subrange(
            pos + n,
            b.len() as int,
        ),
{
    assert(b.subrange(pos, b.len() as int) =~= b.subrange(pos, pos + n) + b.subrange(
        pos + n,
        b.len() as int,
    ));
}

/// Where the fields of an encoded program entry start.
pub open spec fn entry_offsets(m: EntryModel) -> (int, int, int, int) {
    let p1 = 32int + text_bytes(m.name).len();
    let p2 = p1 + text_bytes(m.version).len();
    let p3 = p2 + 32 + text_bytes(m.idl_cid).len();
    let p4 = p3 + text_bytes(m.description).len();
    (p1, p2, p3, p4)
}

/// What is stored from the start of each field of an encoded program entry.
#[verifier::spinoff_prover]
proof fn lemma_entry_suffixes(m: EntryModel)
    requires
        entry_encodable(m),
    ensures
        ({
            let b = entry_bytes(m);
            let len = b.len() as int;
            let (p1, p2, p3, p4) = entry_offsets(m);
            let r5 = le_u64(m.registered_at) + texts_bytes(m.tags);
            let r4 = text_bytes(m.description) + r5;
            let r3 = text_bytes(m.idl_cid) + r4;
            let r2 = m.author + r3;
            let r1 = text_bytes(m.version) + r2;
            let r0 = text_bytes(m.name) + r1;
            &&& 32 <= p1 <= p2
            &&& p2 + 32 <= p3 <= p4
            &&& len == p4 + 8 + texts_bytes(m.tags).len()
            &&& b.subrange(0, 32) == program_id_le(m.program_id)
            &&& b.subrange(32, len) == r0
            &&& b.subrange(p1, len) == r1
            &&& b.subrange(p2, len) == r2
            &&& b.subrange(p2 + 32, len) == r3
            &&& b.subrange(p3, len) == r4
            &&& b.subrange(p4, len) == r5
        }),
{
    let b = entry_bytes(m);
    let r5 = le_u64(m.registered_at) + texts_bytes(m.tags);
    let r4 = text_bytes(m.description) + r5;
    let r3 = text_bytes(m.idl_cid) + r4;
    let r2 = m.author + r3;
    let r1 = text_bytes(m.version) + r2;
    let r0 = text_bytes(m.name) + r1;
    let (p1, p2, p3, p4) = entry_offsets(m);
    reveal(entry_bytes);
    assert(b.subrange(0, b.len() as int) =~= b);
    lemma_split_at(b, 0, program_id_le(m.program_id), r0);
    lemma_split_at(b, 32, text_bytes(m.name), r1);
    lemma_split_at(b, p1, text_bytes(m.version), r2);
    lemma_split_at(b, p2, m.author, r3);
    lemma_split_at(b, p2 + 32, text_bytes(m.idl_cid), r4);
    lemma_split_at(b, p3, text_bytes(m.description), r5);
}

#[verifier::spinoff_prover]
proof fn lemma_entry_head_fields(m: EntryModel)
    requires
        entry_encodable(m),
    ensures
        ({
            let b = entry_bytes(m);
            let (p1, p2, p3, p4) = entry_offsets(m);
            &&& 32 <= p1 <= p2
            &&& p2 + 32 <= p3 <= p4
            &&& p4 <= b.len()
            &&& words_le(b.subrange(0, 32)) == m.program_id
            &&& text_at(b, 32) == Ok::<(Seq<char>, int), DecodeError>((m.name, p1))
            &&& text_at(b, p1) == Ok::<(Seq<char>, int), DecodeError>((m.version, p2))
            &&& b.subrange(p2, p2 + 32) == m.author
            &&& text_at(b, p2 + 32) == Ok::<(Seq<char>, int), DecodeError>((m.idl_cid, p3))
            &&& text_at(b, p3) == Ok::<(Seq<char>, int), DecodeError>((m.description, p4))
        }),
{
    let b = entry_bytes(m);
    let r5 = le_u64(m.registered_at) + texts_bytes(m.tags);
    let r4 = text_bytes(m.description) + r5;
    let r3 = text_bytes(m.idl_cid) + r4;
    let r2 = m.author + r3;
    let r1 = text_bytes(m.version) + r2;
    let (p1, p2, p3, p4) = entry_offsets(m);
    lemma_entry_suffixes(m);
    lemma_program_id_le(m.program_id);
    lemma_text_prefix(b, 32, m.name, r1);
    lemma_text_prefix(b, p1, m.version, r2);
    lemma_split_at(b, p2, m.author, r3);
    lemma_text_prefix(b, p2 + 32, m.idl_cid, r4);
    lemma_text_prefix(b, p3, m.description, r5);
}

#[verifier::spinoff_prover]
proof fn lemma_entry_tail_fields(m: EntryModel)
    requires
        entry_encodable(m),
    ensures
        ({
            let b = entry_bytes(m);
            let (p1, p2, p3, p4) = entry_offsets(m);
            &&& p4 + 8 <= b.len()
            &&& u64_at(b, p4) == m.registered_at
            &&& parse_entry_tail(b, p4 + 8) == Ok::<Seq<Seq<char>>, DecodeError>(m.tags)
        }),
{
    let b = entry_bytes(m);
    let (p1, p2, p3, p4) = entry_offsets(m);
    lemma_entry_suffixes(m);
    lemma_split_at(b, p4, le_u64(m.registered_at), texts_bytes(m.tags));
    lemma_u64_roundtrip(m.registered_at);
    assert(u64_at(b, p4) == u64_at(le_u64(m.registered_at), 0));
    let c = le_u32(m.tags.len() as u32);
    let body = texts_body(m.tags);
    lemma_split_at(b, p4 + 8, c, body);
    lemma_u32_roundtrip(m.tags.len() as u32);
    assert(u32_at(b, p4 + 8) == u32_at(c, 0));
    assert(body + Seq::<u8>::empty() =~= body);
    lemma_split_at(b, p4 + 12, body, Seq::<u8>::empty());
    lemma_texts_at_encoded(b, p4 + 12, m.tags);
}

/// Reading the bytes of a program entry gives the entry back.
pub proof fn lemma_parse_entry_encoded(m: EntryModel)
    requires
        entry_encodable(m),
    ensures
        parse_entry(entry_bytes(m)) == Ok::<EntryModel, DecodeError>(m),
{
    lemma_entry_head_fields(m);
    lemma_entry_tail_fields(m);
}

/// Bytes that read as a program entry are exactly that entry's bytes.
#[verifier::spinoff_prover]
#[verifier::rlimit(40)]
pub proof fn lemma_parse_entry_bytes(b: Seq<u8>)
    requires
        parse_entry(b) is Ok,
    ensures
        entry_encodable(parse_entry(b)->Ok_0),
        entry_bytes(parse_entry(b)->Ok_0) == b,
{
    let m = parse_entry(b)->Ok_0;
    let len = b.len() as int;
    lemma_text_split(b, 32);
    let p1 = text_at(b, 32)->Ok_0.1;
    lemma_text_split(b, p1);
    let p2 = text_at(b, p1)->Ok_0.1;
    lemma_bytes_split(b, p2, 32);
    lemma_text_split(b, p2 + 32);
    let p3 = text_at(b, p2 + 32)->Ok_0.1;
    lemma_text_split(b, p3);
    let p4 = text_at(b, p3)->Ok_0.1;
    lemma_bytes_split(b, p4, 8);
    lemma_u64_bytes(b, p4);
    lemma_bytes_split(b, p4 + 8, 4);
    lemma_u32_bytes(b, p4 + 8);
    let count = u32_at(b, p4 + 8);
    lemma_texts_at_bytes(b, p4 + 12, count as nat);
    lemma_words_le(b.subrange(0, 32));
    assert(m.tags.len() == count);
    assert(b.subrange(p4 + 8, len) == texts_bytes(m.tags));
    lemma_bytes_split(b, 0, 32);
    assert(b.subrange(0, len) =~= b);
    reveal(entry_bytes);
}

// ---------------------------------------------------------------------------
// Writing
// ---------------------------------------------------------------------------

fn push_u32(out: &mut Vec<u8>, x: u32)
    ensures
        final(out)@ == old(out)@ + le_u32(x),
{
    out.push((x & 0xff) as u8);
    out.push(((x >> 8u32) & 0xff) as u8);
    out.push(((x >> 16u32) & 0xff) as u8);
    out.push(((x >> 24u32) & 0xff) as u8);
    assert(out@ =~= old(out)@ + le_u32(x));
}

fn push_u64(out: &mut Vec<u8>, x: u64)
    ensures
        final(out)@ == old(out)@ + le_u64(x),
{
    out.push((x & 0xff) as u8);
    out.push(((x >> 8u64) & 0xff) as u8);
    out.push(((x >> 16u64) & 0xff) as u8);
    out.push(((x >> 24u64) & 0xff) as u8);
    out.push(((x >> 32u64) & 0xff) as u8);
    out.push(((x >> 40u64) & 0xff) as u8);
    out.push(((x >> 48u64) & 0xff) as u8);
    out.push(((x >> 56u64) & 0xff) as u8);
    assert(out@ =~= old(out)@ + le_u64(x));
}

fn push_bytes(out: &mut Vec<u8>, b: &[u8])
    ensures
        final(out)@ == old(out)@ + b@,
{
    let mut i: usize = 0;
    while i < b.len()
        invariant
            0 <= i <= b@.len(),
            out@ == old(out)@ + b@.subrange(0, i as int),
        decreases b@.len() - i,
    {
        out.push(b[i]);
        assert(b@.subrange(0, i + 1) =~= b@.subrange(0, i as int).push(b@[i as int]));
        i = i + 1;
    }
    assert(b@.subrange(0, b@.len() as int) =~= b@);
}

fn push_text(out: &mut Vec<u8>, s: &String)
    requires
        text_fits(s@),
    ensures
        final(out)@ == old(out)@ + text_bytes(s@),
{
    let b = s.as_str().as_bytes();
    assert(b@ == encode_utf8(s@));
    push_u32(out, b.len() as u32);
    push_bytes(out, b);
    assert(out@ =~= old(out)@ + text_bytes(s@));
}

fn push_texts(out: &mut Vec<u8>, v: &Vec<String>)
    requires
        texts_fit(texts(v@)),
    ensures
        final(out)@ == old(out)@ + texts_bytes(texts(v@)),
{
    let ghost ts = texts(v@);
    push_u32(out, v.len() as u32);
    let ghost head = out@;
    let mut i: usize = 0;
    assert(ts.take(0) =~= seq![]);
    while i < v.len()
        invariant
            0 <= i <= v@.len(),
            ts == texts(v@),
            texts_fit(ts),
            out@ == head + texts_body(ts.take(i as int)),
        decreases v@.len() - i,
    {
        assert(ts[i as int] == v@[i as int]@);
        push_text(out, &v[i]);
        assert(ts.take(i + 1).drop_last() =~= ts.take(i as int));
        assert(ts.take(i + 1).last() == ts[i as int]);
        i = i + 1;
    }
    assert(ts.take(v@.len() as int) =~= ts);
    assert(out@ =~= old(out)@ + texts_bytes(ts));
}

/// The bytes stored for a registry state.
pub fn encode_state(state: &RegistryState) -> (bytes: Vec<u8>)
    ensures
        bytes@ == state_bytes(state@),
        bytes@.len() == 40,
        bytes@.subrange(0, 32) == state.authority@,
        le_value8(bytes@, 32) == state.program_count,
{
    let mut out: Vec<u8> = Vec::new();
    push_bytes(&mut out, &state.authority.value);
    push_u64(&mut out, state.program_count);
    proof {
        lemma_state_bytes_layout(state@);
    }
    out
}

/// The bytes stored for a program entry.
pub fn encode_entry(entry: &ProgramEntry) -> (bytes: Vec<u8>)
    requires
        entry_encodable(entry@),
    ensures
        bytes@ == entry_bytes(entry@),
        forall|i: int| 0 <= i < 8 ==> #[trigger] le_value4(bytes@, 4 * i) == entry.program_id[i],
        le_value4(bytes@, 32) == encode_utf8(entry.name@).len(),
        bytes@.subrange(36, 36 + encode_utf8(entry.name@).len() as int) == encode_utf8(entry.name@),
{
    let mut out: Vec<u8> = Vec::new();
    let mut i: usize = 0;
    while i < 8
        invariant
            0 <= i <= 8,
            out@ == program_id_le(entry.program_id@).subrange(0, 4 * i),
        decreases 8 - i,
    {
        push_u32(&mut out, entry.program_id[i]);
        assert(out@ =~= program_id_le(entry.program_id@).subrange(0, 4 * (i + 1)));
        i = i + 1;
    }
    assert(out@ =~= program_id_le(entry.program_id@));
    push_text(&mut out, &entry.name);
    push_text(&mut out, &entry.version);
    push_bytes(&mut out, &entry.author.value);
    push_text(&mut out, &entry.idl_cid);
    push_text(&mut out, &entry.description);
    push_u64(&mut out, entry.registered_at);
    push_texts(&mut out, &entry.tags);
    reveal(entry_bytes);
    assert(out@ =~= entry_bytes(entry@));
    proof {
        lemma_entry_bytes_start(entry@);
    }
    out
}

// ---------------------------------------------------------------------------
// Reading
// ---------------------------------------------------------------------------

/// `String::from_utf8`: the bytes as a string when they are valid UTF-8.
/// The contract claims that the standard library accepts exactly the byte
/// strings that are UTF-8 and returns the characters they encode.
#[verifier::external_body]
fn utf8_string(bytes: &[u8]) -> (res: Option<String>)
    ensures
        res is Some <==> valid_utf8(bytes@),
        res matches Some(s) ==> s@ == decode_utf8(bytes@),
{
    String::from_utf8(bytes.to_vec()).ok()
}

fn read_u32(data: &[u8], pos: usize) -> (v: u32)
    requires
        pos + 4 <= data@.len(),
    ensures
        v == u32_at(data@, pos as int),
{
    (data[pos] as u32) | ((data[pos + 1] as u32) << 8u32) | ((data[pos + 2] as u32) << 16u32) | ((
    data[pos + 3] as u32) << 24u32)
}

fn read_u64(data: &[u8], pos: usize) -> (v: u64)
    requires
        pos + 8 <= data@.len(),
    ensures
        v == u64_at(data@, pos as int),
{
    (data[pos] as u64) | ((data[pos + 1] as u64) << 8u64) | ((data[pos + 2] as u64) << 16u64) | ((
    data[pos + 3] as u64) << 24u64) | ((data[pos + 4] as u64) << 32u64) | ((data[pos + 5] as u64)
        << 40u64) | ((data[pos + 6] as u64) << 48u64) | ((data[pos + 7] as u64) << 56u64)
}

fn read_account_id(data: &[u8], pos: usize) -> (id: AccountId)
    requires
        pos + 32 <= data@.len(),
    ensures
        id@ == data@.subrange(pos as int, pos + 32),
{
    let mut value = [0u8; 32];
    let mut i: usize = 0;
    while i < 32
        invariant
            0 <= i <= 32,
            pos + 32 <= data.len(),
            value@.len() == 32,
            forall|j: int| 0 <= j < i ==> value@[j] == data@[pos + j],
        decreases 32 - i,
    {
        value[i] = data[pos + i];
        i = i + 1;
    }
    assert(value@ =~= data@.subrange(pos as int, pos + 32));
    AccountId::new(value)
}

fn read_text(data: &[u8], pos: usize) -> (res: Result<(String, usize), DecodeError>)
    requires
        pos <= data@.len(),
    ensures
        match res {
            Ok((s, q)) => text_at(data@, pos as int) == Ok::<(Seq<char>, int), DecodeError>(
                (s@, q as int),
            ),
            Err(e) => text_at(data@, pos as int) == Err::<(Seq<char>, int), DecodeError>(e),
        },
{
    reveal(text_at);
    if data.len() - pos < 4 {
        return Err(DecodeError::UnexpectedEnd);
    }
    let n = read_u32(data, pos) as usize;
    if data.len() - pos - 4 < n {
        return Err(DecodeError::UnexpectedEnd);
    }
    let raw = slice_subrange(data, pos + 4, pos + 4 + n);
    match utf8_string(raw) {
        Some(s) => Ok((s, pos + 4 + n)),
        None => Err(DecodeError::InvalidUtf8),
    }
}

proof fn lemma_texts_at_err(b: Seq<u8>, pos: int, i: nat, j: nat)
    requires
        i <= j,
        texts_at(b, pos, i) is Err,
    ensures
        texts_at(b, pos, j) == texts_at(b, pos, i),
    decreases j,
{
    reveal(texts_at);
    if j > i {
        lemma_texts_at_err(b, pos, i, (j - 1) as nat);
    }
}

fn read_texts(data: &[u8], pos: usize, count: u32) -> (res: Result<(Vec<String>, usize), DecodeError>)
    requires
        pos <= data@.len(),
    ensures
        match res {
            Ok((v, q)) => texts_at(data@, pos as int, count as nat) == Ok::<
                (Seq<Seq<char>>, int),
                DecodeError,
            >((texts(v@), q as int)),
            Err(e) => texts_at(data@, pos as int, count as nat) == Err::<
                (Seq<Seq<char>>, int),
                DecodeError,
            >(e),
        },
{
    let mut v: Vec<String> = Vec::new();
    let mut p = pos;
    let mut i: u32 = 0;
    proof {
        reveal(texts_at);
        assert(texts(v@) =~= seq![]);
    }
    while i < count
        invariant
            0 <= i <= count,
            p <= data@.len(),
            texts_at(data@, pos as int, i as nat) == Ok::<(Seq<Seq<char>>, int), DecodeError>(
                (texts(v@), p as int),
            ),
        decreases count - i,
    {
        match read_text(data, p) {
            Ok((s, q)) => {
                proof {
                    reveal(texts_at);
                    lemma_text_at_bytes(data@, p as int);
                }
                let ghost before = v@;
                v.push(s);
                assert(texts(v@) =~= texts(before).push(s@));
                p = q;
                i = i + 1;
            },
            Err(e) => {
                proof {
                    reveal(texts_at);
                    lemma_texts_at_err(data@, pos as int, (i + 1) as nat, count as nat);
                }
                return Err(e);
            },
        }
    }
    Ok((v, p))
}

/// Read a registry state from the bytes of an account (all of them).
pub fn decode_state(data: &[u8]) -> (res: Result<RegistryState, DecodeError>)
    ensures
        match res {
            Ok(s) => parse_state(data@) == Ok::<StateModel, DecodeError>(s@),
            Err(e) => parse_state(data@) == Err::<StateModel, DecodeError>(e),
        },
        res is Ok <==> data@.len() == 40,
        res matches Ok(s) ==> s.authority@ == data@.subrange(0, 32) && s.program_count == le_value8(
            data@,
            32,
        ),
{
    if data.len() < 40 {
        return Err(DecodeError::UnexpectedEnd);
    }
    if data.len() > 40 {
        return Err(DecodeError::TrailingBytes);
    }
    let authority = read_account_id(data, 0);
    let program_count = read_u64(data, 32);
    proof {
        lemma_u64_at_value(data@, 32);
    }
    Ok(RegistryState { authority, program_count })
}

/// Read a program entry from the bytes of an account (all of them).
pub fn decode_entry(data: &[u8]) -> (res: Result<ProgramEntry, DecodeError>)
    ensures
        match res {
            Ok(e) => parse_entry(data@) == Ok::<EntryModel, DecodeError>(e@),
            Err(e) => parse_entry(data@) == Err::<EntryModel, DecodeError>(e),
        },
        res matches Ok(e) ==> {
            &&& forall|i: int| 0 <= i < 8 ==> #[trigger] le_value4(data@, 4 * i) == e.program_id[i]
            &&& le_value4(data@, 32) == encode_utf8(e.name@).len()
            &&& data@.subrange(36, 36 + encode_utf8(e.name@).len() as int) == encode_utf8(e.name@)
        },
{
    if data.len() < 32 {
        return Err(DecodeError::UnexpectedEnd);
    }
    let mut program_id = [0u32; 8];
    let mut i: usize = 0;
    while i < 8
        invariant
            0 <= i <= 8,
            32 <= data@.len(),
            program_id@.len() == 8,
            forall|j: int| 0 <= j < i ==> program_id@[j] == u32_at(data@, 4 * j),
        decreases 8 - i,
    {
        program_id[i] = read_u32(data, 4 * i);
        i = i + 1;
    }
    assert forall|j: int| 0 <= j < 8 implies u32_at(data@, 4 * j) == #[trigger] words_le(
        data@.subrange(0, 32),
    )[j] by {}
    assert(program_id@ =~= words_le(data@.subrange(0, 32)));
    let (name, p1) = read_text(data, 32)?;
    proof { lemma_text_at_bytes(data@, 32); }
    let (version, p2) = read_text(data, p1)?;
    proof { lemma_text_at_bytes(data@, p1 as int); }
    if data.len() - p2 < 32 {
        return Err(DecodeError::UnexpectedEnd);
    }
    let author = read_account_id(data, p2);
    let (idl_cid, p3) = read_text(data, p2 + 32)?;
    proof { lemma_text_at_bytes(data@, p2 + 32); }
    let (description, p4) = read_text(data, p3)?;
    proof { lemma_text_at_bytes(data@, p3 as int); }
    if data.len() - p4 < 8 {
        return Err(DecodeError::UnexpectedEnd);
    }
    let registered_at = read_u64(data, p4);
    if data.len() - (p4 + 8) < 4 {
        return Err(DecodeError::UnexpectedEnd);
    }
    let count = read_u32(data, p4 + 8);
    let (tags, q) = read_texts(data, p4 + 12, count)?;
    if q != data.len() {
        return Err(DecodeError::TrailingBytes);
    }
    let e = ProgramEntry {
        program_id,
        name,
        version,
        author,
        idl_cid,
        description,
        registered_at,
        tags,
    };
    proof {
        assert(parse_entry(data@) == Ok::<EntryModel, DecodeError>(e@));
        lemma_parse_entry_bytes(data@);
        lemma_entry_bytes_start(e@);
    }
    Ok(e)
}

/// Whether a string's length fits its `u32` prefix.
pub fn text_fits_prefix(s: &String) -> (res: bool)
    ensures
        res == text_fits(s@),
{
    let t = s.as_str();
    let b = t.as_bytes();
    assert(b@ == encode_utf8(s@));
    b.len() as u64 <= 0xffff_ffffu64
}

/// Whether a list of strings can be written: its length and each string's fit
/// their `u32` prefixes.
pub fn texts_fit_prefix(v: &Vec<String>) -> (res: bool)
    ensures
        res == texts_fit(texts(v@)),
{
    if v.len() as u64 > 0xffff_ffffu64 {
        return false;
    }
    let mut i: usize = 0;
    while i < v.len()
        invariant
            0 <= i <= v@.len(),
            v@.len() <= u32::MAX,
            forall|j: int| 0 <= j < i ==> text_fits(#[trigger] texts(v@)[j]),
        decreases v@.len() - i,
    {
        if !text_fits_prefix(&v[i]) {
            assert(texts(v@)[i as int] == v@[i as int]@);
            return false;
        }
        i = i + 1;
    }
    true
}

/// The registry state held by an account's data: `None` when the account holds
/// no data yet.
pub fn read_state_account(data: &[u8]) -> (res: Result<Option<RegistryState>, DecodeError>)
    ensures
        data@.len() == 0 ==> res is Ok && res->Ok_0 is None,
        data@.len() != 0 ==> match res {
            Ok(Some(s)) => parse_state(data@) == Ok::<StateModel, DecodeError>(s@),
            Ok(None) => false,
            Err(e) => parse_state(data@) == Err::<StateModel, DecodeError>(e),
        },
{
    if data.len() == 0 {
        return Ok(None);
    }
    match decode_state(data) {
        Ok(s) => Ok(Some(s)),
        Err(e) => Err(e),
    }
}

/// The program entry held by an account's data: `None` when the account holds
/// no data yet.
pub fn read_entry_account(data: &[u8]) -> (res: Result<Option<ProgramEntry>, DecodeError>)
    ensures
        data@.len() == 0 ==> res is Ok && res->Ok_0 is None,
        data@.len() != 0 ==> match res {
            Ok(Some(e)) => parse_entry(data@) == Ok::<EntryModel, DecodeError>(e@),
            Ok(None) => false,
            Err(e) => parse_entry(data@) == Err::<EntryModel, DecodeError>(e),
        },
{
    if data.len() == 0 {
        return Ok(None);
    }
    match decode_entry(data) {
        Ok(e) => Ok(Some(e)),
        Err(e) => Err(e),
    }
}

} // verus!
