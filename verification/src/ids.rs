use vstd::prelude::*;
use vstd::slice::slice_subrange;
use vstd::utf8::encode_utf8;

verus! {

/// The identifier of a program: eight 32-bit words.
pub type ProgramId = [u32; 8];

// ---------------------------------------------------------------------------
// Big-endian bytes of a program id
// ---------------------------------------------------------------------------

/// Byte `k` (0 = most significant) of the big-endian form of `w`.
pub open spec fn be_byte(w: u32, k: int) -> u8 {
    if k == 0 {
        (w / 0x100_0000) as u8
    } else if k == 1 {
        ((w / 0x1_0000) % 0x100) as u8
    } else if k == 2 {
        ((w / 0x100) % 0x100) as u8
    } else {
        (w % 0x100) as u8
    }
}

/// The word whose big-endian bytes are `a b c d`.
pub open spec fn be_word(a: u8, b: u8, c: u8, d: u8) -> u32 {
    (a * 0x100_0000int + b * 0x1_0000int + c * 0x100int + d) as u32
}

/// The 32 big-endian bytes of a program id, word after word.
pub open spec fn program_id_bytes(pid: Seq<u32>) -> Seq<u8> {
    Seq::new(32, |i: int| be_byte(pid[i / 4], i % 4))
}

/// The eight words whose big-endian bytes are `b` (read four at a time).
pub open spec fn words_from_be(b: Seq<u8>) -> Seq<u32> {
    Seq::new(8, |i: int| be_word(b[4 * i], b[4 * i + 1], b[4 * i + 2], b[4 * i + 3]))
}

/// Splitting a word into big-endian bytes and joining them again gives the word back.
pub proof fn lemma_be_word_bytes(w: u32)
    ensures
        be_word(be_byte(w, 0), be_byte(w, 1), be_byte(w, 2), be_byte(w, 3)) == w,
{
    let a = w / 0x100_0000;
    let b = (w / 0x1_0000) % 0x100;
    let c = (w / 0x100) % 0x100;
    let d = w % 0x100;
    assert(a * 0x100_0000 + b * 0x1_0000 + c * 0x100 + d == w) by (bit_vector)
        requires
            a == w / 0x100_0000,
            b == (w / 0x1_0000) % 0x100,
            c == (w / 0x100) % 0x100,
            d == w % 0x100,
    ;
    assert(a < 0x100 && b < 0x100 && c < 0x100 && d < 0x100) by (bit_vector)
        requires
            a == w / 0x100_0000,
            b == (w / 0x1_0000) % 0x100,
            c == (w / 0x100) % 0x100,
            d == w % 0x100,
    ;
}

/// Reading the big-endian bytes of a program id back as words gives the id.
pub proof fn lemma_words_from_program_id_bytes(pid: Seq<u32>)
    requires
        pid.len() == 8,
    ensures
        words_from_be(program_id_bytes(pid)) == pid,
{
    let b = program_id_bytes(pid);
    assert forall|i: int| 0 <= i < 8 implies #[trigger] words_from_be(b)[i] == pid[i] by {
        lemma_be_word_bytes(pid[i]);
        assert(b[4 * i] == be_byte(pid[i], 0));
        assert(b[4 * i + 1] == be_byte(pid[i], 1));
        assert(b[4 * i + 2] == be_byte(pid[i], 2));
        assert(b[4 * i + 3] == be_byte(pid[i], 3));
    }
    assert(words_from_be(b) =~= pid);
}

/// Distinct program ids have distinct byte representations.
pub proof fn lemma_program_id_bytes_injective(p1: Seq<u32>, p2: Seq<u32>)
    requires
        p1.len() == 8,
        p2.len() == 8,
        program_id_bytes(p1) == program_id_bytes(p2),
    ensures
        p1 == p2,
{
    lemma_words_from_program_id_bytes(p1);
    lemma_words_from_program_id_bytes(p2);
}

/// Convert a `ProgramId` to its canonical 32-byte big-endian representation.
pub fn program_id_to_bytes(program_id: &ProgramId) -> (bytes: [u8; 32])
    ensures
        bytes@ == program_id_bytes(program_id@),
{
    let mut bytes = [0u8; 32];
    let mut i: usize = 0;
    while i < 8
        invariant
            0 <= i <= 8,
            bytes@.len() == 32,
            forall|j: int| 0 <= j < 4 * i ==> bytes@[j] == be_byte(program_id@[j / 4], j % 4),
        decreases 8 - i,
    {
        let w = program_id[i];
        bytes[4 * i] = (w / 0x100_0000) as u8;
        bytes[4 * i + 1] = ((w / 0x1_0000) % 0x100) as u8;
        bytes[4 * i + 2] = ((w / 0x100) % 0x100) as u8;
        bytes[4 * i + 3] = (w % 0x100) as u8;
        i = i + 1;
    }
    assert(bytes@ =~= program_id_bytes(program_id@));
    bytes
}

// ---------------------------------------------------------------------------
// Hexadecimal text
// ---------------------------------------------------------------------------

/// Why a byte string is not hexadecimal text.
#[derive(Debug, Clone, Copy, PartialEq, Eq)]
pub enum HexError {
    /// The byte at `index` is not one of `0-9`, `a-f`, `A-F`.
    InvalidHexCharacter { c: char, index: usize },
    /// The text has an odd number of digits.
    OddLength,
    /// The text does not fit the fixed-size output it was decoded into.
    InvalidStringLength,
}

pub open spec fn is_hex_digit(c: u8) -> bool {
    (0x30 <= c <= 0x39) || (0x61 <= c <= 0x66) || (0x41 <= c <= 0x46)
}

/// The value of a hexadecimal digit.
pub open spec fn hex_value(c: u8) -> u8 {
    if 0x30 <= c <= 0x39 {
        (c - 0x30) as u8
    } else if 0x61 <= c <= 0x66 {
        (c - 0x61 + 10) as u8
    } else {
        (c - 0x41 + 10) as u8
    }
}

/// The first position at or after `from` that does not hold a hexadecimal digit
/// (the length of `b` if there is none).
pub open spec fn first_non_hex(b: Seq<u8>, from: int) -> int
    decreases b.len() - from,
{
    if from < 0 || from >= b.len() {
        b.len() as int
    } else if !is_hex_digit(b[from]) {
        from
    } else {
        first_non_hex(b, from + 1)
    }
}

/// The bytes that the digit pairs of `b` stand for.
pub open spec fn hex_bytes(b: Seq<u8>) -> Seq<u8> {
    Seq::new(b.len() / 2, |i: int| (hex_value(b[2 * i]) * 16 + hex_value(b[2 * i + 1])) as u8)
}

/// Decoding hexadecimal text of any even length into bytes; the first byte that
/// is not a digit is reported.
pub open spec fn hex_decode_result(b: Seq<u8>) -> Result<Seq<u8>, HexError> {
    if b.len() % 2 != 0 {
        Err(HexError::OddLength)
    } else if first_non_hex(b, 0) < b.len() {
        let i = first_non_hex(b, 0);
        Err(HexError::InvalidHexCharacter { c: b[i] as char, index: i as usize })
    } else {
        Ok(hex_bytes(b))
    }
}

/// `hex::decode`: hexadecimal text (upper, lower or mixed case) to bytes.
/// The contract states the crate's behaviour: an odd length fails first, then the
/// first byte that is not a digit, else each digit pair becomes one byte.
#[verifier::external_body]
fn hex_decode(data: &[u8]) -> (res: Result<Vec<u8>, HexError>)
    ensures
        match res {
            Ok(v) => hex_decode_result(data@) == Ok::<Seq<u8>, HexError>(v@),
            Err(e) => hex_decode_result(data@) == Err::<Seq<u8>, HexError>(e),
        },
{
    match hex::decode(data) {
        Ok(v) => Ok(v),
        Err(hex::FromHexError::InvalidHexCharacter { c, index }) => Err(
            HexError::InvalidHexCharacter { c, index },
        ),
        Err(hex::FromHexError::OddLength) => Err(HexError::OddLength),
        Err(hex::FromHexError::InvalidStringLength) => Err(HexError::InvalidStringLength),
    }
}

/// Why text is not a program id.
#[derive(Debug, Clone, Copy, PartialEq, Eq)]
pub enum ProgramIdError {
    /// After the `0x` prefixes are removed, the text is `len` bytes long, not 64.
    WrongLength { len: usize },
    /// The text is 64 bytes long but not hexadecimal.
    InvalidHex(HexError),
}

/// The text that the hex crate's `FromHexError` displays for `e`.
pub uninterp spec fn hex_error_message(e: HexError) -> Seq<char>;

/// `ToString::to_string` on the hex crate's `FromHexError` (its `Display`):
/// the error's text. The contract only names the result.
#[verifier::external_body]
pub(crate) fn hex_error_text(e: HexError) -> (m: String)
    ensures
        m@ == hex_error_message(e),
{
    let err = match e {
        HexError::InvalidHexCharacter { c, index } => hex::FromHexError::InvalidHexCharacter { c, index },
        HexError::OddLength => hex::FromHexError::OddLength,
        HexError::InvalidStringLength => hex::FromHexError::InvalidStringLength,
    };
    err.to_string()
}

/// The text that the command line gives for a program id it cannot read.
pub open spec fn program_id_error_message(e: ProgramIdError) -> Seq<char> {
    match e {
        ProgramIdError::WrongLength { len } => "program_id must be 64 hex characters (8 × u32 big-endian), got "@
            + decimal(len as nat) + " chars"@,
        ProgramIdError::InvalidHex(_) => "invalid hex in program_id"@,
    }
}

impl ProgramIdError {
    /// The text that the command line gives for this error.
    pub fn message(&self) -> (m: String)
        ensures
            m@ == program_id_error_message(*self),
    {
        match self {
            ProgramIdError::WrongLength { len } => {
                let mut m = String::from_str("program_id must be 64 hex characters (8 × u32 big-endian), got ");
                m.append(decimal_text(*len).as_str());
                m.append(" chars");
                m
            },
            ProgramIdError::InvalidHex(_) => String::from_str("invalid hex in program_id"),
        }
    }
}

/// `b` with every leading `0x` removed (as `str::trim_start_matches("0x")` does).
pub open spec fn strip_hex_prefix(b: Seq<u8>) -> Seq<u8>
    decreases b.len(),
{
    if b.len() >= 2 && b[0] == 0x30 && b[1] == 0x78 {
        strip_hex_prefix(b.subrange(2, b.len() as int))
    } else {
        b
    }
}

/// The program id written as the UTF-8 text `b`: 64 hexadecimal digits, after
/// any leading `0x`, for eight big-endian words.
pub open spec fn parse_program_id_result(b: Seq<u8>) -> Result<Seq<u32>, ProgramIdError> {
    let t = strip_hex_prefix(b);
    if t.len() != 64 {
        Err(ProgramIdError::WrongLength { len: t.len() as usize })
    } else {
        match hex_decode_result(t) {
            Ok(bytes) => Ok(words_from_be(bytes)),
            Err(e) => Err(ProgramIdError::InvalidHex(e)),
        }
    }
}

/// Parse a hex-encoded program id (64 hex digits, big-endian words, optional
/// leading `0x`) into a `ProgramId`.
pub fn parse_program_id(s: &str) -> (res: Result<ProgramId, ProgramIdError>)
    ensures
        match res {
            Ok(pid) => parse_program_id_result(encode_utf8(s@)) == Ok::<Seq<u32>, ProgramIdError>(
                pid@,
            ),
            Err(e) => parse_program_id_result(encode_utf8(s@)) == Err::<Seq<u32>, ProgramIdError>(
                e,
            ),
        },
{
    let b = s.as_bytes();
    let mut start: usize = 0;
    assert(b@.subrange(0, b@.len() as int) =~= b@);
    while 2 <= b.len() - start && b[start] == 0x30 && b[start + 1] == 0x78
        invariant
            0 <= start <= b@.len(),
            strip_hex_prefix(b@) == strip_hex_prefix(b@.subrange(start as int, b@.len() as int)),
        decreases b@.len() - start,
    {
        assert(b@.subrange(start as int, b@.len() as int).subrange(2, b@.len() - start)
            =~= b@.subrange(start + 2, b@.len() as int));
        start = start + 2;
    }
    let rest = slice_subrange(b, start, b.len());
    assert(strip_hex_prefix(rest@) == rest@);
    if rest.len() != 64 {
        return Err(ProgramIdError::WrongLength { len: rest.len() });
    }
    match hex_decode(rest) {
        Err(e) => Err(ProgramIdError::InvalidHex(e)),
        Ok(v) => {
            assert(v@ == hex_bytes(rest@));
            assert(v@.len() == 32);
            let mut pid: ProgramId = [0u32; 8];
            let mut i: usize = 0;
            while i < 8
                invariant
                    0 <= i <= 8,
                    v@.len() == 32,
                    pid@.len() == 8,
                    forall|j: int| 0 <= j < i ==> pid@[j] == #[trigger] words_from_be(v@)[j],
                decreases 8 - i,
            {
                let w = (v[4 * i] as u32) * 0x100_0000 + (v[4 * i + 1] as u32) * 0x1_0000
                    + (v[4 * i + 2] as u32) * 0x100 + (v[4 * i + 3] as u32);
                pid[i] = w;
                i = i + 1;
            }
            assert(pid@ =~= words_from_be(v@));
            Ok(pid)
        },
    }
}


/// The lowercase hexadecimal digit for `n` (`n < 16`).
pub open spec fn hex_digit_char(n: u8) -> char {
    if n < 10 {
        (0x30 + n) as char
    } else {
        (0x61 + n - 10) as char
    }
}

/// Lowercase hexadecimal text of `b`, two digits per byte, high nibble first.
pub open spec fn hex_text(b: Seq<u8>) -> Seq<char> {
    Seq::new(
        2 * b.len(),
        |i: int|
            hex_digit_char(
                if i % 2 == 0 {
                    b[i / 2] / 16
                } else {
                    b[i / 2] % 16
                },
            ),
    )
}

/// The 64-digit lowercase hexadecimal text of a program id.
pub open spec fn program_id_hex(pid: Seq<u32>) -> Seq<char> {
    hex_text(program_id_bytes(pid))
}

pub(crate) fn hex_digit_str(n: u8) -> (s: &'static str)
    requires
        n < 16,
    ensures
        s@ == seq![hex_digit_char(n)],
{
    proof {
        reveal_strlit("0");
        reveal_strlit("1");
        reveal_strlit("2");
        reveal_strlit("3");
        reveal_strlit("4");
        reveal_strlit("5");
        reveal_strlit("6");
        reveal_strlit("7");
        reveal_strlit("8");
        reveal_strlit("9");
        reveal_strlit("a");
        reveal_strlit("b");
        reveal_strlit("c");
        reveal_strlit("d");
        reveal_strlit("e");
        reveal_strlit("f");
    }
    match n {
        0 => "0",
        1 => "1",
        2 => "2",
        3 => "3",
        4 => "4",
        5 => "5",
        6 => "6",
        7 => "7",
        8 => "8",
        9 => "9",
        10 => "a",
        11 => "b",
        12 => "c",
        13 => "d",
        14 => "e",
        _ => "f",
    }
}

/// Format a program id as 64 lowercase hexadecimal digits (big-endian words).
pub fn format_program_id(pid: &ProgramId) -> (s: String)
    ensures
        s@ == program_id_hex(pid@),
{
    let bytes = program_id_to_bytes(pid);
    let mut s = String::new();
    let mut i: usize = 0;
    while i < 32
        invariant
            0 <= i <= 32,
            bytes@ == program_id_bytes(pid@),
            s@ == hex_text(bytes@.subrange(0, i as int)),
        decreases 32 - i,
    {
        let b = bytes[i];
        s.append(hex_digit_str(b / 16));
        s.append(hex_digit_str(b % 16));
        assert(s@ =~= hex_text(bytes@.subrange(0, i + 1)));
        i = i + 1;
    }
    assert(bytes@.subrange(0, 32) =~= bytes@);
    s
}

// ---------------------------------------------------------------------------
// Decimal text
// ---------------------------------------------------------------------------

/// The decimal digits of `n`, most significant first, without leading zeros.
pub open spec fn decimal(n: nat) -> Seq<char>
    decreases n,
{
    if n < 10 {
        seq![hex_digit_char(n as u8)]
    } else {
        decimal(n / 10).push(hex_digit_char((n % 10) as u8))
    }
}

/// The decimal text of `n` (as `format!("{}", n)` writes it).
pub fn decimal_text(n: usize) -> (s: String)
    ensures
        s@ == decimal(n as nat),
    decreases n,
{
    if n < 10 {
        String::from_str(hex_digit_str(n as u8))
    } else {
        let mut s = decimal_text(n / 10);
        s.append(hex_digit_str((n % 10) as u8));
        s
    }
}

proof fn lemma_all_hex_first_non_hex(b: Seq<u8>, from: int)
    requires
        0 <= from <= b.len(),
        forall|j: int| from <= j < b.len() ==> is_hex_digit(#[trigger] b[j]),
    ensures
        first_non_hex(b, from) == b.len(),
    decreases b.len() - from,
{
    if from < b.len() {
        lemma_all_hex_first_non_hex(b, from + 1);
    }
}

/// When every position from `from` on holds a digit, the first that does not
/// is the end; otherwise it is a position before the end that holds none.
proof fn lemma_first_non_hex(b: Seq<u8>, from: int)
    requires
        0 <= from <= b.len(),
    ensures
        from <= first_non_hex(b, from) <= b.len(),
        first_non_hex(b, from) < b.len() ==> !is_hex_digit(b[first_non_hex(b, from)]),
        first_non_hex(b, from) == b.len() <==> forall|j: int| from <= j < b.len() ==> is_hex_digit(#[trigger] b[j]),
    decreases b.len() - from,
{
    if from < b.len() && is_hex_digit(b[from]) {
        lemma_first_non_hex(b, from + 1);
        assert forall|j: int| from <= j < b.len() && first_non_hex(b, from) == b.len() implies is_hex_digit(
            #[trigger] b[j],
        ) by {
            if j > from {
                assert(from + 1 <= j);
            }
        }
    }
}

/// Joining four bytes into a word and splitting it again gives the bytes back.
proof fn lemma_be_bytes_of_word(a: u8, b: u8, c: u8, d: u8)
    ensures
        be_byte(be_word(a, b, c, d), 0) == a,
        be_byte(be_word(a, b, c, d), 1) == b,
        be_byte(be_word(a, b, c, d), 2) == c,
        be_byte(be_word(a, b, c, d), 3) == d,
{
    let w = be_word(a, b, c, d);
    assert(a * 0x100_0000int + b * 0x1_0000int + c * 0x100int + d <= 0xffff_ffff) by (nonlinear_arith)
        requires
            a < 256,
            b < 256,
            c < 256,
            d < 256,
    ;
    assert(w == a * 0x100_0000int + b * 0x1_0000int + c * 0x100int + d);
    let x: u32 = w;
    assert(x == (a as u32) * 0x100_0000 + (b as u32) * 0x1_0000 + (c as u32) * 0x100 + (d as u32));
    assert(((x / 0x100_0000) as u8 == a && ((x / 0x1_0000) % 0x100) as u8 == b && ((x / 0x100)
        % 0x100) as u8 == c && (x % 0x100) as u8 == d)) by (bit_vector)
        requires
            x == (a as u32) * 0x100_0000 + (b as u32) * 0x1_0000 + (c as u32) * 0x100 + (d as u32),
    ;
}

/// The big-endian bytes of the words read from 32 bytes are those bytes.
pub proof fn lemma_program_id_bytes_of_words(b: Seq<u8>)
    requires
        b.len() == 32,
    ensures
        program_id_bytes(words_from_be(b)) == b,
{
    let w = words_from_be(b);
    assert forall|i: int| 0 <= i < 32 implies #[trigger] program_id_bytes(w)[i] == b[i] by {
        let k = i / 4;
        lemma_be_bytes_of_word(b[4 * k], b[4 * k + 1], b[4 * k + 2], b[4 * k + 3]);
        assert(i == 4 * k + i % 4);
    }
    assert(program_id_bytes(w) =~= b);
}

/// Text is a program id exactly when, after its leading `0x` prefixes, it is 64
/// hexadecimal digits; otherwise the length error names that length when it is
/// not 64. The id's big-endian bytes are the bytes the digits stand for.
pub proof fn lemma_parse_program_id_result(b: Seq<u8>)
    ensures
        ({
            let t = strip_hex_prefix(b);
            &&& parse_program_id_result(b) is Ok <==> (t.len() == 64 && forall|j: int|
                0 <= j < 64 ==> is_hex_digit(#[trigger] t[j]))
            &&& t.len() != 64 ==> parse_program_id_result(b) == Err::<Seq<u32>, ProgramIdError>(
                ProgramIdError::WrongLength { len: t.len() as usize },
            )
            &&& parse_program_id_result(b) is Ok ==> hex_decode_result(t) == Ok::<Seq<u8>, HexError>(
                hex_bytes(t),
            ) && program_id_bytes(parse_program_id_result(b)->Ok_0) == hex_bytes(t)
        }),
{
    let t = strip_hex_prefix(b);
    if t.len() == 64 {
        lemma_first_non_hex(t, 0);
        if first_non_hex(t, 0) == t.len() {
            assert(hex_bytes(t).len() == 32);
            lemma_program_id_bytes_of_words(hex_bytes(t));
        }
    }
}

/// The text that `format_program_id` writes is read back by `parse_program_id`
/// as the same program id.
pub proof fn lemma_parse_formatted_program_id(pid: Seq<u32>)
    requires
        pid.len() == 8,
    ensures
        parse_program_id_result(encode_utf8(program_id_hex(pid))) == Ok::<
            Seq<u32>,
            ProgramIdError,
        >(pid),
{
    let bytes = program_id_bytes(pid);
    let chars = program_id_hex(pid);
    assert forall|i: int| 0 <= i < chars.len() implies ('\0' <= #[trigger] chars[i] <= '\u{7f}')
        && (chars[i] as u8 == 0x30 + (if i % 2 == 0 { bytes[i / 2] / 16 } else { bytes[i / 2] % 16 })
        || chars[i] as u8 == 0x61 + (if i % 2 == 0 { bytes[i / 2] / 16 } else { bytes[i / 2] % 16 }) - 10) by {
    }
    assert(vstd::utf8::is_ascii_chars(chars));
    vstd::utf8::is_ascii_chars_encode_utf8(chars);
    let b = encode_utf8(chars);
    assert(b.len() == 64);
    assert forall|j: int| 0 <= j < b.len() implies is_hex_digit(#[trigger] b[j]) by {
        assert(chars[j] as u8 == b[j]);
    }
    assert(b[1] != 0x78) by {
        assert(is_hex_digit(b[1]));
    }
    assert(strip_hex_prefix(b) == b);
    lemma_all_hex_first_non_hex(b, 0);
    assert forall|i: int| 0 <= i < 32 implies #[trigger] hex_bytes(b)[i] == bytes[i] by {
        assert(chars[2 * i] as u8 == b[2 * i]);
        assert(chars[2 * i + 1] as u8 == b[2 * i + 1]);
        let hi = bytes[i] / 16;
        let lo = bytes[i] % 16;
        assert((2 * i) / 2 == i);
        assert((2 * i + 1) / 2 == i);
        assert(hex_value(b[2 * i]) == hi);
        assert(hex_value(b[2 * i + 1]) == lo);
        assert(hi * 16 + lo == bytes[i]);
    }
    assert(hex_bytes(b) =~= bytes);
    lemma_words_from_program_id_bytes(pid);
}


// ---------------------------------------------------------------------------
// Account ids and PDA seeds
// ---------------------------------------------------------------------------

/// The 32-byte identifier of an account.
#[derive(Debug, Clone, Copy, PartialEq, Eq, Hash)]
pub struct AccountId {
    pub value: [u8; 32],
}

impl View for AccountId {
    type V = Seq<u8>;

    open spec fn view(&self) -> Seq<u8> {
        self.value@
    }
}

impl AccountId {
    pub fn new(value: [u8; 32]) -> (id: AccountId)
        ensures
            id@ == value@,
    {
        AccountId { value }
    }

    /// Whether two account ids are the same 32 bytes.
    pub fn same_as(&self, other: &AccountId) -> (res: bool)
        ensures
            res == (self@ == other@),
    {
        let mut i: usize = 0;
        while i < 32
            invariant
                0 <= i <= 32,
                self@.len() == 32,
                other@.len() == 32,
                forall|j: int| 0 <= j < i ==> self@[j] == other@[j],
            decreases 32 - i,
        {
            if self.value[i] != other.value[i] {
                return false;
            }
            i = i + 1;
        }
        assert(self@ =~= other@);
        true
    }
}

/// The 32-byte seed from which a program derives the id of an account it owns.
#[derive(Debug, Clone, Copy, PartialEq, Eq)]
pub struct PdaSeed {
    value: [u8; 32],
}

impl View for PdaSeed {
    type V = Seq<u8>;

    closed spec fn view(&self) -> Seq<u8> {
        self.value@
    }
}

impl PdaSeed {
    pub fn new(value: [u8; 32]) -> (seed: PdaSeed)
        ensures
            seed@ == value@,
    {
        PdaSeed { value }
    }

    pub fn as_bytes(&self) -> (b: &[u8; 32])
        ensures
            b@ == self@,
    {
        &self.value
    }
}

/// ASCII `registry_state__`.
pub open spec fn registry_state_tag() -> Seq<u8> {
    seq![
        0x72u8, 0x65, 0x67, 0x69, 0x73, 0x74, 0x72, 0x79, 0x5f, 0x73, 0x74, 0x61, 0x74, 0x65, 0x5f,
        0x5f,
    ]
}

/// ASCII `program_entry___`.
pub open spec fn program_entry_tag() -> Seq<u8> {
    seq![
        0x70u8, 0x72, 0x6f, 0x67, 0x72, 0x61, 0x6d, 0x5f, 0x65, 0x6e, 0x74, 0x72, 0x79, 0x5f, 0x5f,
        0x5f,
    ]
}

/// A 16-byte tag followed by 16 zero bytes.
pub open spec fn padded_tag(tag: Seq<u8>) -> Seq<u8> {
    Seq::new(32, |i: int| if i < 16 { tag[i] } else { 0u8 })
}

/// The seed of the singleton registry state account.
pub open spec fn registry_state_seed() -> Seq<u8> {
    padded_tag(registry_state_tag())
}

/// The seed of the entry account of `pid`: the padded tag XOR the id's bytes.
pub open spec fn program_entry_seed(pid: Seq<u32>) -> Seq<u8> {
    Seq::new(32, |i: int| padded_tag(program_entry_tag())[i] ^ program_id_bytes(pid)[i])
}

/// Compute the PDA seed of the singleton registry state account: the 16-byte
/// ASCII tag `registry_state__` in the first 16 bytes, zeros after it.
pub fn registry_state_pda_seed() -> (seed: PdaSeed)
    ensures
        seed@ == registry_state_seed(),
{
    let seed: [u8; 32] = [
        0x72, 0x65, 0x67, 0x69, 0x73, 0x74, 0x72, 0x79, 0x5f, 0x73, 0x74, 0x61, 0x74, 0x65, 0x5f,
        0x5f, 0, 0, 0, 0, 0, 0, 0, 0, 0, 0, 0, 0, 0, 0, 0, 0,
    ];
    assert(seed@ =~= registry_state_seed());
    PdaSeed::new(seed)
}

/// Compute the PDA seed of a program entry: the 16-byte ASCII tag
/// `program_entry___` padded to 32 bytes, XOR the 32 bytes of the program id.
pub fn program_entry_pda_seed(program_id: &ProgramId) -> (seed: PdaSeed)
    ensures
        seed@ == program_entry_seed(program_id@),
{
    let pid_bytes = program_id_to_bytes(program_id);
    let mut seed: [u8; 32] = [
        0x70, 0x72, 0x6f, 0x67, 0x72, 0x61, 0x6d, 0x5f, 0x65, 0x6e, 0x74, 0x72, 0x79, 0x5f, 0x5f,
        0x5f, 0, 0, 0, 0, 0, 0, 0, 0, 0, 0, 0, 0, 0, 0, 0, 0,
    ];
    assert(seed@ =~= padded_tag(program_entry_tag()));
    let ghost tag = seed@;
    let mut i: usize = 0;
    while i < 32
        invariant
            0 <= i <= 32,
            seed@.len() == 32,
            tag == padded_tag(program_entry_tag()),
            pid_bytes@ == program_id_bytes(program_id@),
            forall|j: int| 0 <= j < i ==> seed@[j] == tag[j] ^ pid_bytes@[j],
            forall|j: int| i <= j < 32 ==> seed@[j] == tag[j],
        decreases 32 - i,
    {
        seed[i] = seed[i] ^ pid_bytes[i];
        i = i + 1;
    }
    assert(seed@ =~= program_entry_seed(program_id@));
    PdaSeed::new(seed)
}

/// Different program ids always give different program entry seeds.
pub proof fn lemma_program_entry_seed_injective(p1: ProgramId, p2: ProgramId)
    requires
        program_entry_seed(p1@) == program_entry_seed(p2@),
    ensures
        p1@ == p2@,
{
    let t = padded_tag(program_entry_tag());
    let b1 = program_id_bytes(p1@);
    let b2 = program_id_bytes(p2@);
    assert forall|i: int| 0 <= i < 32 implies b1[i] == b2[i] by {
        let x = t[i];
        let a = b1[i];
        let b = b2[i];
        assert(program_entry_seed(p1@)[i] == program_entry_seed(p2@)[i]);
        assert(program_entry_seed(p1@)[i] == x ^ a);
        assert(program_entry_seed(p2@)[i] == x ^ b);
        assert((x ^ a) == (x ^ b) ==> a == b) by (bit_vector);
    }
    assert(b1 =~= b2);
    lemma_program_id_bytes_injective(p1@, p2@);
}

} // verus!
