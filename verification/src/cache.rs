//! The local cache of program entries: replacing an entry by its program id,
//! and searching by case-insensitive substring.

use vstd::prelude::*;
use vstd::utf8::encode_utf8;

use crate::state::texts;

verus! {

/// A cached program entry as the cache operations read it: its `program_id`,
/// `name` and `description` where they are strings, the tags that are strings,
/// and the stored record itself.
pub struct CacheRecord<T> {
    pub program_id: Option<String>,
    pub name: Option<String>,
    pub description: Option<String>,
    pub tags: Vec<String>,
    pub record: T,
}

// ---------------------------------------------------------------------------
// Location
// ---------------------------------------------------------------------------

/// `base` joined with the relative path `rest` (as `Path::join`): a `/` goes
/// between them unless `base` is empty or already ends with one.
pub open spec fn join_path(base: Seq<char>, rest: Seq<char>) -> Seq<char> {
    if base.len() == 0 || base.last() == '/' {
        base + rest
    } else {
        base + seq!['/'] + rest
    }
}

/// Where the cache file lives: `cache_override` when it is set and not empty,
/// else `.local/share/spelbook/programs.json` under `home` (`/tmp` when unset).
pub open spec fn cache_path_of(cache_override: Option<Seq<char>>, home: Option<Seq<char>>) -> Seq<char> {
    match cache_override {
        Some(p) if p.len() != 0 => p,
        _ => join_path(
            match home {
                Some(h) => h,
                None => "/tmp"@,
            },
            ".local/share/spelbook/programs.json"@,
        ),
    }
}

/// The cache file's path from the values of `SPELBOOK_CACHE_PATH` and `HOME`.
pub fn cache_path_from(cache_override: Option<String>, home: Option<String>) -> (path: String)
    ensures
        path@ == cache_path_of(
            match cache_override {
                Some(p) => Some(p@),
                None => None,
            },
            match home {
                Some(h) => Some(h@),
                None => None,
            },
        ),
{
    if let Some(p) = cache_override {
        if !p.as_str().is_empty() {
            return p;
        }
    }
    let mut base = match home {
        Some(h) => h,
        None => String::from_str("/tmp"),
    };
    let needs_sep = !base.as_str().is_empty() && !ends_with_slash(base.as_str());
    if needs_sep {
        base.append("/");
    }
    base.append(".local/share/spelbook/programs.json");
    proof {
        reveal_strlit("/");
    }
    base
}

fn ends_with_slash(s: &str) -> (res: bool)
    ensures
        res == (s@.len() > 0 && s@.last() == '/'),
{
    let b = s.as_bytes();
    assert(b@ == encode_utf8(s@));
    if b.len() == 0 {
        return false;
    }
    let last = b[b.len() - 1];
    proof {
        if s@.len() == 0 {
            assert(encode_utf8(s@) =~= seq![]);
        }
        lemma_last_byte_slash(s@);
    }
    last == 0x2f
}

/// The last byte of a scalar's encoding is `/` exactly when the scalar is `/`.
proof fn lemma_scalar_last_byte_slash(c: char)
    ensures
        (vstd::utf8::encode_scalar(c as u32).last() == 0x2f) == (c == '/'),
{
    let u = c as u32;
    vstd::utf8::char_is_scalar(c);
    if vstd::utf8::has_width_1_encoding(u) {
        assert(((u & 0x7F) as u8 == 0x2f) == (u == 0x2f)) by (bit_vector)
            requires
                u <= 0x7f,
        ;
        vstd::utf8::char_u32_cast(c, u);
        vstd::utf8::char_u32_cast('/', 0x2f);
    } else {
        assert((0x80 | (u & 0x3F) as u8) != 0x2f) by (bit_vector);
        assert(u != 0x2f);
    }
}

/// The last byte of an encoding is `/` exactly when the last character is.
#[verifier::spinoff_prover]
proof fn lemma_last_byte_slash(s: Seq<char>)
    requires
        s.len() > 0,
    ensures
        encode_utf8(s).len() > 0,
        (encode_utf8(s).last() == 0x2f) == (s.last() == '/'),
    decreases s.len(),
{
    let head = vstd::utf8::encode_scalar(s[0] as u32);
    vstd::utf8::char_is_scalar(s[0]);
    assert(head.len() > 0);
    if s.len() == 1 {
        assert(s.drop_first() =~= seq![]);
        assert(encode_utf8(s.drop_first()) =~= Seq::<u8>::empty());
        assert(encode_utf8(s) =~= head);
        lemma_scalar_last_byte_slash(s[0]);
    } else {
        lemma_last_byte_slash(s.drop_first());
        assert(s.drop_first().last() == s.last());
    }
}

// ---------------------------------------------------------------------------
// Upsert
// ---------------------------------------------------------------------------

/// Whether the record's program id is `key`.
pub open spec fn has_key<T>(r: CacheRecord<T>, key: Seq<char>) -> bool {
    r.program_id matches Some(k) && k@ == key
}

/// The first position at or after `from` whose record has program id `key`
/// (the length if there is none).
pub open spec fn key_position<T>(s: Seq<CacheRecord<T>>, key: Seq<char>, from: int) -> int
    decreases s.len() - from,
{
    if from < 0 || from >= s.len() {
        s.len() as int
    } else if has_key(s[from], key) {
        from
    } else {
        key_position(s, key, from + 1)
    }
}

/// No two records share a program id.
pub open spec fn keys_unique<T>(s: Seq<CacheRecord<T>>) -> bool {
    forall|i: int, j: int|
        #![trigger s[i], s[j]]
        0 <= i < s.len() && 0 <= j < s.len() && i != j && s[i].program_id is Some ==> !has_key(
            s[j],
            s[i].program_id->Some_0@,
        )
}

/// The records after storing `entry`: it replaces the first record with its
/// program id, or is appended; without a program id nothing changes.
pub open spec fn upserted<T>(s: Seq<CacheRecord<T>>, entry: CacheRecord<T>) -> Seq<CacheRecord<T>> {
    match entry.program_id {
        None => s,
        Some(k) => {
            let i = key_position(s, k@, 0);
            if i < s.len() {
                s.update(i, entry)
            } else {
                s.push(entry)
            }
        },
    }
}

fn same_text(a: &String, b: &String) -> (res: bool)
    ensures
        res == (a@ == b@),
{
    String::eq(a, b)
}

/// Add or replace an entry, keyed by `program_id`. Returns whether the entry
/// had a program id (without one, nothing is stored).
pub fn upsert_record<T>(entries: &mut Vec<CacheRecord<T>>, entry: CacheRecord<T>) -> (stored: bool)
    ensures
        stored == entry.program_id is Some,
        final(entries)@ == upserted(old(entries)@, entry),
{
    let key = match &entry.program_id {
        Some(k) => k.clone(),
        None => {
            return false;
        },
    };
    let mut i: usize = 0;
    while i < entries.len()
        invariant
            0 <= i <= entries@.len(),
            entries@ == old(entries)@,
            entry.program_id == Some(key),
            key_position(entries@, key@, 0) == key_position(entries@, key@, i as int),
        decreases entries@.len() - i,
    {
        let found = match &entries[i].program_id {
            Some(k) => same_text(k, &key),
            None => false,
        };
        if found {
            entries.set(i, entry);
            return true;
        }
        i = i + 1;
    }
    entries.push(entry);
    true
}

proof fn lemma_key_position<T>(s: Seq<CacheRecord<T>>, key: Seq<char>, from: int)
    requires
        0 <= from <= s.len(),
    ensures
        from <= key_position(s, key, from) <= s.len(),
        key_position(s, key, from) < s.len() ==> has_key(s[key_position(s, key, from)], key),
        forall|j: int| from <= j < key_position(s, key, from) ==> !has_key(#[trigger] s[j], key),
    decreases s.len() - from,
{
    if from < s.len() && !has_key(s[from], key) {
        lemma_key_position(s, key, from + 1);
    }
}

/// Storing an entry keeps program ids unique, and afterwards exactly the entry
/// holds its program id.
pub proof fn lemma_upsert_keeps_keys_unique<T>(s: Seq<CacheRecord<T>>, entry: CacheRecord<T>)
    requires
        keys_unique(s),
        entry.program_id is Some,
    ensures
        keys_unique(upserted(s, entry)),
        ({
            let r = upserted(s, entry);
            let k = entry.program_id->Some_0@;
            exists|i: int| 0 <= i < r.len() && r[i] == entry && forall|j: int|
                0 <= j < r.len() && j != i ==> !has_key(#[trigger] r[j], k)
        }),
{
    let k = entry.program_id->Some_0@;
    lemma_key_position(s, k, 0);
    let p = key_position(s, k, 0);
    let r = upserted(s, entry);
    if p < s.len() {
        assert forall|j: int| 0 <= j < r.len() && j != p implies !has_key(#[trigger] r[j], k) by {
            assert(r[j] == s[j]);
            if s[j].program_id is Some && has_key(s[j], k) {
                assert(has_key(s[p], s[j].program_id->Some_0@));
            }
        }
        assert(r[p] == entry);
    } else {
        assert forall|j: int| 0 <= j < r.len() && j != s.len() implies !has_key(#[trigger] r[j], k) by {
            assert(r[j] == s[j]);
        }
        assert(r[s.len() as int] == entry);
    }
    assert forall|i: int, j: int|
        #![trigger r[i], r[j]]
        0 <= i < r.len() && 0 <= j < r.len() && i != j && r[i].program_id is Some implies !has_key(
        r[j],
        r[i].program_id->Some_0@,
    ) by {
        let pos = if p < s.len() { p } else { s.len() as int };
        if i == pos {
        } else if j == pos {
            if has_key(r[j], r[i].program_id->Some_0@) {
                assert(has_key(r[i], k));
            }
        } else {
            assert(r[i] == s[i] && r[j] == s[j]);
        }
    }
}

// ---------------------------------------------------------------------------
// Search
// ---------------------------------------------------------------------------

/// `str::to_lowercase` applied to the characters `s`.
pub uninterp spec fn lowercase(s: Seq<char>) -> Seq<char>;

/// `str::to_lowercase`: the lowercase form of a string (Unicode lowercase
/// mapping of each character). The contract only names the result.
#[verifier::external_body]
fn to_lowercase(s: &str) -> (r: String)
    ensures
        r@ == lowercase(s@),
{
    s.to_lowercase()
}

/// `needle` occurs in `hay` as a run of consecutive bytes.
pub open spec fn bytes_contain(hay: Seq<u8>, needle: Seq<u8>) -> bool {
    exists|i: int| 0 <= i <= hay.len() - needle.len() && #[trigger] hay.subrange(i, i + needle.len()) == needle
}

/// `needle` occurs in `hay` (as `str::contains` finds it: in the UTF-8 bytes).
pub open spec fn text_contains(hay: Seq<char>, needle: Seq<char>) -> bool {
    bytes_contain(encode_utf8(hay), encode_utf8(needle))
}

/// A string field contains the lowercased query once lowercased itself.
pub open spec fn field_matches(f: Option<String>, q: Seq<char>) -> bool {
    f matches Some(s) && text_contains(lowercase(s@), q)
}

/// The name, the description or one of the tags matches the lowercased query.
pub open spec fn record_matches<T>(r: CacheRecord<T>, q: Seq<char>) -> bool {
    ||| field_matches(r.name, q)
    ||| field_matches(r.description, q)
    ||| exists|j: int| 0 <= j < r.tags@.len() && text_contains(lowercase(#[trigger] r.tags@[j]@), q)
}

/// The records that match the lowercased query, in their order.
pub open spec fn matching<T>(s: Seq<CacheRecord<T>>, q: Seq<char>) -> Seq<CacheRecord<T>>
    decreases s.len(),
{
    if s.len() == 0 {
        seq![]
    } else {
        (if record_matches(s[0], q) {
            seq![s[0]]
        } else {
            seq![]
        }) + matching(s.drop_first(), q)
    }
}

/// The search result: everything for an empty query, else the records that
/// match the lowercased query.
pub open spec fn search_result<T>(s: Seq<CacheRecord<T>>, query: Seq<char>) -> Seq<CacheRecord<T>> {
    if query.len() == 0 {
        s
    } else {
        matching(s, lowercase(query))
    }
}

/// Whether `needle` occurs in `hay` (both already lowercased).
pub fn text_matches(hay: &str, needle: &str) -> (res: bool)
    ensures
        res == text_contains(hay@, needle@),
{
    let h = hay.as_bytes();
    let n = needle.as_bytes();
    assert(h@ == encode_utf8(hay@));
    assert(n@ == encode_utf8(needle@));
    if n.len() > h.len() {
        assert(!bytes_contain(h@, n@));
        return false;
    }
    let mut i: usize = 0;
    while i <= h.len() - n.len()
        invariant
            h@ == encode_utf8(hay@),
            n@ == encode_utf8(needle@),
            n@.len() <= h@.len(),
            0 <= i <= h@.len() - n@.len() + 1,
            forall|k: int| 0 <= k < i ==> #[trigger] h@.subrange(k, k + n@.len()) != n@,
        decreases h@.len() - n@.len() + 1 - i,
    {
        let mut j: usize = 0;
        while j < n.len() && h[i + j] == n[j]
            invariant
                n@.len() <= h@.len(),
                n.len() <= h.len(),
                i <= h.len() - n.len(),
                0 <= i <= h@.len() - n@.len(),
                0 <= j <= n@.len(),
                forall|k: int| 0 <= k < j ==> h@[i + k] == n@[k],
            decreases n@.len() - j,
        {
            j = j + 1;
        }
        if j == n.len() {
            assert(h@.subrange(i as int, i + n@.len()) =~= n@);
            assert(bytes_contain(h@, n@));
            assert(text_contains(hay@, needle@));
            return true;
        }
        assert(h@.subrange(i as int, i + n@.len())[j as int] != n@[j as int]);
        i = i + 1;
    }
    assert forall|k: int| 0 <= k <= h@.len() - n@.len() implies #[trigger] h@.subrange(
        k,
        k + n@.len(),
    ) != n@ by {}
    false
}

fn field_matches_query(f: &Option<String>, q: &str) -> (res: bool)
    ensures
        res == field_matches(*f, q@),
{
    match f {
        Some(s) => {
            let lowered = to_lowercase(s.as_str());
            text_matches(lowered.as_str(), q)
        },
        None => false,
    }
}

/// Whether a record matches the lowercased query `q`.
pub fn record_matches_query<T>(r: &CacheRecord<T>, q: &str) -> (res: bool)
    ensures
        res == record_matches(*r, q@),
        res == ((r.name matches Some(s) && text_contains(lowercase(s@), q@)) || (r.description matches Some(
            s,
        ) && text_contains(lowercase(s@), q@)) || exists|j: int|
            0 <= j < r.tags@.len() && text_contains(lowercase(#[trigger] r.tags@[j]@), q@)),
{
    if field_matches_query(&r.name, q) {
        return true;
    }
    if field_matches_query(&r.description, q) {
        return true;
    }
    let mut j: usize = 0;
    while j < r.tags.len()
        invariant
            0 <= j <= r.tags@.len(),
            forall|k: int| 0 <= k < j ==> !text_contains(lowercase(#[trigger] r.tags@[k]@), q@),
        decreases r.tags@.len() - j,
    {
        let lowered = to_lowercase(r.tags[j].as_str());
        if text_matches(lowered.as_str(), q) {
            return true;
        }
        j = j + 1;
    }
    false
}

/// Search cached entries by case-insensitive substring match against the name,
/// the description and each tag. An empty query returns all entries.
pub fn search_records<T>(entries: Vec<CacheRecord<T>>, query: &str) -> (res: Vec<CacheRecord<T>>)
    ensures
        res@ == search_result(entries@, query@),
        query@.len() == 0 ==> res@ == entries@,
        query@.len() != 0 ==> forall|i: int|
            0 <= i < res@.len() ==> entries@.contains(#[trigger] res@[i]) && record_matches(
                res@[i],
                lowercase(query@),
            ),
        query@.len() != 0 ==> forall|i: int|
            0 <= i < entries@.len() && record_matches(#[trigger] entries@[i], lowercase(query@))
                ==> res@.contains(entries@[i]),
{
    proof {
        if query@.len() != 0 {
            lemma_matching_members(entries@, lowercase(query@));
        }
    }
    if query.is_empty() {
        return entries;
    }
    let q = to_lowercase(query);
    let mut rest = entries;
    let mut found: Vec<CacheRecord<T>> = Vec::new();
    let ghost all = rest@;
    assert(found@ + matching(rest@, q@) =~= matching(all, q@));
    while rest.len() > 0
        invariant
            found@ + matching(rest@, q@) == matching(all, q@),
        decreases rest@.len(),
    {
        let ghost before = rest@;
        let r = rest.remove(0);
        assert(rest@ =~= before.drop_first());
        let keep = record_matches_query(&r, q.as_str());
        if keep {
            found.push(r);
        }
        assert(found@ + matching(rest@, q@) =~= matching(all, q@));
    }
    assert(matching(rest@, q@) =~= seq![]);
    assert(found@ =~= matching(all, q@));
    found
}

// ---------------------------------------------------------------------------
// The cache file's JSON
// ---------------------------------------------------------------------------

/// One element of the cache file's JSON array, as serde_json reads it: its
/// `program_id`, `name` and `description` members where they are strings, its
/// `tags` member where it is an array (each element where it is a string), and
/// the element itself.
pub struct JsonEntry {
    pub program_id: Option<String>,
    pub name: Option<String>,
    pub description: Option<String>,
    pub tags: Option<Vec<Option<String>>>,
    pub value: serde_json::Value,
}

/// The text of a string that may be absent.
pub open spec fn opt_text(o: Option<String>) -> Option<Seq<char>> {
    match o {
        Some(s) => Some(s@),
        None => None,
    }
}

/// What a `JsonEntry` reads of its element.
pub open spec fn json_fields(e: JsonEntry) -> (
    Option<Seq<char>>,
    Option<Seq<char>>,
    Option<Seq<char>>,
    Option<Seq<Option<Seq<char>>>>,
    serde_json::Value,
) {
    (
        opt_text(e.program_id),
        opt_text(e.name),
        opt_text(e.description),
        match e.tags {
            Some(ts) => Some(opt_texts(ts@)),
            None => None,
        },
        e.value,
    )
}

/// The texts of strings that may be absent.
pub open spec fn opt_texts(ts: Seq<Option<String>>) -> Seq<Option<Seq<char>>> {
    ts.map_values(|t: Option<String>| opt_text(t))
}

/// What the entries read of their elements.
pub open spec fn entries_fields(v: Seq<JsonEntry>) -> Seq<
    (
        Option<Seq<char>>,
        Option<Seq<char>>,
        Option<Seq<char>>,
        Option<Seq<Option<Seq<char>>>>,
        serde_json::Value,
    ),
> {
    v.map_values(|e: JsonEntry| json_fields(e))
}

/// What `serde_json::from_str::<serde_json::Value>` reads in the text of the
/// cache file: `None` when the text is not JSON, `Some(None)` when it is JSON
/// but not an array, else its elements as `JsonEntry` holds them (the element's
/// members, and the element itself).
pub uninterp spec fn cache_json(text: Seq<char>) -> Option<
    Option<
        Seq<
            (
                Option<Seq<char>>,
                Option<Seq<char>>,
                Option<Seq<char>>,
                Option<Seq<Option<Seq<char>>>>,
                serde_json::Value,
            ),
        >,
    >,
>;

/// `serde_json::from_str::<serde_json::Value>` on the cache file's text: the
/// parser's message when it is not JSON, `None` when the value is not an array,
/// else each element with the members that `JsonEntry` holds. The contract
/// only names the result.
#[verifier::external_body]
fn parse_cache_json(text: &str) -> (r: Result<Option<Vec<JsonEntry>>, String>)
    ensures
        match r {
            Err(_) => cache_json(text@) is None,
            Ok(None) => cache_json(text@) matches Some(None),
            Ok(Some(v)) => cache_json(text@) == Some(Some(entries_fields(v@))),
        },
{
    let items = match serde_json::from_str::<serde_json::Value>(text) {
        Ok(serde_json::Value::Array(a)) => a,
        Ok(_) => return Ok(None),
        Err(e) => return Err(e.to_string()),
    };
    let text_of = |e: &serde_json::Value, k: &str| e[k].as_str().map(String::from);
    Ok(Some(items.into_iter().map(|e| JsonEntry {
        program_id: text_of(&e, "program_id"),
        name: text_of(&e, "name"),
        description: text_of(&e, "description"),
        tags: e["tags"].as_array().map(|t| t.iter().map(|x| x.as_str().map(String::from)).collect()),
        value: e,
    }).collect()))
}

/// The strings among `ts`, in order.
pub open spec fn string_items(ts: Seq<Option<Seq<char>>>) -> Seq<Seq<char>>
    decreases ts.len(),
{
    if ts.len() == 0 {
        seq![]
    } else {
        string_items(ts.drop_last()) + match ts.last() {
            Some(t) => seq![t],
            None => seq![],
        }
    }
}

/// The tags a cached entry is searched by: the strings of its `tags` array.
pub open spec fn string_tags(tags: Option<Seq<Option<Seq<char>>>>) -> Seq<Seq<char>> {
    match tags {
        Some(ts) => string_items(ts),
        None => seq![],
    }
}

/// A record's fields: what the cache operations read of it, and the stored
/// record itself.
pub open spec fn record_fields<T>(r: CacheRecord<T>) -> (
    Option<Seq<char>>,
    Option<Seq<char>>,
    Option<Seq<char>>,
    Seq<Seq<char>>,
    T,
) {
    (opt_text(r.program_id), opt_text(r.name), opt_text(r.description), texts(r.tags@), r.record)
}

pub(crate) fn string_tags_of(tags: Option<Vec<Option<String>>>) -> (r: Vec<String>)
    ensures
        texts(r@) == string_tags(
            match tags {
                Some(ts) => Some(opt_texts(ts@)),
                None => None,
            },
        ),
{
    let mut rest = match tags {
        Some(ts) => ts,
        None => {
            return Vec::new();
        },
    };
    let ghost all = opt_texts(rest@);
    let total = rest.len();
    let ghost n = total as nat;
    let mut out: Vec<String> = Vec::new();
    let mut i: usize = 0;
    while rest.len() > 0
        invariant
            all.len() == n,
            n <= usize::MAX,
            i + rest@.len() == n,
            opt_texts(rest@) == all.subrange(i as int, n as int),
            texts(out@) == string_items(all.subrange(0, i as int)),
        decreases rest@.len(),
    {
        let ghost before = rest@;
        let t = rest.remove(0);
        proof {
            assert(rest@ =~= before.drop_first());
            assert(opt_text(t) == all[i as int]) by {
                assert(opt_texts(before)[0] == opt_text(before[0]));
            }
            assert forall|j: int| 0 <= j < rest@.len() implies #[trigger] opt_texts(rest@)[j] == all.subrange(i + 1, n as int)[j] by {
                assert(opt_texts(before)[j + 1] == all.subrange(
                    i as int,
                    n as int,
                )[j + 1]);
            }
            assert(opt_texts(rest@) =~= all.subrange(i + 1, n as int));
            assert(all.subrange(0, i + 1).drop_last() =~= all.subrange(0, i as int));
        }
        let ghost old_out = out@;
        match t {
            Some(s) => {
                out.push(s);
                assert(texts(out@) =~= texts(old_out) + seq![all[i as int]->Some_0]);
            },
            None => {},
        }
        i = i + 1;
    }
    assert(all.subrange(0, n as int) =~= all);
    out
}

/// Why the cache file's text holds no entries.
#[derive(Debug)]
pub enum CacheLoadError {
    /// The text is not JSON; the parser's message.
    NotJson(String),
    /// The text is JSON, but not an array.
    NotArray,
}

/// Whether a load result agrees with what the cache file's text is: an error
/// of the matching kind when it is not a JSON array.
pub open spec fn load_error_matches<A>(
    r: Result<A, CacheLoadError>,
    parsed: Option<Option<Seq<(Option<Seq<char>>, Option<Seq<char>>, Option<Seq<char>>, Option<Seq<Option<Seq<char>>>>, serde_json::Value)>>>,
) -> bool {
    match parsed {
        None => r matches Err(CacheLoadError::NotJson(_)),
        Some(None) => r matches Err(CacheLoadError::NotArray),
        Some(Some(_)) => r is Ok,
    }
}

/// The records of the cache file's text: an error when the text is not JSON
/// or not an array, else one record per element, in order, which stores the
/// element itself and reads its string `program_id`, `name` and `description`
/// and the strings of its `tags`.
pub fn load_records(text: &str) -> (r: Result<Vec<CacheRecord<serde_json::Value>>, CacheLoadError>)
    ensures
        load_error_matches(r, cache_json(text@)),
        r matches Ok(rs) ==> {
            let fs = cache_json(text@)->Some_0->Some_0;
            &&& rs@.len() == fs.len()
            &&& forall|i: int|
                0 <= i < fs.len() ==> #[trigger] record_fields(rs@[i]) == (
                    fs[i].0,
                    fs[i].1,
                    fs[i].2,
                    string_tags(fs[i].3),
                    fs[i].4,
                )
        },
{
    let mut rest = match parse_cache_json(text) {
        Ok(Some(v)) => v,
        Ok(None) => {
            return Err(CacheLoadError::NotArray);
        },
        Err(e) => {
            return Err(CacheLoadError::NotJson(e));
        },
    };
    let ghost fs = entries_fields(rest@);
    let ghost n = rest@.len();
    let mut out: Vec<CacheRecord<serde_json::Value>> = Vec::new();
    while rest.len() > 0
        invariant
            fs.len() == n,
            out@.len() + rest@.len() == n,
            entries_fields(rest@) == fs.subrange(out@.len() as int, n as int),
            forall|i: int|
                0 <= i < out@.len() ==> #[trigger] record_fields(out@[i]) == (
                    fs[i].0,
                    fs[i].1,
                    fs[i].2,
                    string_tags(fs[i].3),
                    fs[i].4,
                ),
        decreases rest@.len(),
    {
        let ghost before = rest@;
        let ghost k = out@.len() as int;
        let e = rest.remove(0);
        proof {
            assert(rest@ =~= before.drop_first());
            assert(json_fields(e) == fs[k]) by {
                assert(entries_fields(before)[0] == json_fields(before[0]));
            }
            assert forall|j: int| 0 <= j < rest@.len() implies #[trigger] entries_fields(rest@)[j] == fs.subrange(k + 1, n as int)[j] by {
                assert(entries_fields(before)[j + 1] == fs.subrange(
                    k,
                    n as int,
                )[j + 1]);
            }
            assert(entries_fields(rest@) =~= fs.subrange(k + 1, n as int));
        }
        let JsonEntry { program_id, name, description, tags, value } = e;
        let tags = string_tags_of(tags);
        let rec = CacheRecord { program_id, name, description, tags, record: value };
        out.push(rec);
        assert(record_fields(out@[k]) == (fs[k].0, fs[k].1, fs[k].2, string_tags(fs[k].3), fs[k].4));
    }
    Ok(out)
}

/// A present text that, lowercased, contains the lowercased query `q`.
pub open spec fn text_field_matches(f: Option<Seq<char>>, q: Seq<char>) -> bool {
    f matches Some(s) && text_contains(lowercase(s), q)
}

/// An element of the cache file whose name, description or one of whose string
/// tags matches the lowercased query `q`.
pub open spec fn element_matches(
    f: (
        Option<Seq<char>>,
        Option<Seq<char>>,
        Option<Seq<char>>,
        Option<Seq<Option<Seq<char>>>>,
        serde_json::Value,
    ),
    q: Seq<char>,
) -> bool {
    ||| text_field_matches(f.1, q)
    ||| text_field_matches(f.2, q)
    ||| exists|j: int|
        0 <= j < string_tags(f.3).len() && text_contains(lowercase(#[trigger] string_tags(f.3)[j]), q)
}

/// The elements of the cache file that match the lowercased query, in order.
pub open spec fn matching_elements(
    fs: Seq<
        (
            Option<Seq<char>>,
            Option<Seq<char>>,
            Option<Seq<char>>,
            Option<Seq<Option<Seq<char>>>>,
            serde_json::Value,
        ),
    >,
    q: Seq<char>,
) -> Seq<serde_json::Value>
    decreases fs.len(),
{
    if fs.len() == 0 {
        seq![]
    } else {
        (if element_matches(fs[0], q) {
            seq![fs[0].4]
        } else {
            seq![]
        }) + matching_elements(fs.drop_first(), q)
    }
}

/// The stored records of a sequence of cache records.
pub open spec fn stored<T>(rs: Seq<CacheRecord<T>>) -> Seq<T> {
    rs.map_values(|r: CacheRecord<T>| r.record)
}

/// Records loaded from the elements `fs` match a query exactly where the
/// elements do, so the matching records store the matching elements.
proof fn lemma_matching_loaded(
    rs: Seq<CacheRecord<serde_json::Value>>,
    fs: Seq<
        (
            Option<Seq<char>>,
            Option<Seq<char>>,
            Option<Seq<char>>,
            Option<Seq<Option<Seq<char>>>>,
            serde_json::Value,
        ),
    >,
    q: Seq<char>,
)
    requires
        rs.len() == fs.len(),
        forall|i: int|
            0 <= i < fs.len() ==> #[trigger] record_fields(rs[i]) == (
                fs[i].0,
                fs[i].1,
                fs[i].2,
                string_tags(fs[i].3),
                fs[i].4,
            ),
    ensures
        stored(matching(rs, q)) == matching_elements(fs, q),
    decreases rs.len(),
{
    if rs.len() > 0 {
        let r = rs[0];
        let f = fs[0];
        assert(record_fields(rs[0]) == (f.0, f.1, f.2, string_tags(f.3), f.4));
        assert(texts(r.tags@) == string_tags(f.3));
        assert(record_matches(r, q) == element_matches(f, q)) by {
            if exists|j: int| 0 <= j < r.tags@.len() && text_contains(lowercase(#[trigger] r.tags@[j]@), q) {
                let j = choose|j: int| 0 <= j < r.tags@.len() && text_contains(lowercase(#[trigger] r.tags@[j]@), q);
                assert(texts(r.tags@)[j] == r.tags@[j]@);
                assert(text_contains(lowercase(string_tags(f.3)[j]), q));
            }
            if exists|j: int| 0 <= j < string_tags(f.3).len() && text_contains(lowercase(#[trigger] string_tags(f.3)[j]), q) {
                let j = choose|j: int| 0 <= j < string_tags(f.3).len() && text_contains(lowercase(#[trigger] string_tags(f.3)[j]), q);
                assert(texts(r.tags@)[j] == r.tags@[j]@);
                assert(text_contains(lowercase(r.tags@[j]@), q));
            }
        }
        assert forall|i: int| 0 <= i < fs.drop_first().len() implies #[trigger] record_fields(rs.drop_first()[i]) == (
            fs.drop_first()[i].0,
            fs.drop_first()[i].1,
            fs.drop_first()[i].2,
            string_tags(fs.drop_first()[i].3),
            fs.drop_first()[i].4,
        ) by {
            assert(record_fields(rs[i + 1]) == (fs[i + 1].0, fs[i + 1].1, fs[i + 1].2, string_tags(fs[i + 1].3), fs[i + 1].4));
        }
        lemma_matching_loaded(rs.drop_first(), fs.drop_first(), q);
        let head = if record_matches(r, q) { seq![r] } else { Seq::<CacheRecord<serde_json::Value>>::empty() };
        assert(matching(rs, q) == head + matching(rs.drop_first(), q));
        assert(stored(head + matching(rs.drop_first(), q)) =~= stored(head) + stored(matching(rs.drop_first(), q)));
        if record_matches(r, q) {
            assert(stored(head) =~= seq![f.4]);
        } else {
            assert(stored(head) =~= Seq::<serde_json::Value>::empty());
        }
    } else {
        assert(stored(matching(rs, q)) =~= Seq::<serde_json::Value>::empty());
    }
}

/// The elements of the cache file's text that a search finds: an error when
/// the text is not a JSON array; every element for an empty query; else the
/// elements whose name, description or one of whose string tags contains the
/// query, ignoring case, in the file's order.
pub fn search_cache_text(text: &str, query: &str) -> (r: Result<Vec<serde_json::Value>, CacheLoadError>)
    ensures
        load_error_matches(r, cache_json(text@)),
        r matches Ok(v) ==> v@ == (if query@.len() == 0 {
            cache_json(text@)->Some_0->Some_0.map_values(
                |f: (
                    Option<Seq<char>>,
                    Option<Seq<char>>,
                    Option<Seq<char>>,
                    Option<Seq<Option<Seq<char>>>>,
                    serde_json::Value,
                )| f.4,
            )
        } else {
            matching_elements(cache_json(text@)->Some_0->Some_0, lowercase(query@))
        }),
{
    let records = match load_records(text) {
        Ok(rs) => rs,
        Err(e) => {
            return Err(e);
        },
    };
    let ghost fs = cache_json(text@)->Some_0->Some_0;
    let ghost all = records@;
    let mut rest = search_records(records, query);
    let ghost found = rest@;
    let ghost n = found.len();
    let mut out: Vec<serde_json::Value> = Vec::new();
    while rest.len() > 0
        invariant
            found.len() == n,
            out@.len() + rest@.len() == n,
            rest@ == found.subrange(out@.len() as int, n as int),
            out@ == stored(found.subrange(0, out@.len() as int)),
        decreases rest@.len(),
    {
        let ghost before = rest@;
        let ghost k = out@.len() as int;
        let rec = rest.remove(0);
        assert(rest@ =~= before.drop_first());
        assert(rest@ =~= found.subrange(k + 1, n as int));
        out.push(rec.record);
        assert(out@ =~= stored(found.subrange(0, k + 1)));
    }
    assert(found.subrange(0, n as int) =~= found);
    proof {
        if query@.len() == 0 {
            assert(stored(all) =~= fs.map_values(
                |f: (
                    Option<Seq<char>>,
                    Option<Seq<char>>,
                    Option<Seq<char>>,
                    Option<Seq<Option<Seq<char>>>>,
                    serde_json::Value,
                )| f.4,
            )) by {
                assert forall|i: int| 0 <= i < fs.len() implies stored(all)[i] == fs[i].4 by {
                    assert(record_fields(all[i]) == (fs[i].0, fs[i].1, fs[i].2, string_tags(fs[i].3), fs[i].4));
                }
            }
        } else {
            lemma_matching_loaded(all, fs, lowercase(query@));
        }
    }
    Ok(out)
}

/// `needle` is contained in `hay` exactly when the UTF-8 bytes of `needle`
/// occur, consecutively, somewhere in those of `hay`.
pub proof fn lemma_text_contains_is_substring(hay: Seq<char>, needle: Seq<char>)
    ensures
        text_contains(hay, needle) <==> exists|i: int|
            0 <= i && i + encode_utf8(needle).len() <= encode_utf8(hay).len() && #[trigger] encode_utf8(
                hay,
            ).subrange(i, i + encode_utf8(needle).len()) == encode_utf8(needle),
{
}

/// A record matches a lowercased query exactly when its lowercased name, its
/// lowercased description or one of its lowercased tags contains the query
/// anywhere.
pub proof fn lemma_record_matches_contains<T>(r: CacheRecord<T>, q: Seq<char>)
    ensures
        record_matches(r, q) == ((r.name matches Some(s) && text_contains(lowercase(s@), q)) || (
        r.description matches Some(s) && text_contains(lowercase(s@), q)) || exists|j: int|
            0 <= j < r.tags@.len() && text_contains(lowercase(#[trigger] r.tags@[j]@), q)),
{
}

/// An element of the cache file matches a lowercased query exactly when its
/// lowercased string name, description or one of its lowercased string tags
/// contains the query anywhere.
pub proof fn lemma_element_matches_contains(
    f: (
        Option<Seq<char>>,
        Option<Seq<char>>,
        Option<Seq<char>>,
        Option<Seq<Option<Seq<char>>>>,
        serde_json::Value,
    ),
    q: Seq<char>,
)
    ensures
        element_matches(f, q) == ((f.1 matches Some(s) && text_contains(lowercase(s), q)) || (f.2 matches Some(
            s,
        ) && text_contains(lowercase(s), q)) || exists|j: int|
            0 <= j < string_tags(f.3).len() && text_contains(lowercase(#[trigger] string_tags(f.3)[j]), q)),
{
}

/// The records that match a query are records of the input that match it,
/// and every input record that matches is among them.
pub proof fn lemma_matching_members<T>(s: Seq<CacheRecord<T>>, q: Seq<char>)
    ensures
        forall|i: int|
            0 <= i < matching(s, q).len() ==> s.contains(#[trigger] matching(s, q)[i]) && record_matches(
                matching(s, q)[i],
                q,
            ),
        forall|i: int| 0 <= i < s.len() && record_matches(#[trigger] s[i], q) ==> matching(s, q).contains(s[i]),
    decreases s.len(),
{
    if s.len() > 0 {
        let rest = s.drop_first();
        lemma_matching_members(rest, q);
        let head = if record_matches(s[0], q) { seq![s[0]] } else { Seq::<CacheRecord<T>>::empty() };
        let m = matching(s, q);
        assert(m == head + matching(rest, q));
        assert forall|i: int| 0 <= i < m.len() implies s.contains(#[trigger] m[i]) && record_matches(m[i], q) by {
            if i < head.len() {
                assert(m[i] == s[0]);
                assert(s[0] == s[0]);
            } else {
                let k = i - head.len();
                assert(m[i] == matching(rest, q)[k]);
                let r = matching(rest, q)[k];
                assert(rest.contains(r));
                let j = choose|j: int| 0 <= j < rest.len() && rest[j] == r;
                assert(s[j + 1] == r);
            }
        }
        assert forall|i: int| 0 <= i < s.len() && record_matches(#[trigger] s[i], q) implies m.contains(s[i]) by {
            if i == 0 {
                assert(m[0] == s[0]);
            } else {
                assert(s[i] == rest[i - 1]);
                assert(matching(rest, q).contains(rest[i - 1]));
                let j = choose|j: int| 0 <= j < matching(rest, q).len() && matching(rest, q)[j] == rest[i - 1];
                assert(m[head.len() + j] == matching(rest, q)[j]);
            }
        }
    }
}

} // verus!
