//! Requests to the registry as the C interface receives them: the fields read
//! from the JSON argument text, which must be present, in which order they are
//! checked, the instruction and ids that a complete request stands for, and the
//! texts with which refusals are answered.

use vstd::prelude::*;
use vstd::utf8::encode_utf8;

use crate::ids::{
    decimal, decimal_text, hex_error_message, hex_error_text, parse_program_id, parse_program_id_result,
    ProgramId, ProgramIdError,
};
use crate::cache::{opt_text, opt_texts, record_fields, string_tags, string_tags_of, CacheRecord};
use crate::state::{texts, Instruction};

verus! {

/// The fields of a JSON request, each as found: `None` where the field is
/// missing or not a string. `tags` holds the string elements of the `tags`
/// array (none when there is no such array).
pub struct RequestFields {
    pub sequencer_url: Option<String>,
    pub wallet_path: Option<String>,
    pub registry_program_id: Option<String>,
    pub account: Option<String>,
    pub program_id: Option<String>,
    pub name: Option<String>,
    pub version: Option<String>,
    pub idl_cid: Option<String>,
    pub description: Option<String>,
    pub logos_storage_url: Option<String>,
    pub file_path: Option<String>,
    pub cid: Option<String>,
    pub query: Option<String>,
    pub tags: Vec<String>,
}

/// A field that a request must carry.
#[derive(Debug, Clone, Copy, PartialEq, Eq, Structural)]
pub enum Field {
    SequencerUrl,
    RegistryProgramId,
    Account,
    ProgramId,
    Name,
    Version,
    IdlCid,
    LogosStorageUrl,
    FilePath,
    Cid,
    Query,
}

/// The key of a field in the JSON arguments.
pub open spec fn field_key(f: Field) -> Seq<char> {
    match f {
        Field::SequencerUrl => "sequencer_url"@,
        Field::RegistryProgramId => "registry_program_id"@,
        Field::Account => "account"@,
        Field::ProgramId => "program_id"@,
        Field::Name => "name"@,
        Field::Version => "version"@,
        Field::IdlCid => "idl_cid"@,
        Field::LogosStorageUrl => "logos_storage_url"@,
        Field::FilePath => "file_path"@,
        Field::Cid => "cid"@,
        Field::Query => "query"@,
    }
}

impl Field {
    /// The field's key in the JSON arguments.
    pub fn key(&self) -> (k: &'static str)
        ensures
            k@ == field_key(*self),
    {
        match self {
            Field::SequencerUrl => "sequencer_url",
            Field::RegistryProgramId => "registry_program_id",
            Field::Account => "account",
            Field::ProgramId => "program_id",
            Field::Name => "name",
            Field::Version => "version",
            Field::IdlCid => "idl_cid",
            Field::LogosStorageUrl => "logos_storage_url",
            Field::FilePath => "file_path",
            Field::Cid => "cid",
            Field::Query => "query",
        }
    }
}

/// Why a request is refused before anything is sent.
#[derive(Debug, Clone, Copy, PartialEq, Eq)]
pub enum RequestError {
    /// A required field is missing or not a string.
    MissingField(Field),
    /// A program id field is not 64 hexadecimal digits.
    InvalidProgramId(ProgramIdError),
}

/// The text with which the C interface answers a refused request.
pub open spec fn request_error_message(e: RequestError) -> Seq<char> {
    match e {
        RequestError::MissingField(f) => "missing field '"@ + field_key(f) + "'"@,
        RequestError::InvalidProgramId(ProgramIdError::WrongLength { len }) => "program_id_hex must be 64 hex chars (got "@
            + decimal(len as nat) + ")"@,
        RequestError::InvalidProgramId(ProgramIdError::InvalidHex(h)) => "invalid hex in program_id: "@
            + hex_error_message(h),
    }
}

impl RequestError {
    /// The text with which the C interface answers this refusal.
    pub fn message(&self) -> (m: String)
        ensures
            m@ == request_error_message(*self),
    {
        match self {
            RequestError::MissingField(f) => {
                let mut m = String::from_str("missing field '");
                m.append(f.key());
                m.append("'");
                m
            },
            RequestError::InvalidProgramId(ProgramIdError::WrongLength { len }) => {
                let mut m = String::from_str("program_id_hex must be 64 hex chars (got ");
                m.append(decimal_text(*len).as_str());
                m.append(")");
                m
            },
            RequestError::InvalidProgramId(ProgramIdError::InvalidHex(h)) => {
                let mut m = String::from_str("invalid hex in program_id: ");
                m.append(hex_error_text(*h).as_str());
                m
            },
        }
    }
}

/// Where a request goes: the sequencer, the wallet, the registry deployment.
pub struct Connection {
    pub sequencer_url: String,
    pub wallet_path: Option<String>,
    pub registry_program_id: ProgramId,
}

/// A transaction request: the connection, the signing account as written, the
/// program id as written, and the instruction to submit.
pub struct SubmitRequest {
    pub connection: Connection,
    pub account: String,
    pub program_id_text: String,
    pub instruction: Instruction,
}

/// The program id written in a present field.
pub open spec fn id_of(t: Option<String>) -> Result<Seq<u32>, ProgramIdError> {
    parse_program_id_result(encode_utf8(t->Some_0@))
}

/// A present field's text, or the empty text.
pub open spec fn text_or_empty(t: Option<String>) -> Seq<char> {
    match t {
        Some(s) => s@,
        None => seq![],
    }
}

/// The error that an absent field gives, if it is absent.
pub open spec fn absent(t: Option<String>, field: Field) -> Option<RequestError> {
    if t is None {
        Some(RequestError::MissingField(field))
    } else {
        None
    }
}

/// The first of two results that is an error.
pub open spec fn first_of(a: Option<RequestError>, b: Option<RequestError>) -> Option<RequestError> {
    if a is Some {
        a
    } else {
        b
    }
}

/// The error of parsing a present program id field, if it is not one.
pub open spec fn bad_id(t: Option<String>) -> Option<RequestError> {
    match id_of(t) {
        Ok(_) => None,
        Err(e) => Some(RequestError::InvalidProgramId(e)),
    }
}

/// Why a register request is refused: the required fields in order (sequencer
/// URL, registry program id, account, program id, name, version, IDL CID),
/// then the registry program id, then the program id.
pub open spec fn register_request_error(f: RequestFields) -> Option<RequestError> {
    first_of(
        absent(f.sequencer_url, Field::SequencerUrl),
        first_of(
            absent(f.registry_program_id, Field::RegistryProgramId),
            first_of(
                absent(f.account, Field::Account),
                first_of(
                    absent(f.program_id, Field::ProgramId),
                    first_of(
                        absent(f.name, Field::Name),
                        first_of(
                            absent(f.version, Field::Version),
                            first_of(
                                absent(f.idl_cid, Field::IdlCid),
                                first_of(bad_id(f.registry_program_id), bad_id(f.program_id)),
                            ),
                        ),
                    ),
                ),
            ),
        ),
    )
}

/// Why an update request is refused: the required fields in order (sequencer
/// URL, registry program id, account, program id), then the registry program
/// id, then the program id.
pub open spec fn update_request_error(f: RequestFields) -> Option<RequestError> {
    first_of(
        absent(f.sequencer_url, Field::SequencerUrl),
        first_of(
            absent(f.registry_program_id, Field::RegistryProgramId),
            first_of(
                absent(f.account, Field::Account),
                first_of(
                    absent(f.program_id, Field::ProgramId),
                    first_of(bad_id(f.registry_program_id), bad_id(f.program_id)),
                ),
            ),
        ),
    )
}

/// Why a lookup of one entry is refused: the sequencer URL, the registry
/// program id and the program id must be present, then both ids must parse.
pub open spec fn lookup_request_error(f: RequestFields) -> Option<RequestError> {
    first_of(
        absent(f.sequencer_url, Field::SequencerUrl),
        first_of(
            absent(f.registry_program_id, Field::RegistryProgramId),
            first_of(
                absent(f.program_id, Field::ProgramId),
                first_of(bad_id(f.registry_program_id), bad_id(f.program_id)),
            ),
        ),
    )
}

/// Why a listing is refused: the sequencer URL and the registry program id
/// must be present, then the id must parse.
pub open spec fn list_request_error(f: RequestFields) -> Option<RequestError> {
    first_of(
        absent(f.sequencer_url, Field::SequencerUrl),
        first_of(
            absent(f.registry_program_id, Field::RegistryProgramId),
            bad_id(f.registry_program_id),
        ),
    )
}

/// The connection of an accepted request carries its fields.
pub open spec fn connection_matches(c: Connection, f: RequestFields) -> bool {
    &&& c.sequencer_url == f.sequencer_url->Some_0
    &&& c.wallet_path == f.wallet_path
    &&& c.registry_program_id@ == id_of(f.registry_program_id)->Ok_0
}

fn required(t: Option<String>, field: Field) -> (res: Result<String, RequestError>)
    ensures
        match res {
            Ok(s) => t == Some(s),
            Err(e) => t is None && e == RequestError::MissingField(field),
        },
{
    match t {
        Some(s) => Ok(s),
        None => Err(RequestError::MissingField(field)),
    }
}

fn program_id_in(t: &String) -> (res: Result<ProgramId, RequestError>)
    ensures
        match res {
            Ok(p) => id_of(Some(*t)) == Ok::<Seq<u32>, ProgramIdError>(p@),
            Err(e) => bad_id(Some(*t)) == Some(e),
        },
{
    match parse_program_id(t.as_str()) {
        Ok(p) => Ok(p),
        Err(e) => Err(RequestError::InvalidProgramId(e)),
    }
}

fn text_or_default(t: Option<String>) -> (s: String)
    ensures
        s@ == text_or_empty(t),
{
    match t {
        Some(s) => s,
        None => String::new(),
    }
}

/// Read a register request: the connection, the author as written, the
/// program id as written, and the `Register` instruction (an absent description
/// is empty).
pub fn register_request(f: RequestFields) -> (res: Result<SubmitRequest, RequestError>)
    ensures
        match res {
            Err(e) => register_request_error(f) == Some(e),
            Ok(r) => {
                &&& register_request_error(f) is None
                &&& connection_matches(r.connection, f)
                &&& r.account == f.account->Some_0
                &&& r.program_id_text == f.program_id->Some_0
                &&& r.instruction matches Instruction::Register {
                    program_id,
                    name,
                    version,
                    idl_cid,
                    description,
                    tags,
                }
                &&& program_id@ == id_of(f.program_id)->Ok_0
                &&& name == f.name->Some_0
                &&& version == f.version->Some_0
                &&& idl_cid == f.idl_cid->Some_0
                &&& description@ == text_or_empty(f.description)
                &&& tags == f.tags
            },
        },
{
    let ghost g = f;
    let RequestFields {
        sequencer_url,
        wallet_path,
        registry_program_id,
        account,
        program_id,
        name,
        version,
        idl_cid,
        description,
        tags,
        ..
    } = f;
    let sequencer_url = required(sequencer_url, Field::SequencerUrl)?;
    let registry_text = required(registry_program_id, Field::RegistryProgramId)?;
    let account = required(account, Field::Account)?;
    let program_id_text = required(program_id, Field::ProgramId)?;
    let name = required(name, Field::Name)?;
    let version = required(version, Field::Version)?;
    let idl_cid = required(idl_cid, Field::IdlCid)?;
    let registry_id = program_id_in(&registry_text)?;
    let pid = program_id_in(&program_id_text)?;
    let description = text_or_default(description);
    assert(register_request_error(g) is None);
    Ok(
        SubmitRequest {
            connection: Connection { sequencer_url, wallet_path, registry_program_id: registry_id },
            account,
            program_id_text,
            instruction: Instruction::Register {
                program_id: pid,
                name,
                version,
                idl_cid,
                description,
                tags,
            },
        },
    )
}

/// Read an update request: the connection, the author as written, the program
/// id as written, and the `Update` instruction (absent texts are empty, which
/// keeps the stored values).
pub fn update_request(f: RequestFields) -> (res: Result<SubmitRequest, RequestError>)
    ensures
        match res {
            Err(e) => update_request_error(f) == Some(e),
            Ok(r) => {
                &&& update_request_error(f) is None
                &&& connection_matches(r.connection, f)
                &&& r.account == f.account->Some_0
                &&& r.program_id_text == f.program_id->Some_0
                &&& r.instruction matches Instruction::Update {
                    program_id,
                    version,
                    idl_cid,
                    description,
                    tags,
                }
                &&& program_id@ == id_of(f.program_id)->Ok_0
                &&& version@ == text_or_empty(f.version)
                &&& idl_cid@ == text_or_empty(f.idl_cid)
                &&& description@ == text_or_empty(f.description)
                &&& tags == f.tags
            },
        },
{
    let ghost g = f;
    let RequestFields {
        sequencer_url,
        wallet_path,
        registry_program_id,
        account,
        program_id,
        name: _,
        version,
        idl_cid,
        description,
        tags,
        ..
    } = f;
    let sequencer_url = required(sequencer_url, Field::SequencerUrl)?;
    let registry_text = required(registry_program_id, Field::RegistryProgramId)?;
    let account = required(account, Field::Account)?;
    let program_id_text = required(program_id, Field::ProgramId)?;
    let registry_id = program_id_in(&registry_text)?;
    let pid = program_id_in(&program_id_text)?;
    assert(update_request_error(g) is None);
    Ok(
        SubmitRequest {
            connection: Connection { sequencer_url, wallet_path, registry_program_id: registry_id },
            account,
            program_id_text,
            instruction: Instruction::Update {
                program_id: pid,
                version: text_or_default(version),
                idl_cid: text_or_default(idl_cid),
                description: text_or_default(description),
                tags,
            },
        },
    )
}

/// Read a request for one entry: the connection and the program id looked up.
pub fn lookup_request(f: RequestFields) -> (res: Result<(Connection, ProgramId), RequestError>)
    ensures
        match res {
            Err(e) => lookup_request_error(f) == Some(e),
            Ok((c, p)) => {
                &&& lookup_request_error(f) is None
                &&& connection_matches(c, f)
                &&& p@ == id_of(f.program_id)->Ok_0
            },
        },
{
    let ghost g = f;
    let RequestFields { sequencer_url, wallet_path, registry_program_id, program_id, .. } = f;
    let sequencer_url = required(sequencer_url, Field::SequencerUrl)?;
    let registry_text = required(registry_program_id, Field::RegistryProgramId)?;
    let program_id_text = required(program_id, Field::ProgramId)?;
    let registry_id = program_id_in(&registry_text)?;
    let pid = program_id_in(&program_id_text)?;
    assert(lookup_request_error(g) is None);
    Ok((Connection { sequencer_url, wallet_path, registry_program_id: registry_id }, pid))
}

/// Read a request for the registry state: the connection.
pub fn list_request(f: RequestFields) -> (res: Result<Connection, RequestError>)
    ensures
        match res {
            Err(e) => list_request_error(f) == Some(e),
            Ok(c) => list_request_error(f) is None && connection_matches(c, f),
        },
{
    let ghost g = f;
    let RequestFields { sequencer_url, wallet_path, registry_program_id, .. } = f;
    let sequencer_url = required(sequencer_url, Field::SequencerUrl)?;
    let registry_text = required(registry_program_id, Field::RegistryProgramId)?;
    let registry_id = program_id_in(&registry_text)?;
    assert(list_request_error(g) is None);
    Ok(Connection { sequencer_url, wallet_path, registry_program_id: registry_id })
}

/// Read an upload request: the storage node's URL, then the path of the file.
pub fn upload_request(f: RequestFields) -> (res: Result<(String, String), RequestError>)
    ensures
        match res {
            Ok((url, path)) => f.logos_storage_url == Some(url) && f.file_path == Some(path),
            Err(e) => e == first_of(
                absent(f.logos_storage_url, Field::LogosStorageUrl),
                absent(f.file_path, Field::FilePath),
            )->Some_0 && (f.logos_storage_url is None || f.file_path is None),
        },
{
    let RequestFields { logos_storage_url, file_path, .. } = f;
    let url = required(logos_storage_url, Field::LogosStorageUrl)?;
    let path = required(file_path, Field::FilePath)?;
    Ok((url, path))
}

/// Read a download or IDL request: the storage node's URL, then the CID.
pub fn content_request(f: RequestFields) -> (res: Result<(String, String), RequestError>)
    ensures
        match res {
            Ok((url, cid)) => f.logos_storage_url == Some(url) && f.cid == Some(cid),
            Err(e) => e == first_of(
                absent(f.logos_storage_url, Field::LogosStorageUrl),
                absent(f.cid, Field::Cid),
            )->Some_0 && (f.logos_storage_url is None || f.cid is None),
        },
{
    let RequestFields { logos_storage_url, cid, .. } = f;
    let url = required(logos_storage_url, Field::LogosStorageUrl)?;
    let cid = required(cid, Field::Cid)?;
    Ok((url, cid))
}

/// Read a search request: the query, which must be present (an empty query
/// finds every cached entry).
pub fn search_request(f: RequestFields) -> (res: Result<String, RequestError>)
    ensures
        match res {
            Ok(q) => f.query == Some(q),
            Err(e) => f.query is None && e == RequestError::MissingField(Field::Query),
        },
{
    let RequestFields { query, .. } = f;
    required(query, Field::Query)
}

/// The cache record that an accepted registration adds: keyed by the program
/// id as the request wrote it, with the registered name, description and tags,
/// storing `record`. An update request adds none.
pub fn registered_record<T>(r: &SubmitRequest, record: T) -> (c: Option<CacheRecord<T>>)
    ensures
        match r.instruction {
            Instruction::Register { name, description, tags, .. } => c matches Some(rec)
                && record_fields(rec) == (
                Some(r.program_id_text@),
                Some(name@),
                Some(description@),
                texts(tags@),
                record,
            ),
            Instruction::Update { .. } => c is None,
        },
{
    match &r.instruction {
        Instruction::Register { name, description, tags, .. } => {
            let tags_copy = tags.clone();
            assert(tags_copy@ =~= tags@);
            Some(
                CacheRecord {
                    program_id: Some(r.program_id_text.clone()),
                    name: Some(name.clone()),
                    description: Some(description.clone()),
                    tags: tags_copy,
                    record,
                },
            )
        },
        Instruction::Update { .. } => None,
    }
}

// ---------------------------------------------------------------------------
// Reading the JSON arguments
// ---------------------------------------------------------------------------

/// The keys of the text fields of a request, in the order of `RequestFields`.
pub open spec fn request_keys() -> Seq<Seq<char>> {
    seq![
        "sequencer_url"@,
        "wallet_path"@,
        "registry_program_id"@,
        "account"@,
        "program_id"@,
        "name"@,
        "version"@,
        "idl_cid"@,
        "description"@,
        "logos_storage_url"@,
        "file_path"@,
        "cid"@,
        "query"@,
    ]
}

/// The text fields of a request, in the order of `request_keys`.
pub open spec fn request_texts(f: RequestFields) -> Seq<Option<Seq<char>>> {
    seq![
        opt_text(f.sequencer_url),
        opt_text(f.wallet_path),
        opt_text(f.registry_program_id),
        opt_text(f.account),
        opt_text(f.program_id),
        opt_text(f.name),
        opt_text(f.version),
        opt_text(f.idl_cid),
        opt_text(f.description),
        opt_text(f.logos_storage_url),
        opt_text(f.file_path),
        opt_text(f.cid),
        opt_text(f.query),
    ]
}

/// The texts of keys.
pub open spec fn key_texts(keys: Seq<&str>) -> Seq<Seq<char>> {
    keys.map_values(|k: &str| k@)
}

/// What `serde_json::from_str::<serde_json::Value>` reads in `text`: for each of
/// `keys`, the member's string (`None` where it is missing or not a string), and
/// the elements of the array member `list_key` (each where it is a string;
/// `None` when there is no such array). `None` when `text` is not JSON.
pub uninterp spec fn json_members(text: Seq<char>, keys: Seq<Seq<char>>, list_key: Seq<char>) -> Option<
    (Seq<Option<Seq<char>>>, Option<Seq<Option<Seq<char>>>>),
>;

/// The texts of a list of strings that may be absent.
pub open spec fn opt_items(o: Option<Vec<Option<String>>>) -> Option<Seq<Option<Seq<char>>>> {
    match o {
        Some(v) => Some(opt_texts(v@)),
        None => None,
    }
}

/// The string member of the JSON object in `text` under `key` (`None` where it
/// is missing or not a string), as reading that key alone finds it.
pub open spec fn json_member(text: Seq<char>, key: Seq<char>) -> Option<Seq<char>> {
    json_members(text, seq![key], "tags"@)->Some_0.0[0]
}

/// `serde_json::from_str::<serde_json::Value>` on `text`, then `[key].as_str()`
/// for each of `keys` and `[list_key].as_array()` with `as_str()` on each
/// element; the parser's message when `text` is not JSON. The contract names
/// the result and says that there is one string per key, and that the string
/// found for a key is the one that key alone finds (each key is looked up on
/// its own).
#[verifier::external_body]
fn parse_json_members(text: &str, keys: &[&str], list_key: &str) -> (r: Result<
    (Vec<Option<String>>, Option<Vec<Option<String>>>),
    String,
>)
    ensures
        match r {
            Ok((ts, items)) => {
                &&& ts@.len() == keys@.len()
                &&& json_members(text@, key_texts(keys@), list_key@) == Some(
                    (
                        opt_texts(ts@),
                        match items {
                            Some(v) => Some(opt_texts(v@)),
                            None => None,
                        },
                    ),
                )
                &&& forall|i: int|
                    0 <= i < keys@.len() ==> #[trigger] json_members(
                        text@,
                        seq![key_texts(keys@)[i]],
                        list_key@,
                    ) == Some(
                        (
                            seq![opt_texts(ts@)[i]],
                            match items {
                                Some(v) => Some(opt_texts(v@)),
                                None => None,
                            },
                        ),
                    )
            },
            Err(_) => json_members(text@, key_texts(keys@), list_key@) is None,
        },
{
    let v: serde_json::Value = match serde_json::from_str(text) {
        Ok(v) => v,
        Err(e) => return Err(e.to_string()),
    };
    let texts = keys.iter().map(|k| v[*k].as_str().map(String::from)).collect();
    let items = v[list_key].as_array().map(|a| a.iter().map(|x| x.as_str().map(String::from)).collect());
    Ok((texts, items))
}

fn last_text(v: &mut Vec<Option<String>>) -> (t: Option<String>)
    requires
        old(v)@.len() > 0,
    ensures
        t == old(v)@.last(),
        final(v)@ == old(v)@.drop_last(),
{
    match v.pop() {
        Some(t) => t,
        None => None,
    }
}

/// The fields of the JSON argument text of a request: the parser's message,
/// after `invalid JSON: `, when the text is not JSON; else each key's string
/// and the strings of the `tags` array.
pub fn request_fields_from(text: &str) -> (r: Result<RequestFields, String>)
    ensures
        match r {
            Err(m) => json_members(text@, request_keys(), "tags"@) is None && "invalid JSON: "@.is_prefix_of(
                m@,
            ),
            Ok(f) => {
                &&& json_members(text@, request_keys(), "tags"@) matches Some((ts, items))
                    && request_texts(f) == ts && texts(f.tags@) == string_tags(items)
                &&& opt_text(f.sequencer_url) == json_member(text@, "sequencer_url"@)
                &&& opt_text(f.wallet_path) == json_member(text@, "wallet_path"@)
                &&& opt_text(f.registry_program_id) == json_member(text@, "registry_program_id"@)
                &&& opt_text(f.account) == json_member(text@, "account"@)
                &&& opt_text(f.program_id) == json_member(text@, "program_id"@)
                &&& opt_text(f.name) == json_member(text@, "name"@)
                &&& opt_text(f.version) == json_member(text@, "version"@)
                &&& opt_text(f.idl_cid) == json_member(text@, "idl_cid"@)
                &&& opt_text(f.description) == json_member(text@, "description"@)
                &&& opt_text(f.logos_storage_url) == json_member(text@, "logos_storage_url"@)
                &&& opt_text(f.file_path) == json_member(text@, "file_path"@)
                &&& opt_text(f.cid) == json_member(text@, "cid"@)
                &&& opt_text(f.query) == json_member(text@, "query"@)
            },
        },
{
    let keys: [&str; 13] = [
        "sequencer_url",
        "wallet_path",
        "registry_program_id",
        "account",
        "program_id",
        "name",
        "version",
        "idl_cid",
        "description",
        "logos_storage_url",
        "file_path",
        "cid",
        "query",
    ];
    assert(key_texts(keys@) =~= request_keys());
    match parse_json_members(text, keys.as_slice(), "tags") {
        Err(e) => {
            let mut m = String::from_str("invalid JSON: ");
            m.append(e.as_str());
            assert(m@.subrange(0, "invalid JSON: "@.len() as int) =~= "invalid JSON: "@);
            Err(m)
        },
        Ok((texts_found, items)) => {
            let ghost ts = opt_texts(texts_found@);
            let ghost iv = opt_items(items);
            let mut v = texts_found;
            let query = last_text(&mut v);
            let cid = last_text(&mut v);
            let file_path = last_text(&mut v);
            let logos_storage_url = last_text(&mut v);
            let description = last_text(&mut v);
            let idl_cid = last_text(&mut v);
            let version = last_text(&mut v);
            let name = last_text(&mut v);
            let program_id = last_text(&mut v);
            let account = last_text(&mut v);
            let registry_program_id = last_text(&mut v);
            let wallet_path = last_text(&mut v);
            let sequencer_url = last_text(&mut v);
            let tags = string_tags_of(items);
            let f = RequestFields {
                sequencer_url,
                wallet_path,
                registry_program_id,
                account,
                program_id,
                name,
                version,
                idl_cid,
                description,
                logos_storage_url,
                file_path,
                cid,
                query,
                tags,
            };
            assert(request_texts(f) =~= ts);
            proof {
                let kt = key_texts(keys@);
                assert forall|i: int| 0 <= i < 13 implies json_member(text@, #[trigger] kt[i]) == ts[i] by {
                    assert(json_members(text@, seq![kt[i]], "tags"@) == Some(
                        (seq![ts[i]], iv),
                    ));
                }
                assert(json_member(text@, kt[0]) == ts[0]);
                assert(json_member(text@, kt[1]) == ts[1]);
                assert(json_member(text@, kt[2]) == ts[2]);
                assert(json_member(text@, kt[3]) == ts[3]);
                assert(json_member(text@, kt[4]) == ts[4]);
                assert(json_member(text@, kt[5]) == ts[5]);
                assert(json_member(text@, kt[6]) == ts[6]);
                assert(json_member(text@, kt[7]) == ts[7]);
                assert(json_member(text@, kt[8]) == ts[8]);
                assert(json_member(text@, kt[9]) == ts[9]);
                assert(json_member(text@, kt[10]) == ts[10]);
                assert(json_member(text@, kt[11]) == ts[11]);
                assert(json_member(text@, kt[12]) == ts[12]);
            }
            Ok(f)
        },
    }
}

} // verus!
