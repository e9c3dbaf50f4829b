use lez_registry::ids::{HexError, ProgramIdError};
use lez_registry::requests::{
    content_request, list_request, lookup_request, register_request, registered_record, update_request,
    upload_request, request_fields_from, search_request, Field, RequestError, RequestFields,
};
use lez_registry::state::Instruction;

const REGISTRY: &str = "0000000a0000000b0000000c0000000d0000000e0000000f0000001000000011";
const PROGRAM: &str = "0x0000000100000002000000030000000400000005000000060000000700000008";

fn s(t: &str) -> Option<String> {
    Some(t.to_string())
}

fn full() -> RequestFields {
    RequestFields {
        sequencer_url: s("http://127.0.0.1:3040"),
        wallet_path: s("/wallet"),
        registry_program_id: s(REGISTRY),
        account: s("author"),
        program_id: s(PROGRAM),
        name: s("lez-multisig"),
        version: s("0.1.0"),
        idl_cid: s("bafy"),
        description: None,
        logos_storage_url: None,
        file_path: None,
        cid: None,
        query: None,
        tags: vec!["governance".to_string()],
    }
}

fn missing(f: Field) -> RequestError {
    RequestError::MissingField(f)
}

#[test]
fn register_request_carries_the_instruction() {
    let r = register_request(full()).ok().unwrap();
    assert_eq!(r.connection.sequencer_url, "http://127.0.0.1:3040");
    assert_eq!(r.connection.wallet_path, s("/wallet"));
    assert_eq!(r.connection.registry_program_id, [10u32, 11, 12, 13, 14, 15, 16, 17]);
    assert_eq!(r.account, "author");
    assert_eq!(r.program_id_text, PROGRAM);
    match r.instruction {
        Instruction::Register { program_id, name, version, idl_cid, description, tags } => {
            assert_eq!(program_id, [1u32, 2, 3, 4, 5, 6, 7, 8]);
            assert_eq!(name, "lez-multisig");
            assert_eq!(version, "0.1.0");
            assert_eq!(idl_cid, "bafy");
            assert_eq!(description, "");
            assert_eq!(tags, vec!["governance".to_string()]);
        }
        Instruction::Update { .. } => panic!("not a register instruction"),
    }
}

#[test]
fn register_request_reports_the_first_missing_field() {
    let mut f = full();
    f.name = None;
    f.idl_cid = None;
    assert_eq!(register_request(f).err(), Some(missing(Field::Name)));

    let mut f = full();
    f.sequencer_url = None;
    f.account = None;
    assert_eq!(register_request(f).err(), Some(missing(Field::SequencerUrl)));

    let mut f = full();
    f.idl_cid = None;
    f.registry_program_id = s("zz");
    assert_eq!(register_request(f).err(), Some(missing(Field::IdlCid)));
}

#[test]
fn register_request_checks_the_registry_id_before_the_program_id() {
    let mut f = full();
    f.registry_program_id = s("abc");
    f.program_id = s("xyz");
    assert_eq!(
        register_request(f).err(),
        Some(RequestError::InvalidProgramId(ProgramIdError::WrongLength { len: 3 }))
    );

    let mut f = full();
    f.program_id = s(&format!("{}g", &REGISTRY[..63]));
    assert_eq!(
        register_request(f).err(),
        Some(RequestError::InvalidProgramId(ProgramIdError::InvalidHex(HexError::InvalidHexCharacter {
            c: 'g',
            index: 63
        })))
    );
}

#[test]
fn update_request_defaults_absent_texts_to_empty() {
    let mut f = full();
    f.name = None;
    f.version = None;
    f.idl_cid = None;
    f.description = s("new description");
    f.tags = vec![];
    let r = update_request(f).ok().unwrap();
    match r.instruction {
        Instruction::Update { program_id, version, idl_cid, description, tags } => {
            assert_eq!(program_id, [1u32, 2, 3, 4, 5, 6, 7, 8]);
            assert_eq!(version, "");
            assert_eq!(idl_cid, "");
            assert_eq!(description, "new description");
            assert!(tags.is_empty());
        }
        Instruction::Register { .. } => panic!("not an update instruction"),
    }

    let mut f = full();
    f.account = None;
    assert_eq!(update_request(f).err(), Some(missing(Field::Account)));
}

#[test]
fn lookup_and_list_requests() {
    let mut f = full();
    f.account = None;
    f.name = None;
    let (c, pid) = lookup_request(f).ok().unwrap();
    assert_eq!(c.registry_program_id, [10u32, 11, 12, 13, 14, 15, 16, 17]);
    assert_eq!(pid, [1u32, 2, 3, 4, 5, 6, 7, 8]);

    let mut f = full();
    f.program_id = None;
    assert_eq!(lookup_request(f).err(), Some(missing(Field::ProgramId)));

    let mut f = full();
    f.program_id = None;
    let c = list_request(f).ok().unwrap();
    assert_eq!(c.sequencer_url, "http://127.0.0.1:3040");

    let mut f = full();
    f.registry_program_id = None;
    assert_eq!(list_request(f).err(), Some(missing(Field::RegistryProgramId)));
}

#[test]
fn field_keys() {
    assert_eq!(Field::SequencerUrl.key(), "sequencer_url");
    assert_eq!(Field::RegistryProgramId.key(), "registry_program_id");
    assert_eq!(Field::IdlCid.key(), "idl_cid");
}

#[test]
fn storage_requests_need_the_url_first() {
    let f = |u: Option<&str>, p: Option<&str>, c: Option<&str>| {
        let mut fields = full();
        fields.logos_storage_url = u.map(|s| s.to_string());
        fields.file_path = p.map(|s| s.to_string());
        fields.cid = c.map(|s| s.to_string());
        fields
    };
    assert_eq!(
        upload_request(f(Some("http://n"), Some("/idl.json"), None)).ok(),
        Some(("http://n".to_string(), "/idl.json".to_string()))
    );
    assert_eq!(upload_request(f(None, None, None)).err(), Some(missing(Field::LogosStorageUrl)));
    assert_eq!(upload_request(f(Some("u"), None, Some("c"))).err(), Some(missing(Field::FilePath)));
    assert_eq!(
        content_request(f(Some("u"), None, Some("bafy"))).ok(),
        Some(("u".to_string(), "bafy".to_string()))
    );
    assert_eq!(content_request(f(Some("u"), Some("p"), None)).err(), Some(missing(Field::Cid)));
    assert_eq!(Field::Cid.key(), "cid");
}

#[test]
fn registration_cache_record() {
    let mut fields = full();
    fields.description = s("multisig wallet");
    let r = register_request(fields).ok().unwrap();
    let rec = registered_record(&r, 42u8).unwrap();
    assert_eq!(rec.program_id, s(PROGRAM));
    assert_eq!(rec.name, s("lez-multisig"));
    assert_eq!(rec.description, s("multisig wallet"));
    assert_eq!(rec.tags, vec!["governance".to_string()]);
    assert_eq!(rec.record, 42);

    let mut fields = full();
    fields.name = None;
    let u = update_request(fields).ok().unwrap();
    assert!(registered_record(&u, 0u8).is_none());
}

#[test]
fn request_fields_are_read_from_the_json_text() {
    let text = r#"{"sequencer_url": "http://s", "registry_program_id": "abc", "name": 5,
                   "cid": "bafy", "query": "", "tags": ["a", 1, "b"]}"#;
    let f = request_fields_from(text).ok().unwrap();
    assert_eq!(f.sequencer_url, s("http://s"));
    assert_eq!(f.registry_program_id, s("abc"));
    assert_eq!(f.name, None);
    assert_eq!(f.account, None);
    assert_eq!(f.cid, s("bafy"));
    assert_eq!(f.query, s(""));
    assert_eq!(f.tags, vec!["a".to_string(), "b".to_string()]);
    assert_eq!(search_request(f).ok(), s(""));

    let f = request_fields_from("[1, 2]").ok().unwrap();
    assert_eq!(f.sequencer_url, None);
    assert!(f.tags.is_empty());
    assert_eq!(search_request(f).err(), Some(missing(Field::Query)));

    let e = request_fields_from("{not json").err().unwrap();
    assert!(e.starts_with("invalid JSON: "));
    assert!(e.len() > "invalid JSON: ".len());
}

#[test]
fn request_error_messages() {
    assert_eq!(missing(Field::Query).message(), "missing field 'query'");
    assert_eq!(missing(Field::RegistryProgramId).message(), "missing field 'registry_program_id'");
    assert_eq!(
        RequestError::InvalidProgramId(ProgramIdError::WrongLength { len: 3 }).message(),
        "program_id_hex must be 64 hex chars (got 3)"
    );
    assert_eq!(
        RequestError::InvalidProgramId(ProgramIdError::InvalidHex(HexError::InvalidHexCharacter { c: 'g', index: 7 }))
            .message(),
        "invalid hex in program_id: Invalid character 'g' at position 7"
    );
    assert_eq!(
        ProgramIdError::WrongLength { len: 10 }.message(),
        "program_id must be 64 hex characters (8 × u32 big-endian), got 10 chars"
    );
    assert_eq!(ProgramIdError::InvalidHex(HexError::OddLength).message(), "invalid hex in program_id");
}
