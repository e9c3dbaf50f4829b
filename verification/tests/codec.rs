use lez_registry::codec::{
    decode_entry, decode_state, encode_entry, encode_state, read_entry_account,
    read_state_account, DecodeError,
};
use lez_registry::ids::AccountId;
use lez_registry::state::{ProgramEntry, RegistryState};

fn sample_entry() -> ProgramEntry {
    ProgramEntry::new(
        [1, 2, 3, 0xdeadbeef, 5, 6, 7, 8],
        "lez-multisig".to_string(),
        "0.1.0".to_string(),
        AccountId::new([3u8; 32]),
        "bafy2bzace".to_string(),
        "M-of-N multisig governance — ünïcode".to_string(),
        1_725_029_869,
        vec!["governance".to_string(), "multisig".to_string()],
    )
}

fn borsh_of_entry(e: &ProgramEntry) -> Vec<u8> {
    borsh::to_vec(&(
        (e.program_id, e.name.clone(), e.version.clone(), e.author.value),
        (e.idl_cid.clone(), e.description.clone(), e.registered_at, e.tags.clone()),
    ))
    .unwrap()
}

#[test]
fn state_bytes_match_borsh() {
    let state = RegistryState { authority: AccountId::new([0xabu8; 32]), program_count: 0x0102030405060708 };
    let bytes = encode_state(&state);
    assert_eq!(bytes, borsh::to_vec(&([0xabu8; 32], 0x0102030405060708u64)).unwrap());
    assert_eq!(bytes.len(), 40);
    assert_eq!(&bytes[32..], &[8, 7, 6, 5, 4, 3, 2, 1]);
}

#[test]
fn entry_bytes_match_borsh() {
    let e = sample_entry();
    assert_eq!(encode_entry(&e), borsh_of_entry(&e));
}

#[test]
fn entry_roundtrip() {
    let e = sample_entry();
    let d = decode_entry(&encode_entry(&e)).unwrap();
    assert_eq!(d.program_id, e.program_id);
    assert_eq!(d.name, e.name);
    assert_eq!(d.version, e.version);
    assert_eq!(d.author, e.author);
    assert_eq!(d.idl_cid, e.idl_cid);
    assert_eq!(d.description, e.description);
    assert_eq!(d.registered_at, e.registered_at);
    assert_eq!(d.tags, e.tags);
}

#[test]
fn entry_decodes_borsh_bytes() {
    let e = sample_entry();
    let d = decode_entry(&borsh_of_entry(&e)).unwrap();
    assert_eq!(d.description, e.description);
    assert_eq!(d.tags, e.tags);
}

#[test]
fn state_roundtrip_and_errors() {
    let state = RegistryState { authority: AccountId::new([1u8; 32]), program_count: 42 };
    let bytes = encode_state(&state);
    let d = decode_state(&bytes).unwrap();
    assert_eq!(d.program_count, 42);
    assert_eq!(d.authority, AccountId::new([1u8; 32]));
    assert!(matches!(decode_state(&bytes[..39]), Err(DecodeError::UnexpectedEnd)));
    let mut longer = bytes.clone();
    longer.push(0);
    assert!(matches!(decode_state(&longer), Err(DecodeError::TrailingBytes)));
}

#[test]
fn entry_decode_errors() {
    let bytes = encode_entry(&sample_entry());
    assert!(matches!(decode_entry(&bytes[..bytes.len() - 1]), Err(DecodeError::UnexpectedEnd)));
    let mut longer = bytes.clone();
    longer.push(0);
    assert!(matches!(decode_entry(&longer), Err(DecodeError::TrailingBytes)));
    // Corrupt the first byte of the name ("l") into an invalid UTF-8 byte.
    let mut bad = bytes.clone();
    bad[36] = 0xff;
    assert!(matches!(decode_entry(&bad), Err(DecodeError::InvalidUtf8)));
    assert!(matches!(decode_entry(&[]), Err(DecodeError::UnexpectedEnd)));
}

#[test]
fn empty_account_data_reads_as_nothing() {
    assert!(matches!(read_state_account(&[]), Ok(None)));
    assert!(matches!(read_entry_account(&[]), Ok(None)));
    assert!(matches!(read_state_account(&[1]), Err(DecodeError::UnexpectedEnd)));
    let bytes = encode_entry(&sample_entry());
    match read_entry_account(&bytes) {
        Ok(Some(e)) => assert_eq!(e.name, "lez-multisig"),
        _ => panic!("entry not read"),
    }
}
