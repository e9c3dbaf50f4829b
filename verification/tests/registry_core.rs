use lez_registry::ids::{
    format_program_id, parse_program_id, program_entry_pda_seed, program_id_to_bytes,
    registry_state_pda_seed, AccountId, HexError, ProgramId, ProgramIdError,
};
use lez_registry::state::RegistryState;

fn dummy_program_id(fill: u32) -> ProgramId {
    [fill; 8]
}

#[test]
fn test_registry_state_pda_seed_is_deterministic() {
    let s1 = registry_state_pda_seed();
    let s2 = registry_state_pda_seed();
    assert_eq!(s1, s2);
}

#[test]
fn test_program_entry_pda_seed_differs_by_program_id() {
    let pid1 = dummy_program_id(1);
    let pid2 = dummy_program_id(2);
    let s1 = program_entry_pda_seed(&pid1);
    let s2 = program_entry_pda_seed(&pid2);
    assert_ne!(s1, s2);
}

#[test]
fn test_program_id_to_bytes_roundtrip() {
    let pid: ProgramId = [0x01020304, 0x05060708, 0, 0, 0, 0, 0, 0];
    let bytes = program_id_to_bytes(&pid);
    assert_eq!(bytes[0], 0x01);
    assert_eq!(bytes[1], 0x02);
    assert_eq!(bytes[2], 0x03);
    assert_eq!(bytes[3], 0x04);
    assert_eq!(bytes[4], 0x05);
}

#[test]
fn test_registry_state_increment() {
    let mut state = RegistryState::new(AccountId::new([0u8; 32]));
    assert_eq!(state.program_count, 0);
    assert_eq!(state.increment(), 1);
    assert_eq!(state.increment(), 2);
    assert_eq!(state.program_count, 2);
}

#[test]
fn registry_state_seed_is_tag_then_zeros() {
    let seed = registry_state_pda_seed();
    let mut expected = [0u8; 32];
    expected[..16].copy_from_slice(b"registry_state__");
    assert_eq!(seed.as_bytes(), &expected);
}

#[test]
fn program_entry_seed_is_tag_xor_program_id() {
    let pid: ProgramId = [0x01020304, 0, 0, 0, 0, 0, 0, 0xaabbccdd];
    let seed = program_entry_pda_seed(&pid);
    let tag = b"program_entry___";
    let pid_bytes = program_id_to_bytes(&pid);
    for i in 0..32 {
        let t = if i < 16 { tag[i] } else { 0 };
        assert_eq!(seed.as_bytes()[i], t ^ pid_bytes[i]);
    }
    assert_eq!(seed.as_bytes()[0], b'p' ^ 0x01);
    assert_eq!(seed.as_bytes()[31], 0xdd);
}

#[test]
fn program_id_bytes_are_big_endian_words() {
    let pid: ProgramId = [0xdeadbeef, 1, 2, 3, 4, 5, 6, 0x11223344];
    let bytes = program_id_to_bytes(&pid);
    assert_eq!(&bytes[0..4], &[0xde, 0xad, 0xbe, 0xef]);
    assert_eq!(&bytes[4..8], &[0, 0, 0, 1]);
    assert_eq!(&bytes[28..32], &[0x11, 0x22, 0x33, 0x44]);
}

#[test]
fn format_program_id_is_lowercase_hex() {
    let pid: ProgramId = [0xdeadbeef, 1, 0, 0, 0, 0, 0, 0xABCDEF01];
    let text = format_program_id(&pid);
    assert_eq!(
        text,
        "deadbeef000000010000000000000000000000000000000000000000abcdef01"
    );
}

#[test]
fn parse_program_id_reads_formatted_text() {
    let pid: ProgramId = [1, 2, 3, 4, 5, 6, 7, 0xffffffff];
    let text = format_program_id(&pid);
    assert_eq!(parse_program_id(&text), Ok(pid));
    let prefixed = format!("0x{}", text);
    assert_eq!(parse_program_id(&prefixed), Ok(pid));
    let twice = format!("0x0x{}", text);
    assert_eq!(parse_program_id(&twice), Ok(pid));
}

#[test]
fn parse_program_id_accepts_upper_case() {
    let text = "DEADBEEF000000010000000000000000000000000000000000000000ABCDEF01";
    assert_eq!(
        parse_program_id(text),
        Ok([0xdeadbeef, 1, 0, 0, 0, 0, 0, 0xabcdef01])
    );
}

#[test]
fn parse_program_id_rejects_wrong_length() {
    assert_eq!(
        parse_program_id("0xabc"),
        Err(ProgramIdError::WrongLength { len: 3 })
    );
    assert_eq!(parse_program_id(""), Err(ProgramIdError::WrongLength { len: 0 }));
}

#[test]
fn parse_program_id_reports_first_bad_digit() {
    let mut text = String::from("00000000000000000000000000000000000000000000000000000000000000");
    text.push_str("zq");
    assert_eq!(text.len(), 64);
    assert_eq!(
        parse_program_id(&text),
        Err(ProgramIdError::InvalidHex(HexError::InvalidHexCharacter {
            c: 'z',
            index: 62
        }))
    );
}

#[test]
fn account_id_comparison() {
    let a = AccountId::new([7u8; 32]);
    let b = AccountId::new([7u8; 32]);
    let mut other = [7u8; 32];
    other[31] = 8;
    let c = AccountId::new(other);
    assert!(a.same_as(&b));
    assert!(!a.same_as(&c));
}

#[test]
fn parsed_program_id_bytes_are_the_hex_bytes() {
    let text = "0x0xDEADbeef000000010000000200000003000000040000000500000006ffffffff";
    let pid = parse_program_id(text).unwrap();
    let digits = "DEADbeef000000010000000200000003000000040000000500000006ffffffff";
    assert_eq!(program_id_to_bytes(&pid).to_vec(), hex::decode(digits).unwrap());
    assert_eq!(pid[0], 0xdeadbeef);
}
