use lez_registry::account::{Account, AccountPostState, AccountWithMetadata};
use lez_registry::codec::{decode_entry, decode_state, encode_state};
use lez_registry::ids::{program_entry_pda_seed, registry_state_pda_seed, AccountId, ProgramId};
use lez_registry::register::{check, handle, RegisterError};
use lez_registry::state::{RegisterArgs, RegistryState};

fn make_account(id: &[u8; 32], data: Vec<u8>, authorized: bool) -> AccountWithMetadata {
    let mut account = Account::default();
    if !data.is_empty() {
        account.data = data;
    }
    AccountWithMetadata {
        account_id: AccountId::new(*id),
        account,
        is_authorized: authorized,
    }
}

fn test_program_id() -> ProgramId {
    [1u32, 2, 3, 4, 5, 6, 7, 8]
}

fn default_args() -> RegisterArgs {
    RegisterArgs {
        program_id: test_program_id(),
        name: "test-program".to_string(),
        version: "0.1.0".to_string(),
        idl_cid: "bafy2bzacedqwerty".to_string(),
        description: "A test program".to_string(),
        tags: vec!["test".to_string(), "example".to_string()],
    }
}

/// Build the three standard accounts needed for Register tests. The program
/// entry account id is a dummy value.
fn make_test_accounts(state_data: Vec<u8>, author_id: &[u8; 32], authorized: bool) -> Vec<AccountWithMetadata> {
    vec![
        make_account(&[10u8; 32], state_data, false),
        make_account(author_id, vec![], authorized),
        AccountWithMetadata {
            account_id: AccountId::new([20u8; 32]),
            account: Account::default(),
            is_authorized: false,
        },
    ]
}

/// Run the instruction as the program does: refuse it with the program's
/// message, or handle it.
fn run(accounts: &[AccountWithMetadata], args: &RegisterArgs, timestamp: u64) -> Vec<AccountPostState> {
    if let Err(e) = check(accounts, args) {
        panic!("{}", e.message());
    }
    let (post_states, chained) = handle(accounts, args, timestamp);
    assert!(chained.is_empty());
    post_states
}

#[test]
fn test_register_creates_entry_and_increments_count() {
    let args = default_args();
    let author_id = [1u8; 32];

    let accounts = make_test_accounts(vec![], &author_id, true);
    assert_eq!(check(&accounts, &args), Ok(()));
    let (post_states, chained) = handle(&accounts, &args, 12345);

    assert!(chained.is_empty());
    assert_eq!(post_states.len(), 3);

    let state: RegistryState = decode_state(&post_states[0].account().data).unwrap();
    assert_eq!(state.program_count, 1);

    let entry = decode_entry(&post_states[2].account().data).unwrap();
    assert_eq!(entry.name, "test-program");
    assert_eq!(entry.version, "0.1.0");
    assert_eq!(entry.idl_cid, "bafy2bzacedqwerty");
    assert_eq!(entry.description, "A test program");
    assert_eq!(entry.registered_at, 12345);
    assert_eq!(entry.tags, vec!["test".to_string(), "example".to_string()]);
    assert_eq!(entry.author, AccountId::new(author_id));
}

#[test]
fn test_register_increments_existing_count() {
    let args = default_args();

    let existing_state = RegistryState {
        authority: AccountId::new([0u8; 32]),
        program_count: 3,
    };
    let state_data = encode_state(&existing_state);
    let accounts = make_test_accounts(state_data, &[1u8; 32], true);

    let post_states = run(&accounts, &args, 99999);

    let state: RegistryState = decode_state(&post_states[0].account().data).unwrap();
    assert_eq!(state.program_count, 4);
}

#[test]
#[should_panic(expected = "Author must sign")]
fn test_register_unsigned_fails() {
    let args = default_args();
    let accounts = make_test_accounts(vec![], &[1u8; 32], false);
    run(&accounts, &args, 0);
}

#[test]
#[should_panic(expected = "must not be empty")]
fn test_register_empty_name_fails() {
    let mut args = default_args();
    args.name = String::new();
    let accounts = make_test_accounts(vec![], &[1u8; 32], true);
    run(&accounts, &args, 0);
}

#[test]
#[should_panic(expected = "must be uninitialized")]
fn test_register_already_initialized_pda_fails() {
    let args = default_args();

    let mut existing_account = Account::default();
    existing_account.data = vec![1u8, 2, 3];

    let accounts = vec![
        make_account(&[10u8; 32], vec![], false),
        make_account(&[1u8; 32], vec![], true),
        AccountWithMetadata {
            account_id: AccountId::new([20u8; 32]),
            account: existing_account,
            is_authorized: false,
        },
    ];
    run(&accounts, &args, 0);
}

#[test]
fn register_first_use_sets_author_as_authority_and_claims_accounts() {
    let args = default_args();
    let accounts = make_test_accounts(vec![], &[5u8; 32], true);
    let post_states = run(&accounts, &args, 7);
    let state = decode_state(&post_states[0].account().data).unwrap();
    assert_eq!(state.authority, AccountId::new([5u8; 32]));
    // The state account has no owner yet: the program claims it.
    match post_states[0].required_claim() {
        Some(lez_registry::account::Claim::Pda(seed)) => assert_eq!(seed, registry_state_pda_seed()),
        None => panic!("state account not claimed"),
    }
    assert!(post_states[1].required_claim().is_none());
    match post_states[2].required_claim() {
        Some(lez_registry::account::Claim::Pda(seed)) => {
            assert_eq!(seed, program_entry_pda_seed(&test_program_id()))
        }
        None => panic!("entry account not claimed"),
    }
}

#[test]
fn register_on_owned_state_needs_no_claim_and_keeps_authority() {
    let args = default_args();
    let existing = RegistryState { authority: AccountId::new([9u8; 32]), program_count: 10 };
    let mut accounts = make_test_accounts(encode_state(&existing), &[5u8; 32], true);
    accounts[0].account.program_owner = [3u32; 8];
    accounts[0].account.balance = 17;
    let post_states = run(&accounts, &args, 7);
    assert!(post_states[0].required_claim().is_none());
    assert_eq!(post_states[0].account().balance, 17);
    assert_eq!(post_states[0].account().program_owner, [3u32; 8]);
    let state = decode_state(&post_states[0].account().data).unwrap();
    assert_eq!(state.authority, AccountId::new([9u8; 32]));
    assert_eq!(state.program_count, 11);
}

#[test]
fn register_check_reports_each_refusal() {
    let args = default_args();
    let accounts = make_test_accounts(vec![], &[1u8; 32], true);
    assert_eq!(check(&accounts[..2], &args), Err(RegisterError::TooFewAccounts { got: 2 }));

    let mut no_version = default_args();
    no_version.version = String::new();
    assert_eq!(check(&accounts, &no_version), Err(RegisterError::EmptyVersion));

    let bad_state = make_test_accounts(vec![1, 2, 3], &[1u8; 32], true);
    assert_eq!(check(&bad_state, &args), Err(RegisterError::StateUnreadable));

    let full = RegistryState { authority: AccountId::new([0u8; 32]), program_count: u64::MAX };
    let full_state = make_test_accounts(encode_state(&full), &[1u8; 32], true);
    assert_eq!(check(&full_state, &args), Err(RegisterError::CountOverflow));

    let mut owned_entry = make_test_accounts(vec![], &[1u8; 32], true);
    owned_entry[2].account.nonce = 1;
    assert_eq!(check(&owned_entry, &args), Err(RegisterError::EntryInitialized));
}

#[test]
fn register_accepts_any_signer() {
    let args = default_args();
    for id in [[1u8; 32], [200u8; 32], [0u8; 32]] {
        let accounts = make_test_accounts(vec![], &id, true);
        assert_eq!(check(&accounts, &args), Ok(()));
    }
}

#[test]
fn refusal_messages_name_the_account_count() {
    assert_eq!(
        RegisterError::TooFewAccounts { got: 12 }.message(),
        "Register requires registry_state + author + program_entry accounts, got 12"
    );
    assert_eq!(RegisterError::NotSigned.message(), "Author must sign the Register transaction");
    assert_eq!(
        lez_registry::update::UpdateError::TooFewAccounts { got: 0 }.message(),
        "Update requires registry_state + author + program_entry accounts, got 0"
    );
}
