use lez_registry::account::{Account, AccountPostState, AccountWithMetadata};
use lez_registry::codec::{decode_entry, encode_entry};
use lez_registry::ids::{AccountId, ProgramId};
use lez_registry::register;
use lez_registry::state::{ProgramEntry, RegisterArgs, UpdateArgs};
use lez_registry::update::{check, handle, UpdateError};

fn make_account(id: &[u8; 32], data: Vec<u8>, authorized: bool) -> AccountWithMetadata {
    let mut account = Account::default();
    if !data.is_empty() {
        account.data = data;
    }
    AccountWithMetadata {
        account_id: AccountId::new(*id),
        account,
        is_authorized: authorized,
    }
}

fn test_program_id() -> ProgramId {
    [1u32, 2, 3, 4, 5, 6, 7, 8]
}

fn make_entry(author_id: &[u8; 32]) -> ProgramEntry {
    ProgramEntry::new(
        test_program_id(),
        "test-program".to_string(),
        "0.1.0".to_string(),
        AccountId::new(*author_id),
        "bafy_original_cid".to_string(),
        "Original description".to_string(),
        1000,
        vec!["original_tag".to_string()],
    )
}

fn make_test_accounts(author_id: &[u8; 32], entry: &ProgramEntry, authorized: bool) -> Vec<AccountWithMetadata> {
    let entry_bytes = encode_entry(entry);
    vec![
        make_account(&[10u8; 32], vec![], false),
        make_account(author_id, vec![], authorized),
        AccountWithMetadata {
            account_id: AccountId::new([20u8; 32]),
            account: {
                let mut a = Account::default();
                a.data = entry_bytes;
                a
            },
            is_authorized: false,
        },
    ]
}

fn default_update_args() -> UpdateArgs {
    UpdateArgs {
        program_id: test_program_id(),
        version: "0.2.0".to_string(),
        idl_cid: "bafy_new_cid".to_string(),
        description: "Updated description".to_string(),
        tags: vec!["updated".to_string()],
    }
}

/// Run the instruction as the program does: refuse it with the program's
/// message, or handle it.
fn run(accounts: &[AccountWithMetadata], args: &UpdateArgs) -> Vec<AccountPostState> {
    if let Err(e) = check(accounts, args) {
        panic!("{}", e.message());
    }
    let (post_states, chained) = handle(accounts, args);
    assert!(chained.is_empty());
    post_states
}

#[test]
fn test_update_changes_metadata() {
    let author_id = [1u8; 32];
    let entry = make_entry(&author_id);
    let args = default_update_args();

    let accounts = make_test_accounts(&author_id, &entry, true);
    assert_eq!(check(&accounts, &args), Ok(()));
    let (post_states, chained) = handle(&accounts, &args);

    assert!(chained.is_empty());
    assert_eq!(post_states.len(), 3);

    let updated = decode_entry(&post_states[2].account().data).unwrap();

    assert_eq!(updated.version, "0.2.0");
    assert_eq!(updated.idl_cid, "bafy_new_cid");
    assert_eq!(updated.description, "Updated description");
    assert_eq!(updated.tags, vec!["updated".to_string()]);
    assert_eq!(updated.name, "test-program");
    assert_eq!(updated.registered_at, 1000);
    assert_eq!(updated.author, AccountId::new(author_id));
}

#[test]
fn test_update_preserves_fields_when_empty() {
    let author_id = [1u8; 32];
    let entry = make_entry(&author_id);

    let args = UpdateArgs {
        program_id: test_program_id(),
        version: "0.3.0".to_string(),
        idl_cid: String::new(),
        description: String::new(),
        tags: vec![],
    };

    let accounts = make_test_accounts(&author_id, &entry, true);
    let post_states = run(&accounts, &args);

    let updated = decode_entry(&post_states[2].account().data).unwrap();

    assert_eq!(updated.version, "0.3.0");
    assert_eq!(updated.idl_cid, "bafy_original_cid");
    assert_eq!(updated.description, "Original description");
    assert_eq!(updated.tags, vec!["original_tag".to_string()]);
}

#[test]
#[should_panic(expected = "Author must sign")]
fn test_update_unsigned_fails() {
    let author_id = [1u8; 32];
    let entry = make_entry(&author_id);
    let args = default_update_args();

    let accounts = make_test_accounts(&author_id, &entry, false);
    run(&accounts, &args);
}

#[test]
#[should_panic(expected = "Only the original author")]
fn test_update_wrong_author_fails() {
    let original_author = [1u8; 32];
    let entry = make_entry(&original_author);
    let args = default_update_args();

    let wrong_author = [99u8; 32];
    let accounts = make_test_accounts(&wrong_author, &entry, true);
    run(&accounts, &args);
}

#[test]
#[should_panic(expected = "not initialized")]
fn test_update_uninitialized_entry_fails() {
    let args = default_update_args();

    let accounts = vec![
        make_account(&[10u8; 32], vec![], false),
        make_account(&[1u8; 32], vec![], true),
        AccountWithMetadata {
            account_id: AccountId::new([20u8; 32]),
            account: Account::default(),
            is_authorized: false,
        },
    ];

    run(&accounts, &args);
}

#[test]
fn update_with_empty_arguments_keeps_entry_bytes() {
    let author_id = [4u8; 32];
    let entry = make_entry(&author_id);
    let args = UpdateArgs {
        program_id: test_program_id(),
        version: String::new(),
        idl_cid: String::new(),
        description: String::new(),
        tags: vec![],
    };
    let accounts = make_test_accounts(&author_id, &entry, true);
    let post_states = run(&accounts, &args);
    assert_eq!(post_states[2].account().data, accounts[2].account.data);
}

#[test]
fn update_passes_other_accounts_through_unclaimed() {
    let author_id = [4u8; 32];
    let entry = make_entry(&author_id);
    let mut accounts = make_test_accounts(&author_id, &entry, true);
    accounts[0].account.data = vec![9, 9, 9];
    accounts[2].account.balance = 5;
    let post_states = run(&accounts, &default_update_args());
    assert_eq!(post_states[0].account().data, vec![9, 9, 9]);
    assert_eq!(post_states[2].account().balance, 5);
    for ps in &post_states {
        assert!(ps.required_claim().is_none());
    }
}

#[test]
fn update_check_reports_unreadable_entry() {
    let accounts = vec![
        make_account(&[10u8; 32], vec![], false),
        make_account(&[1u8; 32], vec![], true),
        make_account(&[20u8; 32], vec![1, 2, 3], false),
    ];
    assert_eq!(check(&accounts, &default_update_args()), Err(UpdateError::EntryUnreadable));
    assert_eq!(check(&accounts[..1], &default_update_args()), Err(UpdateError::TooFewAccounts { got: 1 }));
}

#[test]
fn registered_entry_is_updatable_by_its_registrant_only() {
    let registrant = [7u8; 32];
    let reg_accounts = vec![
        make_account(&[10u8; 32], vec![], false),
        make_account(&registrant, vec![], true),
        make_account(&[20u8; 32], vec![], false),
    ];
    let reg_args = RegisterArgs {
        program_id: test_program_id(),
        name: "reg-then-update".to_string(),
        version: "1.0.0".to_string(),
        idl_cid: "bafy_first".to_string(),
        description: "first".to_string(),
        tags: vec!["a".to_string()],
    };
    assert!(register::check(&reg_accounts, &reg_args).is_ok());
    let (reg_posts, _) = register::handle(&reg_accounts, &reg_args, 55);
    let entry_account = reg_posts[2].account().clone();

    let with_signer = |id: &[u8; 32]| {
        vec![
            make_account(&[10u8; 32], vec![], false),
            make_account(id, vec![], true),
            AccountWithMetadata {
                account_id: AccountId::new([20u8; 32]),
                account: entry_account.clone(),
                is_authorized: false,
            },
        ]
    };

    let intruder = with_signer(&[8u8; 32]);
    assert_eq!(check(&intruder, &default_update_args()), Err(UpdateError::NotAuthor));

    let owner = with_signer(&registrant);
    let posts = run(&owner, &default_update_args());
    let updated = decode_entry(&posts[2].account().data).unwrap();
    assert_eq!(updated.name, "reg-then-update");
    assert_eq!(updated.version, "0.2.0");
    assert_eq!(updated.registered_at, 55);
    assert_eq!(updated.author, AccountId::new(registrant));
}
