use lez_registry::account::{Account, AccountWithMetadata};
use lez_registry::codec::{decode_entry, decode_state, encode_entry};
use lez_registry::guest::{register, register_checked, update, update_checked, AutoClaim};
use lez_registry::register::RegisterError;
use lez_registry::update::UpdateError;
use lez_registry::ids::AccountId;
use lez_registry::state::ProgramEntry;

fn account(id: u8, data: Vec<u8>, authorized: bool) -> AccountWithMetadata {
    let mut a = Account::default();
    a.data = data;
    AccountWithMetadata { account_id: AccountId::new([id; 32]), account: a, is_authorized: authorized }
}

#[test]
fn guest_register_outputs_accounts_and_claims() {
    let out = register(
        account(10, vec![], false),
        account(1, vec![], true),
        account(20, vec![], false),
        [1, 2, 3, 4, 5, 6, 7, 8],
        "prog".to_string(),
        "1.0.0".to_string(),
        "cid".to_string(),
        "desc".to_string(),
        vec!["t".to_string()],
        1_700_000_000,
    );
    assert_eq!(out.accounts.len(), 3);
    assert!(out.chained_calls.is_empty());
    assert_eq!(decode_state(&out.accounts[0].data).unwrap().program_count, 1);
    let entry = decode_entry(&out.accounts[2].data).unwrap();
    assert_eq!(entry.registered_at, 1_700_000_000);
    assert_eq!(entry.name, "prog");
    assert!(matches!(out.claims[0], AutoClaim::Claimed(_)));
    assert!(matches!(out.claims[1], AutoClaim::NoClaim));
    assert!(matches!(out.claims[2], AutoClaim::Claimed(_)));
}

#[test]
fn guest_update_outputs_updated_entry() {
    let entry = ProgramEntry::new(
        [1; 8],
        "prog".to_string(),
        "1.0.0".to_string(),
        AccountId::new([1; 32]),
        "cid".to_string(),
        "desc".to_string(),
        5,
        vec![],
    );
    let out = update(
        account(10, vec![], false),
        account(1, vec![], true),
        account(20, encode_entry(&entry), false),
        [1; 8],
        "2.0.0".to_string(),
        String::new(),
        String::new(),
        vec![],
    );
    let updated = decode_entry(&out.accounts[2].data).unwrap();
    assert_eq!(updated.version, "2.0.0");
    assert_eq!(updated.idl_cid, "cid");
    assert!(out.claims.iter().all(|c| matches!(c, AutoClaim::NoClaim)));
}

#[test]
fn checked_entries_refuse_with_the_reason() {
    let refused = register_checked(
        account(10, vec![], false),
        account(1, vec![], false),
        account(20, vec![], false),
        [1; 8],
        "prog".to_string(),
        "1.0.0".to_string(),
        "cid".to_string(),
        String::new(),
        vec![],
        7,
    );
    match refused {
        Err(e) => {
            assert_eq!(e, RegisterError::NotSigned);
            assert!(e.message().contains("Author must sign"));
        }
        Ok(_) => panic!("an unsigned registration was accepted"),
    }

    let accepted = register_checked(
        account(10, vec![], false),
        account(1, vec![], true),
        account(20, vec![], false),
        [1; 8],
        "prog".to_string(),
        "1.0.0".to_string(),
        "cid".to_string(),
        String::new(),
        vec![],
        7,
    );
    let out = accepted.ok().unwrap();
    assert_eq!(decode_entry(&out.accounts[2].data).unwrap().registered_at, 7);

    let refused = update_checked(
        account(10, vec![], false),
        account(1, vec![], true),
        account(20, vec![], false),
        [1; 8],
        "2.0.0".to_string(),
        String::new(),
        String::new(),
        vec![],
    );
    assert!(matches!(refused, Err(UpdateError::EntryNotInitialized)));
}
