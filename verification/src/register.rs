//! The `Register` instruction: creates a program entry and counts it in the
//! registry state.
//!
//! Accounts, in order: the registry state (the singleton, mutable), the author
//! (must have signed), the program entry (must still be a fresh account).

use vstd::prelude::*;

use crate::account::{
    default_account, no_program, with_data, Account, AccountPostState, AccountWithMetadata,
    ChainedCall, Claim, PostStateModel,
};
use crate::codec::{
    decode_state, encode_entry, encode_state, entry_bytes, entry_encodable, lemma_parse_entry_encoded,
    lemma_parse_state_bytes, lemma_parse_state_encoded, parse_entry, parse_state, state_bytes,
    state_well_formed, text_fits_prefix, texts_fit_prefix, DecodeError,
};
use crate::ids::{decimal, decimal_text, program_entry_pda_seed, program_entry_seed, registry_state_pda_seed, registry_state_seed};
use crate::state::{texts, EntryModel, ProgramEntry, RegisterArgs, RegistryState, StateModel};

verus! {

/// Why the registry program refuses a `Register` instruction.
#[derive(Debug, Clone, Copy, PartialEq, Eq, Structural)]
pub enum RegisterError {
    /// Fewer than three accounts were passed: `got` of them.
    TooFewAccounts { got: usize },
    /// The author did not sign.
    NotSigned,
    /// The program entry account is not fresh.
    EntryInitialized,
    /// The program name is empty.
    EmptyName,
    /// The program version is empty.
    EmptyVersion,
    /// The registry state account holds data that is not a registry state.
    StateUnreadable,
    /// The program count cannot grow any further.
    CountOverflow,
    /// A string or the tag list is too long to be stored.
    TooLarge,
}

/// The text with which the registry program aborts on `e`.
pub open spec fn register_message(e: RegisterError) -> Seq<char> {
    match e {
        RegisterError::TooFewAccounts { got } => "Register requires registry_state + author + program_entry accounts, got "@ + decimal(got as nat),
        RegisterError::NotSigned => "Author must sign the Register transaction"@,
        RegisterError::EntryInitialized => "program_entry PDA must be uninitialized"@,
        RegisterError::EmptyName => "Program name must not be empty"@,
        RegisterError::EmptyVersion => "Program version must not be empty"@,
        RegisterError::StateUnreadable => "Failed to deserialize RegistryState"@,
        RegisterError::CountOverflow => "Program count overflow"@,
        RegisterError::TooLarge => "Failed to serialize ProgramEntry"@,
    }
}

impl RegisterError {
    /// The text with which the registry program aborts.
    pub fn message(&self) -> (m: String)
        ensures
            m@ == register_message(*self),
    {
        match self {
            RegisterError::TooFewAccounts { got } => {
                let mut m = String::from_str("Register requires registry_state + author + program_entry accounts, got ");
                m.append(decimal_text(*got).as_str());
                m
            },
            RegisterError::NotSigned => String::from_str("Author must sign the Register transaction"),
            RegisterError::EntryInitialized => String::from_str("program_entry PDA must be uninitialized"),
            RegisterError::EmptyName => String::from_str("Program name must not be empty"),
            RegisterError::EmptyVersion => String::from_str("Program version must not be empty"),
            RegisterError::StateUnreadable => String::from_str("Failed to deserialize RegistryState"),
            RegisterError::CountOverflow => String::from_str("Program count overflow"),
            RegisterError::TooLarge => String::from_str("Failed to serialize ProgramEntry"),
        }
    }
}

/// The registry state after one more registration by `author`, given the data
/// the state account held before (none on first use).
pub open spec fn state_after_register(pre: Seq<u8>, author: Seq<u8>) -> StateModel {
    if pre.len() == 0 {
        StateModel { authority: author, program_count: 1 }
    } else {
        let s = parse_state(pre)->Ok_0;
        StateModel { authority: s.authority, program_count: (s.program_count + 1) as u64 }
    }
}

/// The entry that a registration creates.
pub open spec fn registered_entry(args: &RegisterArgs, author: Seq<u8>, timestamp: u64) -> EntryModel {
    EntryModel {
        program_id: args.program_id@,
        name: args.name@,
        version: args.version@,
        author,
        idl_cid: args.idl_cid@,
        description: args.description@,
        registered_at: timestamp,
        tags: texts(args.tags@),
    }
}

/// The accounts after a registration, and the claims they need: the state
/// account with the new count (claimed by the program when it has no owner
/// yet), the author unchanged, a fresh account holding the new entry (claimed).
pub open spec fn register_post_states(
    accounts: Seq<AccountWithMetadata>,
    args: &RegisterArgs,
    timestamp: u64,
) -> Seq<PostStateModel> {
    seq![
        PostStateModel {
            account: with_data(
                accounts[0].account@,
                state_bytes(state_after_register(accounts[0].account@.data, accounts[1].account_id@)),
            ),
            claim: if accounts[0].account@.program_owner == no_program() {
                Some(registry_state_seed())
            } else {
                None
            },
        },
        PostStateModel { account: accounts[1].account@, claim: None },
        PostStateModel {
            account: with_data(
                default_account(),
                entry_bytes(registered_entry(args, accounts[1].account_id@, timestamp)),
            ),
            claim: Some(program_entry_seed(args.program_id@)),
        },
    ]
}

/// The first reason, in the order the program checks them, to refuse a
/// registration; `None` when it goes through.
pub open spec fn register_rejection(accounts: Seq<AccountWithMetadata>, args: &RegisterArgs) -> Option<
    RegisterError,
> {
    if accounts.len() < 3 {
        Some(RegisterError::TooFewAccounts { got: accounts.len() as usize })
    } else if !accounts[1].is_authorized {
        Some(RegisterError::NotSigned)
    } else if accounts[2].account@ != default_account() {
        Some(RegisterError::EntryInitialized)
    } else if args.name@.len() == 0 {
        Some(RegisterError::EmptyName)
    } else if args.version@.len() == 0 {
        Some(RegisterError::EmptyVersion)
    } else if accounts[0].account@.data.len() != 0 && parse_state(accounts[0].account@.data) is Err {
        Some(RegisterError::StateUnreadable)
    } else if accounts[0].account@.data.len() != 0 && parse_state(
        accounts[0].account@.data,
    )->Ok_0.program_count == u64::MAX {
        Some(RegisterError::CountOverflow)
    } else if !entry_encodable(registered_entry(args, accounts[1].account_id@, 0)) {
        Some(RegisterError::TooLarge)
    } else {
        None
    }
}

/// Check a `Register` instruction as the registry program does, before it
/// changes anything.
pub fn check(accounts: &[AccountWithMetadata], args: &RegisterArgs) -> (res: Result<(), RegisterError>)
    ensures
        match res {
            Ok(()) => register_rejection(accounts@, args) is None,
            Err(e) => register_rejection(accounts@, args) == Some(e),
        },
{
    if accounts.len() < 3 {
        return Err(RegisterError::TooFewAccounts { got: accounts.len() });
    }
    if !accounts[1].is_authorized {
        return Err(RegisterError::NotSigned);
    }
    if !accounts[2].account.is_default() {
        return Err(RegisterError::EntryInitialized);
    }
    if args.name.as_str().is_empty() {
        return Err(RegisterError::EmptyName);
    }
    if args.version.as_str().is_empty() {
        return Err(RegisterError::EmptyVersion);
    }
    let data = &accounts[0].account.data;
    if data.len() != 0 {
        match decode_state(data.as_slice()) {
            Err(_) => {
                return Err(RegisterError::StateUnreadable);
            },
            Ok(s) => {
                if s.program_count == u64::MAX {
                    return Err(RegisterError::CountOverflow);
                }
            },
        }
    }
    let fits = text_fits_prefix(&args.name) && text_fits_prefix(&args.version) && text_fits_prefix(
        &args.idl_cid,
    ) && text_fits_prefix(&args.description) && texts_fit_prefix(&args.tags);
    if !fits {
        return Err(RegisterError::TooLarge);
    }
    Ok(())
}

/// Handle the Register instruction.
///
/// The registry is permissionless: anyone who signs can register a program.
/// PDA derivation correctness is enforced by the framework; the handler trusts
/// the account order.
pub fn handle(accounts: &[AccountWithMetadata], args: &RegisterArgs, timestamp: u64) -> (res: (
    Vec<AccountPostState>,
    Vec<ChainedCall>,
))
    requires
        register_rejection(accounts@, args) is None,
    ensures
        res.1@.len() == 0,
        res.0@.map_values(|p: AccountPostState| p@) == register_post_states(accounts@, args, timestamp),
        res.0@.len() == 3,
        parse_entry(res.0@[2]@.account.data) matches Ok(m) && {
            &&& m.program_id == args.program_id@
            &&& m.name == args.name@
            &&& m.version == args.version@
            &&& m.idl_cid == args.idl_cid@
            &&& m.description == args.description@
            &&& m.tags.len() == args.tags@.len()
            &&& forall|i: int| 0 <= i < m.tags.len() ==> #[trigger] m.tags[i] == args.tags@[i]@
            &&& m.author == accounts[1].account_id@
            &&& m.registered_at == timestamp
        },
{
    let registry_state_account = &accounts[0];
    let author_account = &accounts[1];

    // Read the registry state (none yet on first use).
    let state_data = &registry_state_account.account.data;
    let mut state = if state_data.len() == 0 {
        RegistryState::new(author_account.account_id)
    } else {
        match decode_state(state_data.as_slice()) {
            Ok(s) => s,
            Err(_) => vstd::pervasive::unreached(),
        }
    };
    state.increment();

    let entry = ProgramEntry::new(
        args.program_id,
        args.name.clone(),
        args.version.clone(),
        author_account.account_id,
        args.idl_cid.clone(),
        args.description.clone(),
        timestamp,
        args.tags.clone(),
    );
    assert(texts(args.tags@) =~= entry@.tags);

    let state_bytes = encode_state(&state);
    let mut registry_state_post = registry_state_account.account.clone();
    registry_state_post.data = state_bytes;

    let entry_bytes = encode_entry(&entry);
    let mut program_entry_post = Account::default();
    program_entry_post.data = entry_bytes;

    let author_post = author_account.account.clone();

    let mut post_states: Vec<AccountPostState> = Vec::new();
    post_states.push(
        AccountPostState::new_claimed_if_default(
            registry_state_post,
            Claim::Pda(registry_state_pda_seed()),
        ),
    );
    post_states.push(AccountPostState::new(author_post));
    post_states.push(
        AccountPostState::new_claimed(
            program_entry_post,
            Claim::Pda(program_entry_pda_seed(&args.program_id)),
        ),
    );
    assert(post_states@.map_values(|p: AccountPostState| p@) =~= register_post_states(
        accounts@,
        args,
        timestamp,
    ));
    proof {
        lemma_register_stores_arguments(accounts@, args, timestamp);
        assert(post_states@[2]@ == post_states@.map_values(|p: AccountPostState| p@)[2]);
    }
    (post_states, Vec::new())
}

/// After an accepted registration the state account reads back as the registry
/// state with exactly one more program (the first, with the signer as
/// authority, when the account held nothing yet), and the entry account reads
/// back as the registered entry, whose author is the signer and whose
/// registration time is the timestamp the handler was given. The state
/// account keeps its owner, balance and nonce, and is claimed (as
/// `new_claimed_if_default` does) exactly when no program owns it.
pub proof fn lemma_register_then_read(
    accounts: Seq<AccountWithMetadata>,
    args: &RegisterArgs,
    timestamp: u64,
)
    requires
        register_rejection(accounts, args) is None,
    ensures
        ({
            let pre = accounts[0].account@.data;
            let posts = register_post_states(accounts, args, timestamp);
            &&& parse_state(posts[0].account.data) is Ok
            &&& parse_state(posts[0].account.data)->Ok_0.program_count == (if pre.len() == 0 {
                1
            } else {
                parse_state(pre)->Ok_0.program_count + 1
            })
            &&& pre.len() == 0 ==> parse_state(posts[0].account.data)->Ok_0.authority
                == accounts[1].account_id@
            &&& pre.len() != 0 ==> parse_state(posts[0].account.data)->Ok_0.authority
                == parse_state(pre)->Ok_0.authority
            &&& parse_entry(posts[2].account.data) == Ok::<EntryModel, DecodeError>(
                registered_entry(args, accounts[1].account_id@, timestamp),
            )
            &&& parse_entry(posts[2].account.data)->Ok_0.author == accounts[1].account_id@
            &&& parse_entry(posts[2].account.data)->Ok_0.registered_at == timestamp
            &&& posts[0].account.program_owner == accounts[0].account@.program_owner
            &&& posts[0].account.balance == accounts[0].account@.balance
            &&& posts[0].account.nonce == accounts[0].account@.nonce
            &&& posts[0].claim == (if posts[0].account.program_owner == no_program() {
                Some(registry_state_seed())
            } else {
                None
            })
        }),
{
    let pre = accounts[0].account@.data;
    let st = state_after_register(pre, accounts[1].account_id@);
    if pre.len() != 0 {
        lemma_parse_state_bytes(pre);
    }
    assert(accounts[1].account_id@.len() == 32);
    assert(state_well_formed(st));
    lemma_parse_state_encoded(st);
    let m = registered_entry(args, accounts[1].account_id@, timestamp);
    assert(entry_encodable(registered_entry(args, accounts[1].account_id@, 0)));
    assert(entry_encodable(m));
    lemma_parse_entry_encoded(m);
}

/// An accepted registration leaves the author's account as it was and asks
/// for no claim on it; the new entry account is claimed under the seed of the
/// registered program id, and the state account is claimed exactly when no
/// program owns it yet (its first use).
pub proof fn lemma_register_claims(accounts: Seq<AccountWithMetadata>, args: &RegisterArgs, timestamp: u64)
    requires
        register_rejection(accounts, args) is None,
    ensures
        ({
            let posts = register_post_states(accounts, args, timestamp);
            &&& posts.len() == 3
            &&& posts[1].account == accounts[1].account@
            &&& posts[1].claim is None
            &&& posts[2].claim == Some(program_entry_seed(args.program_id@))
            &&& posts[2].account.program_owner == no_program()
            &&& (posts[0].claim is Some <==> accounts[0].account@.program_owner == no_program())
            &&& posts[0].claim is Some ==> posts[0].claim == Some(registry_state_seed())
        }),
{
}

/// The registry is permissionless: whether a registration is accepted does not
/// depend on which account signs it.
pub proof fn lemma_register_permissionless(
    accounts: Seq<AccountWithMetadata>,
    other: Seq<AccountWithMetadata>,
    args: &RegisterArgs,
)
    requires
        accounts.len() >= 3,
        other.len() == accounts.len(),
        forall|i: int| 0 <= i < accounts.len() && i != 1 ==> other[i] == accounts[i],
        other[1].account == accounts[1].account,
        other[1].is_authorized == accounts[1].is_authorized,
    ensures
        register_rejection(other, args) == register_rejection(accounts, args),
{
    assert(other[1].account_id@.len() == 32 && accounts[1].account_id@.len() == 32);
    assert(other[0] == accounts[0]);
    assert(other[2] == accounts[2]);
}

/// The registry program refuses (and `handle`'s precondition excludes) a
/// registration with too few accounts, an author who did not sign, an entry
/// account that is not fresh, or an empty name or version; the refusal names
/// the first of these, in that order, with the message the program aborts with.
pub proof fn lemma_register_refusals(accounts: Seq<AccountWithMetadata>, args: &RegisterArgs)
    ensures
        accounts.len() < 3 || !accounts[1].is_authorized || accounts[2].account@ != default_account()
            || args.name@.len() == 0 || args.version@.len() == 0 ==> register_rejection(
            accounts,
            args,
        ) is Some,
        accounts.len() < 3 ==> register_rejection(accounts, args) == Some(
            RegisterError::TooFewAccounts { got: accounts.len() as usize },
        ),
        accounts.len() >= 3 && !accounts[1].is_authorized ==> register_rejection(accounts, args)
            == Some(RegisterError::NotSigned),
        accounts.len() >= 3 && accounts[1].is_authorized && accounts[2].account@ != default_account()
            ==> register_rejection(accounts, args) == Some(RegisterError::EntryInitialized),
        accounts.len() >= 3 && accounts[1].is_authorized && accounts[2].account@ == default_account()
            && args.name@.len() == 0 ==> register_rejection(accounts, args) == Some(
            RegisterError::EmptyName,
        ),
        accounts.len() >= 3 && accounts[1].is_authorized && accounts[2].account@ == default_account()
            && args.name@.len() != 0 && args.version@.len() == 0 ==> register_rejection(accounts, args)
            == Some(RegisterError::EmptyVersion),
        accounts.len() >= 3 && !accounts[1].is_authorized ==> register_message(
            register_rejection(accounts, args)->Some_0,
        ) == "Author must sign the Register transaction"@,
        accounts.len() >= 3 && accounts[1].is_authorized && accounts[2].account@ != default_account()
            ==> register_message(register_rejection(accounts, args)->Some_0)
            == "program_entry PDA must be uninitialized"@,
        accounts.len() >= 3 && accounts[1].is_authorized && accounts[2].account@ == default_account()
            && args.name@.len() == 0 ==> register_message(register_rejection(accounts, args)->Some_0)
            == "Program name must not be empty"@,
        accounts.len() >= 3 && accounts[1].is_authorized && accounts[2].account@ == default_account()
            && args.name@.len() != 0 && args.version@.len() == 0 ==> register_message(
            register_rejection(accounts, args)->Some_0,
        ) == "Program version must not be empty"@,
{
}

/// After an accepted registration the entry account reads back as an entry
/// that holds exactly the arguments: the registered program id, name, version,
/// IDL CID, description and tags (in order), the signer as author and the
/// handler's timestamp.
pub proof fn lemma_register_stores_arguments(
    accounts: Seq<AccountWithMetadata>,
    args: &RegisterArgs,
    timestamp: u64,
)
    requires
        register_rejection(accounts, args) is None,
    ensures
        parse_entry(register_post_states(accounts, args, timestamp)[2].account.data) matches Ok(m) && {
            &&& m.program_id == args.program_id@
            &&& m.name == args.name@
            &&& m.version == args.version@
            &&& m.idl_cid == args.idl_cid@
            &&& m.description == args.description@
            &&& m.tags.len() == args.tags@.len()
            &&& forall|i: int| 0 <= i < m.tags.len() ==> #[trigger] m.tags[i] == args.tags@[i]@
            &&& m.author == accounts[1].account_id@
            &&& m.registered_at == timestamp
        },
{
    lemma_register_then_read(accounts, args, timestamp);
    let m = registered_entry(args, accounts[1].account_id@, timestamp);
    assert forall|i: int| 0 <= i < m.tags.len() implies #[trigger] m.tags[i] == args.tags@[i]@ by {}
}

} // verus!
