//! The `Update` instruction: changes the metadata of an existing program entry.
//! Only the original author, signing, may do so.
//!
//! Accounts, in order: the registry state (passed through unchanged), the author
//! (must have signed and must be the stored author), the program entry (must
//! hold an entry).

use vstd::prelude::*;

use crate::account::{with_data, AccountPostState, AccountWithMetadata, ChainedCall, PostStateModel};
use crate::codec::{
    decode_entry, encode_entry, entry_bytes, entry_encodable, lemma_parse_entry_bytes,
    lemma_parse_entry_encoded, parse_entry, text_fits_prefix, texts_fit_prefix, DecodeError,
};
use crate::register::{lemma_register_then_read, register_post_states, register_rejection, registered_entry};
use crate::ids::{decimal, decimal_text};
use crate::state::{texts, EntryModel, RegisterArgs, UpdateArgs};

verus! {

/// Why the registry program refuses an `Update` instruction.
#[derive(Debug, Clone, Copy, PartialEq, Eq, Structural)]
pub enum UpdateError {
    /// Fewer than three accounts were passed: `got` of them.
    TooFewAccounts { got: usize },
    /// The author did not sign.
    NotSigned,
    /// The program entry account holds no data.
    EntryNotInitialized,
    /// The program entry account holds data that is not a program entry.
    EntryUnreadable,
    /// The signer is not the author stored in the entry.
    NotAuthor,
    /// A new string or tag list is too long to be stored.
    TooLarge,
}

/// The text with which the registry program aborts on `e`.
pub open spec fn update_message(e: UpdateError) -> Seq<char> {
    match e {
        UpdateError::TooFewAccounts { got } => "Update requires registry_state + author + program_entry accounts, got "@ + decimal(got as nat),
        UpdateError::NotSigned => "Author must sign the Update transaction"@,
        UpdateError::EntryNotInitialized => "program_entry PDA is not initialized — register the program first"@,
        UpdateError::EntryUnreadable => "Failed to deserialize ProgramEntry"@,
        UpdateError::NotAuthor => "Only the original author can update this program entry"@,
        UpdateError::TooLarge => "Failed to serialize ProgramEntry"@,
    }
}

impl UpdateError {
    /// The text with which the registry program aborts.
    pub fn message(&self) -> (m: String)
        ensures
            m@ == update_message(*self),
    {
        match self {
            UpdateError::TooFewAccounts { got } => {
                let mut m = String::from_str("Update requires registry_state + author + program_entry accounts, got ");
                m.append(decimal_text(*got).as_str());
                m
            },
            UpdateError::NotSigned => String::from_str("Author must sign the Update transaction"),
            UpdateError::EntryNotInitialized => String::from_str("program_entry PDA is not initialized — register the program first"),
            UpdateError::EntryUnreadable => String::from_str("Failed to deserialize ProgramEntry"),
            UpdateError::NotAuthor => String::from_str("Only the original author can update this program entry"),
            UpdateError::TooLarge => String::from_str("Failed to serialize ProgramEntry"),
        }
    }
}

/// `new` unless it is empty, in which case `old`.
pub open spec fn replace_unless_empty<A>(old: Seq<A>, new: Seq<A>) -> Seq<A> {
    if new.len() == 0 {
        old
    } else {
        new
    }
}

/// The entry after an update: each non-empty field of the arguments replaces
/// the stored one; the id, name, author and timestamp stay.
pub open spec fn entry_after_update(old: EntryModel, args: &UpdateArgs) -> EntryModel {
    EntryModel {
        program_id: old.program_id,
        name: old.name,
        version: replace_unless_empty(old.version, args.version@),
        author: old.author,
        idl_cid: replace_unless_empty(old.idl_cid, args.idl_cid@),
        description: replace_unless_empty(old.description, args.description@),
        registered_at: old.registered_at,
        tags: replace_unless_empty(old.tags, texts(args.tags@)),
    }
}

/// The accounts after an update, none of them claimed: the registry state and
/// the author unchanged, the entry account holding the updated entry.
pub open spec fn update_post_states(accounts: Seq<AccountWithMetadata>, args: &UpdateArgs) -> Seq<
    PostStateModel,
> {
    seq![
        PostStateModel { account: accounts[0].account@, claim: None },
        PostStateModel { account: accounts[1].account@, claim: None },
        PostStateModel {
            account: with_data(
                accounts[2].account@,
                entry_bytes(entry_after_update(parse_entry(accounts[2].account@.data)->Ok_0, args)),
            ),
            claim: None,
        },
    ]
}

/// The first reason, in the order the program checks them, to refuse an
/// update; `None` when it goes through.
pub open spec fn update_rejection(accounts: Seq<AccountWithMetadata>, args: &UpdateArgs) -> Option<
    UpdateError,
> {
    if accounts.len() < 3 {
        Some(UpdateError::TooFewAccounts { got: accounts.len() as usize })
    } else if !accounts[1].is_authorized {
        Some(UpdateError::NotSigned)
    } else if accounts[2].account@.data.len() == 0 {
        Some(UpdateError::EntryNotInitialized)
    } else if parse_entry(accounts[2].account@.data) is Err {
        Some(UpdateError::EntryUnreadable)
    } else if parse_entry(accounts[2].account@.data)->Ok_0.author != accounts[1].account_id@ {
        Some(UpdateError::NotAuthor)
    } else if !entry_encodable(
        entry_after_update(parse_entry(accounts[2].account@.data)->Ok_0, args),
    ) {
        Some(UpdateError::TooLarge)
    } else {
        None
    }
}

/// Check an `Update` instruction as the registry program does, before it
/// changes anything.
pub fn check(accounts: &[AccountWithMetadata], args: &UpdateArgs) -> (res: Result<(), UpdateError>)
    ensures
        match res {
            Ok(()) => update_rejection(accounts@, args) is None,
            Err(e) => update_rejection(accounts@, args) == Some(e),
        },
{
    if accounts.len() < 3 {
        return Err(UpdateError::TooFewAccounts { got: accounts.len() });
    }
    if !accounts[1].is_authorized {
        return Err(UpdateError::NotSigned);
    }
    let data = &accounts[2].account.data;
    if data.len() == 0 {
        return Err(UpdateError::EntryNotInitialized);
    }
    let entry = match decode_entry(data.as_slice()) {
        Ok(e) => e,
        Err(_) => {
            return Err(UpdateError::EntryUnreadable);
        },
    };
    if !entry.author.same_as(&accounts[1].account_id) {
        return Err(UpdateError::NotAuthor);
    }
    proof {
        lemma_parse_entry_bytes(data@);
    }
    let fits = text_fits_prefix(&args.version) && text_fits_prefix(&args.idl_cid)
        && text_fits_prefix(&args.description) && texts_fit_prefix(&args.tags);
    if !fits {
        assert(!entry_encodable(entry_after_update(entry@, args)));
        return Err(UpdateError::TooLarge);
    }
    Ok(())
}

/// Handle the Update instruction. Empty arguments keep the stored values.
///
/// PDA derivation correctness is enforced by the framework.
pub fn handle(accounts: &[AccountWithMetadata], args: &UpdateArgs) -> (res: (
    Vec<AccountPostState>,
    Vec<ChainedCall>,
))
    requires
        update_rejection(accounts@, args) is None,
    ensures
        res.1@.len() == 0,
        res.0@.map_values(|p: AccountPostState| p@) == update_post_states(accounts@, args),
        res.0@.len() == 3,
        ({
            let old = parse_entry(accounts@[2].account@.data)->Ok_0;
            parse_entry(res.0@[2]@.account.data) matches Ok(m) && {
                &&& m.version == (if args.version@.len() == 0 { old.version } else { args.version@ })
                &&& m.idl_cid == (if args.idl_cid@.len() == 0 { old.idl_cid } else { args.idl_cid@ })
                &&& m.description == (if args.description@.len() == 0 {
                    old.description
                } else {
                    args.description@
                })
                &&& args.tags@.len() == 0 ==> m.tags == old.tags
                &&& args.tags@.len() != 0 ==> m.tags.len() == args.tags@.len() && forall|i: int|
                    0 <= i < m.tags.len() ==> #[trigger] m.tags[i] == args.tags@[i]@
                &&& m.program_id == old.program_id
                &&& m.name == old.name
                &&& m.author == old.author
                &&& m.registered_at == old.registered_at
            }
        }),
{
    let registry_state_account = &accounts[0];
    let author_account = &accounts[1];
    let program_entry_account = &accounts[2];

    let mut entry = match decode_entry(program_entry_account.account.data.as_slice()) {
        Ok(e) => e,
        Err(_) => vstd::pervasive::unreached(),
    };
    let ghost stored = entry@;

    // Apply updates (empty string = no change).
    if !args.version.as_str().is_empty() {
        entry.version = args.version.clone();
    }
    if !args.idl_cid.as_str().is_empty() {
        entry.idl_cid = args.idl_cid.clone();
    }
    if !args.description.as_str().is_empty() {
        entry.description = args.description.clone();
    }
    if args.tags.len() != 0 {
        entry.tags = args.tags.clone();
        assert(texts(entry.tags@) =~= texts(args.tags@));
    }
    assert(entry@ == entry_after_update(stored, args));

    let entry_bytes = encode_entry(&entry);
    let mut program_entry_post = program_entry_account.account.clone();
    program_entry_post.data = entry_bytes;

    let registry_state_post = registry_state_account.account.clone();
    let author_post = author_account.account.clone();

    let mut post_states: Vec<AccountPostState> = Vec::new();
    post_states.push(AccountPostState::new(registry_state_post));
    post_states.push(AccountPostState::new(author_post));
    post_states.push(AccountPostState::new(program_entry_post));
    assert(post_states@.map_values(|p: AccountPostState| p@) =~= update_post_states(
        accounts@,
        args,
    ));
    proof {
        lemma_update_applies_arguments(accounts@, args);
        assert(post_states@[2]@ == post_states@.map_values(|p: AccountPostState| p@)[2]);
    }
    (post_states, Vec::new())
}

/// An update never changes which program an entry describes, its name, its
/// author or its registration time.
pub proof fn lemma_update_keeps_identity(old: EntryModel, args: &UpdateArgs)
    ensures
        entry_after_update(old, args).program_id == old.program_id,
        entry_after_update(old, args).name == old.name,
        entry_after_update(old, args).author == old.author,
        entry_after_update(old, args).registered_at == old.registered_at,
{
}

/// An update whose fields are all empty leaves the entry as it was.
pub proof fn lemma_empty_update_keeps_entry(old: EntryModel, args: &UpdateArgs)
    requires
        args.version@.len() == 0,
        args.idl_cid@.len() == 0,
        args.description@.len() == 0,
        args.tags@.len() == 0,
    ensures
        entry_after_update(old, args) == old,
{
    assert(texts(args.tags@).len() == 0);
}

/// An accepted update was signed by the author stored in the entry.
pub proof fn lemma_only_author_updates(accounts: Seq<AccountWithMetadata>, args: &UpdateArgs)
    requires
        update_rejection(accounts, args) is None,
    ensures
        accounts[1].is_authorized,
        parse_entry(accounts[2].account@.data) is Ok,
        parse_entry(accounts[2].account@.data)->Ok_0.author == accounts[1].account_id@,
{
}

/// After an accepted update the entry account reads back as the stored entry
/// with the update applied.
pub proof fn lemma_update_then_read(accounts: Seq<AccountWithMetadata>, args: &UpdateArgs)
    requires
        update_rejection(accounts, args) is None,
    ensures
        parse_entry(update_post_states(accounts, args)[2].account.data) == Ok::<
            EntryModel,
            DecodeError,
        >(entry_after_update(parse_entry(accounts[2].account@.data)->Ok_0, args)),
{
    lemma_parse_entry_encoded(entry_after_update(parse_entry(accounts[2].account@.data)->Ok_0, args));
}

/// The signer of a registration becomes the entry's author, and only the author
/// may later update it: an update of the entry that the registration created,
/// signed by another account, is refused as not the author's; signed by the
/// registrant, it is accepted unless the new fields cannot be stored.
pub proof fn lemma_registrant_alone_updates(
    reg_accounts: Seq<AccountWithMetadata>,
    reg_args: &RegisterArgs,
    timestamp: u64,
    accounts: Seq<AccountWithMetadata>,
    args: &UpdateArgs,
)
    requires
        register_rejection(reg_accounts, reg_args) is None,
        accounts.len() >= 3,
        accounts[1].is_authorized,
        accounts[2].account@ == register_post_states(reg_accounts, reg_args, timestamp)[2].account,
    ensures
        accounts[1].account_id@ != reg_accounts[1].account_id@ ==> update_rejection(accounts, args)
            == Some(UpdateError::NotAuthor),
        accounts[1].account_id@ == reg_accounts[1].account_id@ ==> update_rejection(accounts, args)
            == (if entry_encodable(
            entry_after_update(registered_entry(reg_args, reg_accounts[1].account_id@, timestamp), args),
        ) {
            None::<UpdateError>
        } else {
            Some(UpdateError::TooLarge)
        }),
{
    lemma_register_then_read(reg_accounts, reg_args, timestamp);
    let data = accounts[2].account@.data;
    assert(parse_entry(data) is Ok);
    assert(data.len() != 0);
}

/// An accepted update changes only the entry account's data: the registry
/// state and the author's account stay as they were, the entry account keeps
/// its owner, balance and nonce, and no account is claimed.
pub proof fn lemma_update_touches_only_entry_data(accounts: Seq<AccountWithMetadata>, args: &UpdateArgs)
    requires
        update_rejection(accounts, args) is None,
    ensures
        ({
            let posts = update_post_states(accounts, args);
            &&& posts.len() == 3
            &&& posts[0].account == accounts[0].account@
            &&& posts[1].account == accounts[1].account@
            &&& posts[2].account.program_owner == accounts[2].account@.program_owner
            &&& posts[2].account.balance == accounts[2].account@.balance
            &&& posts[2].account.nonce == accounts[2].account@.nonce
            &&& forall|i: int| 0 <= i < 3 ==> (#[trigger] posts[i]).claim is None
        }),
{
}

/// The registry program refuses (and `handle`'s precondition excludes) an
/// update with too few accounts, an author who did not sign, an entry account
/// without data, data that is not an entry, or a signer who is not the stored
/// author; the refusal names the first of these, in that order, with the
/// message the program aborts with.
pub proof fn lemma_update_refusals(accounts: Seq<AccountWithMetadata>, args: &UpdateArgs)
    ensures
        accounts.len() < 3 || !accounts[1].is_authorized || accounts[2].account@.data.len() == 0
            || parse_entry(accounts[2].account@.data) is Err || parse_entry(
            accounts[2].account@.data,
        )->Ok_0.author != accounts[1].account_id@ ==> update_rejection(accounts, args) is Some,
        accounts.len() < 3 ==> update_rejection(accounts, args) == Some(
            UpdateError::TooFewAccounts { got: accounts.len() as usize },
        ),
        accounts.len() >= 3 && !accounts[1].is_authorized ==> update_rejection(accounts, args)
            == Some(UpdateError::NotSigned),
        accounts.len() >= 3 && accounts[1].is_authorized && accounts[2].account@.data.len() == 0
            ==> update_rejection(accounts, args) == Some(UpdateError::EntryNotInitialized),
        accounts.len() >= 3 && accounts[1].is_authorized && accounts[2].account@.data.len() != 0
            && parse_entry(accounts[2].account@.data) is Err ==> update_rejection(accounts, args)
            == Some(UpdateError::EntryUnreadable),
        accounts.len() >= 3 && accounts[1].is_authorized && parse_entry(accounts[2].account@.data) is Ok
            && parse_entry(accounts[2].account@.data)->Ok_0.author != accounts[1].account_id@
            ==> update_rejection(accounts, args) == Some(UpdateError::NotAuthor),
        accounts.len() >= 3 && !accounts[1].is_authorized ==> update_message(
            update_rejection(accounts, args)->Some_0,
        ) == "Author must sign the Update transaction"@,
        accounts.len() >= 3 && accounts[1].is_authorized && accounts[2].account@.data.len() == 0
            ==> update_message(update_rejection(accounts, args)->Some_0)
            == "program_entry PDA is not initialized — register the program first"@,
        accounts.len() >= 3 && accounts[1].is_authorized && parse_entry(accounts[2].account@.data) is Ok
            && parse_entry(accounts[2].account@.data)->Ok_0.author != accounts[1].account_id@
            ==> update_message(update_rejection(accounts, args)->Some_0)
            == "Only the original author can update this program entry"@,
{
    if accounts.len() >= 3 && parse_entry(accounts[2].account@.data) is Ok {
        assert(accounts[2].account@.data.len() != 0);
    }
}

/// The fields of an updated entry: each of the version, the IDL CID and the
/// description is the argument's when that is non-empty and the stored one
/// when it is empty; the tags are the argument's (in order) when there are any
/// and the stored ones otherwise; the program id, name, author and registration
/// time are the stored ones.
pub proof fn lemma_update_field_rules(old: EntryModel, args: &UpdateArgs)
    ensures
        ({
            let m = entry_after_update(old, args);
            &&& m.version == (if args.version@.len() == 0 { old.version } else { args.version@ })
            &&& m.idl_cid == (if args.idl_cid@.len() == 0 { old.idl_cid } else { args.idl_cid@ })
            &&& m.description == (if args.description@.len() == 0 {
                old.description
            } else {
                args.description@
            })
            &&& args.tags@.len() == 0 ==> m.tags == old.tags
            &&& args.tags@.len() != 0 ==> m.tags.len() == args.tags@.len() && forall|i: int|
                0 <= i < m.tags.len() ==> #[trigger] m.tags[i] == args.tags@[i]@
            &&& m.program_id == old.program_id
            &&& m.name == old.name
            &&& m.author == old.author
            &&& m.registered_at == old.registered_at
        }),
{
    let m = entry_after_update(old, args);
    if args.tags@.len() != 0 {
        assert forall|i: int| 0 <= i < m.tags.len() implies #[trigger] m.tags[i] == args.tags@[i]@ by {}
    }
}

/// After an accepted update the entry account reads back as the stored entry
/// with each non-empty argument field in place of the stored one, and every
/// other field kept.
pub proof fn lemma_update_applies_arguments(accounts: Seq<AccountWithMetadata>, args: &UpdateArgs)
    requires
        update_rejection(accounts, args) is None,
    ensures
        ({
            let old = parse_entry(accounts[2].account@.data)->Ok_0;
            parse_entry(update_post_states(accounts, args)[2].account.data) matches Ok(m) && {
                &&& m.version == (if args.version@.len() == 0 { old.version } else { args.version@ })
                &&& m.idl_cid == (if args.idl_cid@.len() == 0 { old.idl_cid } else { args.idl_cid@ })
                &&& m.description == (if args.description@.len() == 0 {
                    old.description
                } else {
                    args.description@
                })
                &&& args.tags@.len() == 0 ==> m.tags == old.tags
                &&& args.tags@.len() != 0 ==> m.tags.len() == args.tags@.len() && forall|i: int|
                    0 <= i < m.tags.len() ==> #[trigger] m.tags[i] == args.tags@[i]@
                &&& m.program_id == old.program_id
                &&& m.name == old.name
                &&& m.author == old.author
                &&& m.registered_at == old.registered_at
            }
        }),
{
    lemma_update_then_read(accounts, args);
    lemma_update_field_rules(parse_entry(accounts[2].account@.data)->Ok_0, args);
}

} // verus!
