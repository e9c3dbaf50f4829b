//! The registry program's two instructions as the execution framework calls
//! them: the handler's post states become the program's output accounts and
//! the claims it asks for.

use vstd::prelude::*;

use crate::account::{claim_seed, Account, AccountPostState, AccountWithMetadata, ChainedCall, Claim, PostStateModel};
use crate::ids::ProgramId;
use crate::register::{register_post_states, register_rejection, RegisterError};
use crate::state::{RegisterArgs, UpdateArgs};
use crate::update::{update_post_states, update_rejection, UpdateError};

verus! {

/// Whether the framework must grant a claim on an output account.
#[derive(Clone, Copy)]
pub enum AutoClaim {
    Claimed(Claim),
    NoClaim,
}

/// The seed of the claim asked for, if any.
pub open spec fn auto_claim_seed(c: AutoClaim) -> Option<Seq<u8>> {
    match c {
        AutoClaim::Claimed(claim) => Some(claim_seed(claim)),
        AutoClaim::NoClaim => None,
    }
}

/// What an instruction hands back to the framework: the accounts after it, the
/// claim each needs, and the calls into other programs it asks for.
pub struct ProgramOutput {
    pub accounts: Vec<Account>,
    pub claims: Vec<AutoClaim>,
    pub chained_calls: Vec<ChainedCall>,
}

/// The output accounts and claims are those of the post states.
pub open spec fn output_matches(out: &ProgramOutput, posts: Seq<PostStateModel>) -> bool {
    &&& out.accounts@.len() == posts.len()
    &&& out.claims@.len() == posts.len()
    &&& forall|i: int|
        0 <= i < posts.len() ==> (#[trigger] out.accounts@[i])@ == posts[i].account
            && auto_claim_seed(out.claims@[i]) == posts[i].claim
}

fn output_of(post_states: Vec<AccountPostState>, chained_calls: Vec<ChainedCall>) -> (out:
    ProgramOutput)
    ensures
        output_matches(&out, post_states@.map_values(|p: AccountPostState| p@)),
        out.chained_calls@ == chained_calls@,
{
    let ghost posts = post_states@.map_values(|p: AccountPostState| p@);
    let mut accounts: Vec<Account> = Vec::new();
    let mut claims: Vec<AutoClaim> = Vec::new();
    let mut i: usize = 0;
    while i < post_states.len()
        invariant
            0 <= i <= post_states@.len(),
            posts == post_states@.map_values(|p: AccountPostState| p@),
            accounts@.len() == i,
            claims@.len() == i,
            forall|j: int|
                0 <= j < i ==> (#[trigger] accounts@[j])@ == posts[j].account
                    && auto_claim_seed(claims@[j]) == posts[j].claim,
        decreases post_states@.len() - i,
    {
        let ps = &post_states[i];
        accounts.push(ps.account().clone());
        let claim = match ps.required_claim() {
            Some(c) => AutoClaim::Claimed(c),
            None => AutoClaim::NoClaim,
        };
        claims.push(claim);
        i = i + 1;
    }
    ProgramOutput { accounts, claims, chained_calls }
}

/// Register a new program in the on-chain registry. `timestamp` is the host's
/// block timestamp (seconds since the epoch), stored as the entry's
/// registration time.
///
/// Accounts: the registry state (mutable), the author (signer), the program
/// entry account (fresh, derived from the program id).
pub fn register(
    registry_state: AccountWithMetadata,
    author: AccountWithMetadata,
    program_entry_pda: AccountWithMetadata,
    program_id: ProgramId,
    name: String,
    version: String,
    idl_cid: String,
    description: String,
    tags: Vec<String>,
    timestamp: u64,
) -> (out: ProgramOutput)
    requires
        register_rejection(
            seq![registry_state, author, program_entry_pda],
            &(RegisterArgs { program_id, name, version, idl_cid, description, tags }),
        ) is None,
    ensures
        output_matches(
            &out,
            register_post_states(
                seq![registry_state, author, program_entry_pda],
                &(RegisterArgs { program_id, name, version, idl_cid, description, tags }),
                timestamp,
            ),
        ),
        out.chained_calls@.len() == 0,
{
    let mut accounts: Vec<AccountWithMetadata> = Vec::new();
    accounts.push(registry_state);
    accounts.push(author);
    accounts.push(program_entry_pda);
    let args = RegisterArgs { program_id, name, version, idl_cid, description, tags };
    let ghost expected = seq![registry_state, author, program_entry_pda];
    assert(accounts@ =~= expected);
    let (post_states, chained_calls) = crate::register::handle(accounts.as_slice(), &args, timestamp);
    output_of(post_states, chained_calls)
}

/// Update the metadata of a registered program.
///
/// Accounts: the registry state (passed through), the author (the original
/// registrant, signer), the program entry account (mutable).
pub fn update(
    registry_state: AccountWithMetadata,
    author: AccountWithMetadata,
    program_entry_pda: AccountWithMetadata,
    program_id: ProgramId,
    version: String,
    idl_cid: String,
    description: String,
    tags: Vec<String>,
) -> (out: ProgramOutput)
    requires
        update_rejection(
            seq![registry_state, author, program_entry_pda],
            &(UpdateArgs { program_id, version, idl_cid, description, tags }),
        ) is None,
    ensures
        output_matches(
            &out,
            update_post_states(
                seq![registry_state, author, program_entry_pda],
                &(UpdateArgs { program_id, version, idl_cid, description, tags }),
            ),
        ),
        out.chained_calls@.len() == 0,
{
    let mut accounts: Vec<AccountWithMetadata> = Vec::new();
    accounts.push(registry_state);
    accounts.push(author);
    accounts.push(program_entry_pda);
    let args = UpdateArgs { program_id, version, idl_cid, description, tags };
    let ghost expected = seq![registry_state, author, program_entry_pda];
    assert(accounts@ =~= expected);
    let (post_states, chained_calls) = crate::update::handle(accounts.as_slice(), &args);
    output_of(post_states, chained_calls)
}

/// `register`, for a caller that has not checked the instruction: a refused
/// registration gives the reason (whose `message` is the text the registry
/// program aborts with) and changes nothing.
pub fn register_checked(
    registry_state: AccountWithMetadata,
    author: AccountWithMetadata,
    program_entry_pda: AccountWithMetadata,
    program_id: ProgramId,
    name: String,
    version: String,
    idl_cid: String,
    description: String,
    tags: Vec<String>,
    timestamp: u64,
) -> (res: Result<ProgramOutput, RegisterError>)
    ensures
        match res {
            Err(e) => register_rejection(
                seq![registry_state, author, program_entry_pda],
                &(RegisterArgs { program_id, name, version, idl_cid, description, tags }),
            ) == Some(e),
            Ok(out) => {
                &&& register_rejection(
                    seq![registry_state, author, program_entry_pda],
                    &(RegisterArgs { program_id, name, version, idl_cid, description, tags }),
                ) is None
                &&& output_matches(
                    &out,
                    register_post_states(
                        seq![registry_state, author, program_entry_pda],
                        &(RegisterArgs { program_id, name, version, idl_cid, description, tags }),
                        timestamp,
                    ),
                )
                &&& out.chained_calls@.len() == 0
            },
        },
{
    let mut accounts: Vec<AccountWithMetadata> = Vec::new();
    accounts.push(registry_state);
    accounts.push(author);
    accounts.push(program_entry_pda);
    let args = RegisterArgs { program_id, name, version, idl_cid, description, tags };
    let ghost expected = seq![registry_state, author, program_entry_pda];
    assert(accounts@ =~= expected);
    match crate::register::check(accounts.as_slice(), &args) {
        Err(e) => Err(e),
        Ok(()) => {
            let (post_states, chained_calls) = crate::register::handle(
                accounts.as_slice(),
                &args,
                timestamp,
            );
            Ok(output_of(post_states, chained_calls))
        },
    }
}

/// `update`, for a caller that has not checked the instruction: a refused
/// update gives the reason (whose `message` is the text the registry program
/// aborts with) and changes nothing.
pub fn update_checked(
    registry_state: AccountWithMetadata,
    author: AccountWithMetadata,
    program_entry_pda: AccountWithMetadata,
    program_id: ProgramId,
    version: String,
    idl_cid: String,
    description: String,
    tags: Vec<String>,
) -> (res: Result<ProgramOutput, UpdateError>)
    ensures
        match res {
            Err(e) => update_rejection(
                seq![registry_state, author, program_entry_pda],
                &(UpdateArgs { program_id, version, idl_cid, description, tags }),
            ) == Some(e),
            Ok(out) => {
                &&& update_rejection(
                    seq![registry_state, author, program_entry_pda],
                    &(UpdateArgs { program_id, version, idl_cid, description, tags }),
                ) is None
                &&& output_matches(
                    &out,
                    update_post_states(
                        seq![registry_state, author, program_entry_pda],
                        &(UpdateArgs { program_id, version, idl_cid, description, tags }),
                    ),
                )
                &&& out.chained_calls@.len() == 0
            },
        },
{
    let mut accounts: Vec<AccountWithMetadata> = Vec::new();
    accounts.push(registry_state);
    accounts.push(author);
    accounts.push(program_entry_pda);
    let args = UpdateArgs { program_id, version, idl_cid, description, tags };
    let ghost expected = seq![registry_state, author, program_entry_pda];
    assert(accounts@ =~= expected);
    match crate::update::check(accounts.as_slice(), &args) {
        Err(e) => Err(e),
        Ok(()) => {
            let (post_states, chained_calls) = crate::update::handle(accounts.as_slice(), &args);
            Ok(output_of(post_states, chained_calls))
        },
    }
}

} // verus!
