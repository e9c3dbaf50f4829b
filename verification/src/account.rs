//! The accounts that the execution framework hands to an instruction handler,
//! and what a handler hands back.

use vstd::prelude::*;

use crate::ids::{AccountId, PdaSeed, ProgramId};

verus! {

/// An account: the program that owns it, its balance, its data and its nonce.
pub struct Account {
    pub program_owner: ProgramId,
    pub balance: u128,
    pub data: Vec<u8>,
    pub nonce: u128,
}

/// What an `Account` holds.
pub struct AccountModel {
    pub program_owner: Seq<u32>,
    pub balance: u128,
    pub data: Seq<u8>,
    pub nonce: u128,
}

impl View for Account {
    type V = AccountModel;

    open spec fn view(&self) -> AccountModel {
        AccountModel {
            program_owner: self.program_owner@,
            balance: self.balance,
            data: self.data@,
            nonce: self.nonce,
        }
    }
}

/// The id of no program: eight zero words.
pub open spec fn no_program() -> Seq<u32> {
    Seq::new(8, |i: int| 0u32)
}

/// A fresh account: owned by no program, no balance, no data, nonce zero.
pub open spec fn default_account() -> AccountModel {
    AccountModel { program_owner: no_program(), balance: 0, data: seq![], nonce: 0 }
}

/// The account `a` with its data replaced by `data`.
pub open spec fn with_data(a: AccountModel, data: Seq<u8>) -> AccountModel {
    AccountModel { program_owner: a.program_owner, balance: a.balance, data, nonce: a.nonce }
}

impl Default for Account {
    fn default() -> (a: Account)
        ensures
            a@ == default_account(),
    {
        let a = Account { program_owner: [0u32; 8], balance: 0, data: Vec::new(), nonce: 0 };
        assert(a@.program_owner =~= no_program());
        assert(a@.data =~= seq![]);
        a
    }
}

impl Clone for Account {
    fn clone(&self) -> (a: Account)
        ensures
            a@ == self@,
    {
        let data = self.data.clone();
        assert(data@ =~= self.data@);
        Account {
            program_owner: self.program_owner,
            balance: self.balance,
            data,
            nonce: self.nonce,
        }
    }
}

impl Account {
    /// Whether no program owns the account.
    pub fn is_unowned(&self) -> (res: bool)
        ensures
            res == (self@.program_owner == no_program()),
    {
        let mut i: usize = 0;
        while i < 8
            invariant
                0 <= i <= 8,
                forall|j: int| 0 <= j < i ==> self.program_owner@[j] == 0,
            decreases 8 - i,
        {
            if self.program_owner[i] != 0 {
                return false;
            }
            i = i + 1;
        }
        assert(self@.program_owner =~= no_program());
        true
    }

    /// Whether the account equals `Account::default()`.
    pub fn is_default(&self) -> (res: bool)
        ensures
            res == (self@ == default_account()),
    {
        let unowned = self.is_unowned();
        if unowned && self.balance == 0 && self.data.len() == 0 && self.nonce == 0 {
            assert(self@.data =~= seq![]);
            true
        } else {
            false
        }
    }
}

/// An account together with its id and whether its owner signed the transaction.
pub struct AccountWithMetadata {
    pub account: Account,
    pub is_authorized: bool,
    pub account_id: AccountId,
}

/// How a program claims ownership of an account.
#[derive(Clone, Copy)]
pub enum Claim {
    /// As the account derived from the program id and this seed.
    Pda(PdaSeed),
}

/// The seed bytes that a claim names.
pub open spec fn claim_seed(c: Claim) -> Seq<u8> {
    match c {
        Claim::Pda(seed) => seed@,
    }
}

/// The state of an account after an instruction, and the claim it needs.
pub struct AccountPostState {
    account: Account,
    claim: Option<Claim>,
}

/// What an `AccountPostState` holds: the account, and the seed of the claim
/// that it requires, if any.
pub struct PostStateModel {
    pub account: AccountModel,
    pub claim: Option<Seq<u8>>,
}

impl View for AccountPostState {
    type V = PostStateModel;

    closed spec fn view(&self) -> PostStateModel {
        PostStateModel {
            account: self.account@,
            claim: match self.claim {
                Some(c) => Some(claim_seed(c)),
                None => None,
            },
        }
    }
}

impl AccountPostState {
    /// The account, with no claim.
    pub fn new(account: Account) -> (s: AccountPostState)
        ensures
            s@ == (PostStateModel { account: account@, claim: None }),
    {
        AccountPostState { account, claim: None }
    }

    /// The account, claimed by the program.
    pub fn new_claimed(account: Account, claim: Claim) -> (s: AccountPostState)
        ensures
            s@ == (PostStateModel { account: account@, claim: Some(claim_seed(claim)) }),
    {
        AccountPostState { account, claim: Some(claim) }
    }

    /// The account, claimed by the program when no program owns it yet.
    pub fn new_claimed_if_default(account: Account, claim: Claim) -> (s: AccountPostState)
        ensures
            s@ == (PostStateModel {
                account: account@,
                claim: if account@.program_owner == no_program() {
                    Some(claim_seed(claim))
                } else {
                    None
                },
            }),
    {
        if account.is_unowned() {
            AccountPostState { account, claim: Some(claim) }
        } else {
            AccountPostState { account, claim: None }
        }
    }

    pub fn account(&self) -> (a: &Account)
        ensures
            a@ == self@.account,
    {
        &self.account
    }

    /// The claim that the framework must grant for this post state.
    pub fn required_claim(&self) -> (c: Option<Claim>)
        ensures
            match c {
                Some(c) => self@.claim == Some(claim_seed(c)),
                None => self@.claim is None,
            },
    {
        self.claim
    }
}

/// A call into another program that a handler asks the framework to make.
pub struct ChainedCall {
    pub program_id: ProgramId,
    pub instruction_data: Vec<u8>,
}

} // verus!
