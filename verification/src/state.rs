use vstd::prelude::*;

use crate::ids::{AccountId, ProgramId};

verus! {

// ---------------------------------------------------------------------------
// Instructions
// ---------------------------------------------------------------------------

/// Instructions accepted by the registry program.
pub enum Instruction {
    /// Register a new program entry. Anyone can register; the signer becomes
    /// the author and only the author may later update the entry.
    Register {
        program_id: ProgramId,
        name: String,
        version: String,
        idl_cid: String,
        description: String,
        tags: Vec<String>,
    },
    /// Update metadata for an existing program entry. Only the original author
    /// (signer) is allowed.
    Update {
        program_id: ProgramId,
        version: String,
        idl_cid: String,
        description: String,
        tags: Vec<String>,
    },
}

/// Arguments for the `Register` instruction.
pub struct RegisterArgs {
    /// Unique on-chain ID of the program being registered.
    pub program_id: ProgramId,
    /// Human-readable name, e.g. "lez-multisig".
    pub name: String,
    /// Semantic version string, e.g. "0.1.0".
    pub version: String,
    /// Codex CID of the IDL JSON stored on Logos Storage.
    pub idl_cid: String,
    /// Free-form description.
    pub description: String,
    /// Optional tags, e.g. ["governance", "multisig"].
    pub tags: Vec<String>,
}

/// Arguments for the `Update` instruction. An empty field (or empty tag list)
/// keeps the stored value.
pub struct UpdateArgs {
    /// Program ID identifies which entry to update.
    pub program_id: ProgramId,
    /// New version string.
    pub version: String,
    /// New IDL CID.
    pub idl_cid: String,
    /// New description.
    pub description: String,
    /// New tags list (replaces existing).
    pub tags: Vec<String>,
}

/// The texts of a list of strings.
pub open spec fn texts(v: Seq<String>) -> Seq<Seq<char>> {
    v.map_values(|s: String| s@)
}

// ---------------------------------------------------------------------------
// On-chain state
// ---------------------------------------------------------------------------

/// Singleton record that tracks global registry statistics.
pub struct RegistryState {
    /// The account that deployed / owns the registry (set at init time).
    pub authority: AccountId,
    /// Counter incremented each time a program is successfully registered.
    pub program_count: u64,
}

/// What a `RegistryState` holds.
pub struct StateModel {
    pub authority: Seq<u8>,
    pub program_count: u64,
}

impl View for RegistryState {
    type V = StateModel;

    open spec fn view(&self) -> StateModel {
        StateModel { authority: self.authority@, program_count: self.program_count }
    }
}

impl Default for RegistryState {
    fn default() -> (s: RegistryState)
        ensures
            s@ == (StateModel { authority: Seq::new(32, |i: int| 0u8), program_count: 0 }),
    {
        let s = RegistryState { authority: AccountId::new([0u8; 32]), program_count: 0 };
        assert(s@.authority =~= Seq::new(32, |i: int| 0u8));
        s
    }
}

impl RegistryState {
    pub fn new(authority: AccountId) -> (s: RegistryState)
        ensures
            s@ == (StateModel { authority: authority@, program_count: 0 }),
    {
        RegistryState { authority, program_count: 0 }
    }

    /// Increment and return the new program count.
    pub fn increment(&mut self) -> (count: u64)
        requires
            old(self).program_count < u64::MAX,
        ensures
            final(self).authority == old(self).authority,
            final(self).program_count == old(self).program_count + 1,
            count == final(self).program_count,
    {
        self.program_count = self.program_count + 1;
        self.program_count
    }
}

/// Per-program entry stored in its own account.
pub struct ProgramEntry {
    /// The on-chain program ID this entry describes.
    pub program_id: ProgramId,
    /// Human-readable name.
    pub name: String,
    /// Version string.
    pub version: String,
    /// The account that registered the program (only they can update).
    pub author: AccountId,
    /// Codex CID of the IDL JSON.
    pub idl_cid: String,
    /// Free-form description.
    pub description: String,
    /// Block timestamp at registration time (seconds since epoch, set by host).
    pub registered_at: u64,
    /// Searchable tags.
    pub tags: Vec<String>,
}

/// What a `ProgramEntry` holds.
pub struct EntryModel {
    pub program_id: Seq<u32>,
    pub name: Seq<char>,
    pub version: Seq<char>,
    pub author: Seq<u8>,
    pub idl_cid: Seq<char>,
    pub description: Seq<char>,
    pub registered_at: u64,
    pub tags: Seq<Seq<char>>,
}

impl View for ProgramEntry {
    type V = EntryModel;

    open spec fn view(&self) -> EntryModel {
        EntryModel {
            program_id: self.program_id@,
            name: self.name@,
            version: self.version@,
            author: self.author@,
            idl_cid: self.idl_cid@,
            description: self.description@,
            registered_at: self.registered_at,
            tags: texts(self.tags@),
        }
    }
}

impl ProgramEntry {
    pub fn new(
        program_id: ProgramId,
        name: String,
        version: String,
        author: AccountId,
        idl_cid: String,
        description: String,
        registered_at: u64,
        tags: Vec<String>,
    ) -> (e: ProgramEntry)
        ensures
            e@ == (EntryModel {
                program_id: program_id@,
                name: name@,
                version: version@,
                author: author@,
                idl_cid: idl_cid@,
                description: description@,
                registered_at,
                tags: texts(tags@),
            }),
    {
        ProgramEntry {
            program_id,
            name,
            version,
            author,
            idl_cid,
            description,
            registered_at,
            tags,
        }
    }
}

} // verus!
