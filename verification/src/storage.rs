//! The storage of an agent debit note.

use miden_protocol::note::NoteStorage;
use vstd::prelude::*;

use crate::account;
use crate::account::AccountId;
use crate::word;
use crate::word::Word;

verus! {

/// The storage of a note, of miden-protocol.
#[verifier::external_type_specification]
#[verifier::external_body]
pub struct ExNoteStorage(NoteStorage);

/// The elements that the storage of a note holds.
pub uninterp spec fn storage_items(s: NoteStorage) -> Seq<u64>;

/// Most elements that the storage of a note can hold.
pub const MAX_ITEMS: usize = 1024;

/// `NoteStorage::new` of miden-protocol, which takes up to [`MAX_ITEMS`] elements and keeps them
/// in order.
#[verifier::external_body]
fn new_storage(items: Vec<u64>) -> (r: NoteStorage)
    requires
        items@.len() <= MAX_ITEMS,
    ensures
        storage_items(r) == word::reduced(items@),
{
    let items = items.into_iter().map(miden_protocol::Felt::new).collect();
    NoteStorage::new(items).unwrap()
}

/// What an agent debit note is made with.
///
/// Its seven storage items are the four elements of the commitment to the agent's key, suffix
/// and prefix of the user's account, and the block at which the note expires.
pub struct AgentDebitNoteStorage {
    pub agent_pubkey_commitment: Word,
    pub user_account_id: AccountId,
    pub expiry_block_height: u32,
}

/// The storage items of a note with this agent, user and expiry.
pub open spec fn layout(agent: Seq<u64>, user: account::Id, expiry_block: u32) -> Seq<u64> {
    seq![
        agent[0],
        agent[1],
        agent[2],
        agent[3],
        user.suffix as u64,
        user.prefix as u64,
        expiry_block as u64,
    ]
}

impl AgentDebitNoteStorage {
    /// Storage for a note of this agent and user that expires at this block.
    pub fn new(
        agent_pubkey_commitment: Word,
        user_account_id: AccountId,
        expiry_block_height: u32,
    ) -> (r: Self)
        ensures
            r.agent_pubkey_commitment == agent_pubkey_commitment,
            r.user_account_id == user_account_id,
            r.expiry_block_height == expiry_block_height,
    {
        AgentDebitNoteStorage { agent_pubkey_commitment, user_account_id, expiry_block_height }
    }
}

impl From<AgentDebitNoteStorage> for NoteStorage {
    fn from(s: AgentDebitNoteStorage) -> (r: Self)
        ensures
            storage_items(r) == layout(
                s.agent_pubkey_commitment@,
                s.user_account_id@,
                s.expiry_block_height,
            ),
            storage_items(r).len() == 7,
            storage_items(r).take(4) == s.agent_pubkey_commitment@,
            storage_items(r)[4] == s.user_account_id@.suffix,
            storage_items(r)[5] == s.user_account_id@.prefix,
            storage_items(r)[6] == s.expiry_block_height,
    {
        let agent = s.agent_pubkey_commitment.elements();
        let suffix: u64 = s.user_account_id.suffix();
        let prefix: u64 = s.user_account_id.prefix();
        let items = vec![
            agent[0],
            agent[1],
            agent[2],
            agent[3],
            suffix,
            prefix,
            s.expiry_block_height as u64,
        ];
        proof {
            let l = layout(s.agent_pubkey_commitment@, s.user_account_id@, s.expiry_block_height);
            assert(items@ =~= l);
            assert(word::reduced(items@) =~= l);
            law_layout(s.agent_pubkey_commitment@, s.user_account_id@, s.expiry_block_height);
        }
        new_storage(items)
    }
}

/// Two storages with the same items need not be the same value, so what `from` gives is described
/// by its own contract.
impl vstd::std_specs::convert::FromSpecImpl<AgentDebitNoteStorage> for NoteStorage {
    open spec fn obeys_from_spec() -> bool {
        false
    }

    open spec fn from_spec(s: AgentDebitNoteStorage) -> Self {
        arbitrary()
    }
}

/// The storage has seven items: the four elements of the agent's commitment, suffix and prefix of
/// the user, and the expiry block itself.
pub proof fn law_layout(agent: Seq<u64>, user: account::Id, expiry_block: u32)
    requires
        agent.len() == 4,
        account::valid_id(user.prefix, user.suffix),
    ensures
        layout(agent, user, expiry_block).len() == 7,
        layout(agent, user, expiry_block).take(4) == agent,
        layout(agent, user, expiry_block)[4] == user.suffix,
        layout(agent, user, expiry_block)[5] == user.prefix,
        layout(agent, user, expiry_block)[6] == expiry_block,
{
    assert(layout(agent, user, expiry_block).take(4) =~= agent);
}

/// Notes with the same storage have the same agent, user and expiry.
pub proof fn law_layout_binds(
    agent1: Seq<u64>,
    user1: account::Id,
    expiry1: u32,
    agent2: Seq<u64>,
    user2: account::Id,
    expiry2: u32,
)
    requires
        agent1.len() == 4,
        agent2.len() == 4,
        account::valid_id(user1.prefix, user1.suffix),
        account::valid_id(user2.prefix, user2.suffix),
        layout(agent1, user1, expiry1) == layout(agent2, user2, expiry2),
    ensures
        agent1 == agent2,
        user1 == user2,
        expiry1 == expiry2,
{
    law_layout(agent1, user1, expiry1);
    law_layout(agent2, user2, expiry2);
}

} // verus!
