//! Settlement: what the submitter does with a command, one outside step after the other.
//!
//! The submitter owns the client of the chain. It takes a command, performs one [`Step`] at a
//! time, reports what came of it as an [`Event`], and sends the reply when it gets there.

use miden_protocol::utils::serde::Deserializable;
use vstd::prelude::*;

use crate::account;
use crate::account::AccountId;
use crate::adn;
use crate::bytes;
use crate::client;
use crate::decoder;
use crate::error;
use crate::error::FacilitatorError;
use crate::message;
use crate::storage;
use crate::text;
use crate::types;
use crate::word;
use crate::word::Word;

verus! {

/// How often the chain is looked at for a submitted transaction.
pub const MAX_LOOKS: u32 = 15;

/// Schemes of account signatures.
#[derive(Clone, Copy, Debug)]
pub enum SignatureScheme {
    Falcon,
    Ecdsa,
}

/// A serialized transaction to complete with a signature and submit.
pub struct Rebuild {
    pub account_id: AccountId,
    pub request_bytes: Vec<u8>,
    pub scheme: SignatureScheme,
    pub pubkey_commitment: Word,
    pub message: Word,
    pub signature_hex: String,
    /// Needed for ECDSA only.
    pub pubkey_hex: Option<String>,
}

/// What the submitter is asked to do.
pub enum Command {
    /// Bring the client up to date; the reply is the block it is at.
    Sync,
    /// Take a serialized account into the client's store.
    AddAccountBytes { bytes: Vec<u8> },
    /// Take a serialized note into the client's store.
    ImportNoteBytes { bytes: Vec<u8> },
    /// Consume an agent debit note; the reply is transaction and block.
    ConsumeAdnNote { note_bytes: Vec<u8>, note_args: [u8; 32], prepared_sig_bytes: Vec<u8> },
    /// Complete and submit a transaction; the reply is the transaction.
    RebuildAndSubmit(Rebuild),
}

/// The consumption of a note: the note, its arguments, and the prepared signature with the key
/// under which the note's script looks it up.
pub struct Consume {
    pub note_bytes: Vec<u8>,
    pub note_args: Word,
    pub sig_key: Word,
    pub prepared_sig: Vec<u64>,
}

/// What the submitter sends back.
pub enum Reply {
    Synced(Result<u32, String>),
    AccountAdded(Result<(), String>),
    NoteImported(Result<(), String>),
    Consumed(Result<(String, u32), String>),
    Submitted(Result<String, String>),
}

/// What the submitter does next.
pub enum Step {
    /// Sync, for [`Command::Sync`].
    Sync,
    /// Add an account to the store.
    AddAccount { bytes: Vec<u8> },
    /// Import a note's details, for [`Command::ImportNoteBytes`].
    ImportNote { bytes: Vec<u8> },
    /// Import the details of the note to consume.
    ImportConsumed(Consume),
    /// Build the transaction that consumes the note.
    BuildConsume(Consume),
    /// Sync before the note is consumed.
    SyncBefore,
    /// Look up the identifier of the consuming account in the environment.
    ReadAccountId,
    /// Submit the transaction that consumes the note.
    SubmitConsume { account_id: AccountId },
    /// Sync after the note was consumed, and look for the block that holds the transaction; so many
    /// looks are left, this one counted.
    SyncAfter { tx_id: String, looks: u32 },
    /// Decode the transaction to complete.
    DecodeRequest(Rebuild),
    /// Parse its signature.
    ParseSignature(Rebuild),
    /// Make the advice entry for the signature, and put it into the transaction.
    BuildAdvice(Rebuild),
    /// Sync before the transaction is submitted.
    SyncRebuilt { account_id: AccountId },
    /// Submit the completed transaction.
    SubmitRebuilt { account_id: AccountId },
    /// Send the reply.
    Send(Reply),
}

/// What came of a step, with what was said where it failed.
pub enum Event {
    /// It is done or failed.
    Done(Result<(), String>),
    /// The client is at this block, or failed to sync.
    Synced(Result<u32, String>),
    /// The environment has this identifier, or none.
    AccountId(Option<String>),
    /// This transaction was submitted, or none.
    Submitted(Result<String, String>),
    /// The transaction is in this block, or in none yet, or the client failed to sync.
    Included(Result<Option<u32>, String>),
}

/// A [`Rebuild`] as a value of the specification.
#[verifier::ext_equal]
pub struct Completion {
    pub account_id: account::Id,
    pub request: Seq<u8>,
    pub scheme: SignatureScheme,
    pub pubkey_commitment: Seq<u64>,
    pub message: Seq<u64>,
    pub signature: Seq<char>,
    pub pubkey: Option<Seq<char>>,
}

/// A [`Command`] as a value of the specification.
#[verifier::ext_equal]
pub enum Order {
    Sync,
    AddAccountBytes { bytes: Seq<u8> },
    ImportNoteBytes { bytes: Seq<u8> },
    ConsumeAdnNote { note: Seq<u8>, args: Seq<u8>, prepared: Seq<u8> },
    RebuildAndSubmit(Completion),
}

/// A [`Consume`] as a value of the specification.
#[verifier::ext_equal]
pub struct Consumption {
    pub note: Seq<u8>,
    pub args: Seq<u64>,
    pub sig_key: Seq<u64>,
    pub prepared: Seq<u64>,
}

/// A [`Reply`] as a value of the specification.
#[verifier::ext_equal]
pub enum Answer {
    Synced(Result<u32, Seq<char>>),
    AccountAdded(Result<(), Seq<char>>),
    NoteImported(Result<(), Seq<char>>),
    Consumed(Result<(Seq<char>, u32), Seq<char>>),
    Submitted(Result<Seq<char>, Seq<char>>),
}

/// A [`Step`] as a value of the specification.
#[verifier::ext_equal]
pub enum Stage {
    Sync,
    AddAccount { bytes: Seq<u8> },
    ImportNote { bytes: Seq<u8> },
    ImportConsumed(Consumption),
    BuildConsume(Consumption),
    SyncBefore,
    ReadAccountId,
    SubmitConsume { account_id: account::Id },
    SyncAfter { tx_id: Seq<char>, looks: u32 },
    DecodeRequest(Completion),
    ParseSignature(Completion),
    BuildAdvice(Completion),
    SyncRebuilt { account_id: account::Id },
    SubmitRebuilt { account_id: account::Id },
    Send(Answer),
}

/// An [`Event`] as a value of the specification.
#[verifier::ext_equal]
pub enum News {
    Done(Result<(), Seq<char>>),
    Synced(Result<u32, Seq<char>>),
    AccountId(Option<Seq<char>>),
    Submitted(Result<Seq<char>, Seq<char>>),
    Included(Result<Option<u32>, Seq<char>>),
}

impl View for Rebuild {
    type V = Completion;

    open spec fn view(&self) -> Completion {
        Completion {
            account_id: self.account_id@,
            request: self.request_bytes@,
            scheme: self.scheme,
            pubkey_commitment: self.pubkey_commitment@,
            message: self.message@,
            signature: self.signature_hex@,
            pubkey: types::text_of(self.pubkey_hex),
        }
    }
}

impl View for Command {
    type V = Order;

    open spec fn view(&self) -> Order {
        match *self {
            Command::Sync => Order::Sync,
            Command::AddAccountBytes { bytes } => Order::AddAccountBytes { bytes: bytes@ },
            Command::ImportNoteBytes { bytes } => Order::ImportNoteBytes { bytes: bytes@ },
            Command::ConsumeAdnNote { note_bytes, note_args, prepared_sig_bytes } => {
                Order::ConsumeAdnNote {
                    note: note_bytes@,
                    args: note_args@,
                    prepared: prepared_sig_bytes@,
                }
            },
            Command::RebuildAndSubmit(r) => Order::RebuildAndSubmit(r@),
        }
    }
}

impl View for Consume {
    type V = Consumption;

    open spec fn view(&self) -> Consumption {
        Consumption {
            note: self.note_bytes@,
            args: self.note_args@,
            sig_key: self.sig_key@,
            prepared: self.prepared_sig@,
        }
    }
}

/// A result with the text of its error as a sequence.
pub open spec fn said<T>(r: Result<T, String>) -> Result<T, Seq<char>> {
    match r {
        Ok(v) => Ok(v),
        Err(e) => Err(e@),
    }
}

impl View for Reply {
    type V = Answer;

    open spec fn view(&self) -> Answer {
        match *self {
            Reply::Synced(r) => Answer::Synced(said(r)),
            Reply::AccountAdded(r) => Answer::AccountAdded(said(r)),
            Reply::NoteImported(r) => Answer::NoteImported(said(r)),
            Reply::Consumed(Ok((tx_id, block_num))) => Answer::Consumed(Ok((tx_id@, block_num))),
            Reply::Consumed(Err(e)) => Answer::Consumed(Err(e@)),
            Reply::Submitted(Ok(tx_id)) => Answer::Submitted(Ok(tx_id@)),
            Reply::Submitted(Err(e)) => Answer::Submitted(Err(e@)),
        }
    }
}

impl View for Step {
    type V = Stage;

    open spec fn view(&self) -> Stage {
        match *self {
            Step::Sync => Stage::Sync,
            Step::AddAccount { bytes } => Stage::AddAccount { bytes: bytes@ },
            Step::ImportNote { bytes } => Stage::ImportNote { bytes: bytes@ },
            Step::ImportConsumed(c) => Stage::ImportConsumed(c@),
            Step::BuildConsume(c) => Stage::BuildConsume(c@),
            Step::SyncBefore => Stage::SyncBefore,
            Step::ReadAccountId => Stage::ReadAccountId,
            Step::SubmitConsume { account_id } => Stage::SubmitConsume {
                account_id: account_id@,
            },
            Step::SyncAfter { tx_id, looks } => Stage::SyncAfter { tx_id: tx_id@, looks },
            Step::DecodeRequest(r) => Stage::DecodeRequest(r@),
            Step::ParseSignature(r) => Stage::ParseSignature(r@),
            Step::BuildAdvice(r) => Stage::BuildAdvice(r@),
            Step::SyncRebuilt { account_id } => Stage::SyncRebuilt { account_id: account_id@ },
            Step::SubmitRebuilt { account_id } => Stage::SubmitRebuilt {
                account_id: account_id@,
            },
            Step::Send(r) => Stage::Send(r@),
        }
    }
}

impl View for Event {
    type V = News;

    open spec fn view(&self) -> News {
        match *self {
            Event::Done(r) => News::Done(said(r)),
            Event::Synced(r) => News::Synced(said(r)),
            Event::AccountId(id) => News::AccountId(types::text_of(id)),
            Event::Submitted(Ok(tx_id)) => News::Submitted(Ok(tx_id@)),
            Event::Submitted(Err(e)) => News::Submitted(Err(e@)),
            Event::Included(r) => News::Included(said(r)),
        }
    }
}

/// Serial number and storage of the note with these bytes, or what `DeserializationError` says
/// where they are no note.
pub uninterp spec fn note_parts(b: Seq<u8>) -> Result<(Seq<u64>, Seq<u64>), Seq<char>>;

/// The decoder of accounts comes to a result on the account in a command.
pub open spec fn account_readable(order: Order) -> bool {
    match order {
        Order::AddAccountBytes { bytes } => decoder::account_readable(bytes),
        _ => true,
    }
}

/// The word in 32 bytes of note arguments: four big-endian numbers, as field elements.
pub open spec fn args_word(b: Seq<u8>) -> Seq<u64> {
    word::reduced(Seq::new(4, |i: int| bytes::be_value(b.subrange(8 * i, 8 * i + 8)) as u64))
}

/// The field elements in bytes: little-endian numbers of eight bytes each, what is left over
/// being dropped.
pub open spec fn felts(b: Seq<u8>) -> Seq<u64> {
    word::reduced(
        Seq::new(
            b.len() / 8,
            |i: int| bytes::le_value(b.subrange(8 * i, 8 * i + 8)) as u64,
        ),
    )
}

/// The key under which a note's script looks up the agent's signature: the digest of the agent's
/// key and the signed message, which is that of serial number and arguments.
pub open spec fn lookup_key(serial: Seq<u64>, storage: Seq<u64>, args: Seq<u64>) -> Seq<u64> {
    word::merge_digest(storage.take(4), word::merge_digest(serial, args))
}

/// What consuming a note takes, or why it cannot be consumed.
pub open spec fn consumption(note: Seq<u8>, args: Seq<u8>, prepared: Seq<u8>) -> Result<
    Consumption,
    Seq<char>,
> {
    match note_parts(note) {
        Err(e) => Err("Note decode: "@ + e),
        Ok((serial, storage)) => if storage.len() < 4 {
            Err("note storage too short for agent_pk"@)
        } else {
            Ok(
                Consumption {
                    note,
                    args: args_word(args),
                    sig_key: lookup_key(serial, storage, args_word(args)),
                    prepared: felts(prepared),
                },
            )
        },
    }
}

/// `Note::read_from_bytes` of miden-protocol, with serial number and storage items of the note.
#[verifier::external_body]
fn read_note(b: &[u8]) -> (r: Result<([u64; 4], Vec<u64>), String>)
    ensures
        match r {
            Ok((serial, storage)) => note_parts(b@) is Ok && note_parts(b@)->Ok_0.0 == serial@
                && note_parts(b@)->Ok_0.1 == storage@ && word::canonical(serial@) && (forall|i: int|
                0 <= i < storage@.len() ==> #[trigger] storage@[i] < word::FELT_ORDER),
            Err(e) => note_parts(b@) is Err && note_parts(b@)->Err_0 == e@,
        },
{
    match miden_protocol::note::Note::read_from_bytes(b) {
        Ok(n) => Ok((
            n.recipient().serial_num().into_elements().map(|f| f.as_canonical_u64()),
            n.recipient().storage().items().iter().map(|f| f.as_canonical_u64()).collect(),
        )),
        Err(e) => Err(e.to_string()),
    }
}

/// The word in 32 bytes of note arguments.
pub fn note_args_word(b: &[u8; 32]) -> (r: Word)
    ensures
        r@ == args_word(b@),
        word::canonical(r@),
{
    let s: &[u8] = b.as_slice();
    let v = [
        bytes::read_be_u64(s, 0),
        bytes::read_be_u64(s, 8),
        bytes::read_be_u64(s, 16),
        bytes::read_be_u64(s, 24),
    ];
    proof {
        let raw = Seq::new(
            4,
            |i: int| bytes::be_value(b@.subrange(8 * i, 8 * i + 8)) as u64,
        );
        assert(v@ =~= raw);
    }
    Word::new(v)
}

/// The field elements in the bytes of a prepared signature.
pub fn prepared_felts(b: &[u8]) -> (r: Vec<u64>)
    ensures
        r@ == felts(b@),
{
    let len: usize = b.len();
    let n: usize = len / 8;
    let mut r: Vec<u64> = Vec::new();
    let mut i: usize = 0;
    while i < n
        invariant
            len == b@.len(),
            n == len / 8,
            i <= n,
            r@.len() == i,
            forall|j: int| 0 <= j < i ==> #[trigger] r@[j] == felts(b@)[j],
        decreases n - i,
    {
        let v: u64 = bytes::read_le_u64(b, 8 * i);
        r.push(v % word::FELT_ORDER);
        i = i + 1;
    }
    assert(r@ =~= felts(b@));
    r
}

/// What consuming a note takes: its arguments as a word, the prepared signature as field
/// elements, and the key under which the note's script looks the signature up.
pub fn prepare_consume(note_bytes: Vec<u8>, note_args: &[u8; 32], prepared_sig_bytes: &[u8]) -> (r:
    Result<Consume, String>)
    ensures
        match r {
            Ok(c) => consumption(note_bytes@, note_args@, prepared_sig_bytes@) is Ok && consumption(
                note_bytes@,
                note_args@,
                prepared_sig_bytes@,
            )->Ok_0 == c@,
            Err(e) => consumption(note_bytes@, note_args@, prepared_sig_bytes@) is Err
                && consumption(note_bytes@, note_args@, prepared_sig_bytes@)->Err_0 == e@,
        },
        match r {
            Ok(c) => {
                &&& c.note_bytes@ == note_bytes@
                &&& c.prepared_sig@.len() == prepared_sig_bytes@.len() / 8
                &&& forall|i: int|
                    0 <= i < c.prepared_sig@.len() ==> #[trigger] c.prepared_sig@[i]
                        == bytes::be_value(
                        prepared_sig_bytes@.subrange(8 * i, 8 * i + 8).reverse(),
                    ) as int % 0xffff_ffff_0000_0001
            },
            Err(_) => true,
        },
{
    let (serial, storage) = match read_note(note_bytes.as_slice()) {
        Ok(parts) => parts,
        Err(e) => {
            return Err(text::join("Note decode: ", e.as_str()));
        },
    };
    let args = note_args_word(note_args);
    let prepared_sig = prepared_felts(prepared_sig_bytes);
    proof {
        word::lemma_reduced_canonical(serial@);
    }
    let msg = word::merge(Word::new(serial), args);
    if storage.len() < 4 {
        return Err("note storage too short for agent_pk".to_owned());
    }
    let agent = [storage[0], storage[1], storage[2], storage[3]];
    proof {
        assert(agent@ =~= storage@.take(4));
        word::lemma_reduced_canonical(agent@);
    }
    let sig_key = word::merge(Word::new(agent), msg);
    proof {
        law_felts(prepared_sig_bytes@);
    }
    Ok(Consume { note_bytes, note_args: args, sig_key, prepared_sig })
}

/// The first step of a command.
pub open spec fn first(order: Order) -> Stage {
    match order {
        Order::Sync => Stage::Sync,
        Order::AddAccountBytes { bytes } => match decoder::account_decoded(bytes) {
            Ok(_) => Stage::AddAccount { bytes },
            Err(e) => Stage::Send(Answer::AccountAdded(Err("Account decode: "@ + e))),
        },
        Order::ImportNoteBytes { bytes } => match note_parts(bytes) {
            Ok(_) => Stage::ImportNote { bytes },
            Err(e) => Stage::Send(Answer::NoteImported(Err("Note decode: "@ + e))),
        },
        Order::ConsumeAdnNote { note, args, prepared } => match consumption(note, args, prepared) {
            Ok(c) => Stage::ImportConsumed(c),
            Err(e) => Stage::Send(Answer::Consumed(Err(e))),
        },
        Order::RebuildAndSubmit(r) => Stage::DecodeRequest(r),
    }
}

/// The reply of a consumption that failed while `doing` something.
pub open spec fn not_consumed(doing: Seq<char>, e: Seq<char>) -> Stage {
    Stage::Send(Answer::Consumed(Err(doing + e)))
}

/// The reply of a completion that failed while `doing` something.
pub open spec fn not_submitted(doing: Seq<char>, e: Seq<char>) -> Stage {
    Stage::Send(Answer::Submitted(Err(doing + e)))
}

/// The step after `stage`, given what came of it. News that is no answer to the step changes
/// nothing.
pub open spec fn following(stage: Stage, news: News) -> Stage {
    match (stage, news) {
        (Stage::Sync, News::Synced(Ok(block))) => Stage::Send(Answer::Synced(Ok(block))),
        (Stage::Sync, News::Synced(Err(e))) => Stage::Send(Answer::Synced(Err("sync: "@ + e))),
        (Stage::AddAccount { bytes }, News::Done(Ok(u))) => Stage::Send(
            Answer::AccountAdded(Ok(u)),
        ),
        (Stage::AddAccount { bytes }, News::Done(Err(e))) => Stage::Send(
            Answer::AccountAdded(Err("add_account: "@ + e)),
        ),
        (Stage::ImportNote { bytes }, News::Done(Ok(u))) => Stage::Send(
            Answer::NoteImported(Ok(u)),
        ),
        (Stage::ImportNote { bytes }, News::Done(Err(e))) => Stage::Send(
            Answer::NoteImported(Err("import_notes: "@ + e)),
        ),
        (Stage::ImportConsumed(c), News::Done(Ok(_))) => Stage::BuildConsume(c),
        (Stage::ImportConsumed(c), News::Done(Err(e))) => not_consumed("import_notes: "@, e),
        (Stage::BuildConsume(c), News::Done(Ok(_))) => Stage::SyncBefore,
        (Stage::BuildConsume(c), News::Done(Err(e))) => not_consumed(
            "build consume request: "@,
            e,
        ),
        (Stage::SyncBefore, News::Synced(Ok(_))) => Stage::ReadAccountId,
        (Stage::SyncBefore, News::Synced(Err(e))) => not_consumed(
            "sync_state before submit: "@,
            e,
        ),
        (Stage::ReadAccountId, News::AccountId(Some(id))) => if account::is_id(id) {
            Stage::SubmitConsume {
                account_id: account::Id {
                    prefix: account::id_prefix(id),
                    suffix: account::id_suffix(id),
                },
            }
        } else {
            not_consumed("FACILITATOR_ACCOUNT_ID parse: "@, account::id_error(id))
        },
        (Stage::ReadAccountId, News::AccountId(None)) => Stage::Send(
            Answer::Consumed(Err("FACILITATOR_ACCOUNT_ID not set — cannot consume note"@)),
        ),
        (Stage::SubmitConsume { account_id }, News::Submitted(Ok(tx_id))) => Stage::SyncAfter {
            tx_id,
            looks: MAX_LOOKS,
        },
        (Stage::SubmitConsume { account_id }, News::Submitted(Err(e))) => not_consumed(
            "submit_new_transaction: "@,
            e,
        ),
        (Stage::SyncAfter { tx_id, looks }, News::Included(Ok(Some(block)))) => Stage::Send(
            Answer::Consumed(Ok((tx_id, block))),
        ),
        (Stage::SyncAfter { tx_id, looks }, News::Included(Ok(None))) => if looks > 1 {
            Stage::SyncAfter { tx_id, looks: (looks - 1) as u32 }
        } else {
            not_consumed("not yet in a block: "@, tx_id)
        },
        (Stage::SyncAfter { tx_id, looks }, News::Included(Err(e))) => not_consumed(
            "sync_state after submit: "@,
            e,
        ),
        (Stage::DecodeRequest(r), News::Done(Ok(_))) => Stage::ParseSignature(r),
        (Stage::DecodeRequest(r), News::Done(Err(e))) => not_submitted("request decode: "@, e),
        (Stage::ParseSignature(r), News::Done(Ok(_))) => Stage::BuildAdvice(r),
        (Stage::ParseSignature(r), News::Done(Err(e))) => not_submitted("parse signature: "@, e),
        (Stage::BuildAdvice(r), News::Done(Ok(_))) => Stage::SyncRebuilt {
            account_id: r.account_id,
        },
        (Stage::BuildAdvice(r), News::Done(Err(e))) => not_submitted("build advice: "@, e),
        (Stage::SyncRebuilt { account_id }, News::Synced(Ok(_))) => Stage::SubmitRebuilt {
            account_id,
        },
        (Stage::SyncRebuilt { account_id }, News::Synced(Err(e))) => not_submitted(
            "sync_state: "@,
            e,
        ),
        (Stage::SubmitRebuilt { account_id }, News::Submitted(Ok(tx_id))) => Stage::Send(
            Answer::Submitted(Ok(tx_id)),
        ),
        (Stage::SubmitRebuilt { account_id }, News::Submitted(Err(e))) => not_submitted(
            "submit_new_transaction: "@,
            e,
        ),
        _ => stage,
    }
}

fn consume_failed(doing: &str, e: String) -> (r: Step)
    ensures
        r@ == not_consumed(doing@, e@),
{
    Step::Send(Reply::Consumed(Err(text::join(doing, e.as_str()))))
}

fn submit_failed(doing: &str, e: String) -> (r: Step)
    ensures
        r@ == not_submitted(doing@, e@),
{
    Step::Send(Reply::Submitted(Err(text::join(doing, e.as_str()))))
}

/// The first step of a command.
pub fn begin(command: Command) -> (r: Step)
    requires
        account_readable(command@),
    ensures
        r@ == first(command@),
{
    match command {
        Command::Sync => Step::Sync,
        Command::AddAccountBytes { bytes } => match decoder::read_account(bytes.as_slice()) {
            Ok(_) => Step::AddAccount { bytes },
            Err(e) => Step::Send(
                Reply::AccountAdded(Err(text::join("Account decode: ", e.as_str()))),
            ),
        },
        Command::ImportNoteBytes { bytes } => match read_note(bytes.as_slice()) {
            Ok(_) => Step::ImportNote { bytes },
            Err(e) => Step::Send(
                Reply::NoteImported(Err(text::join("Note decode: ", e.as_str()))),
            ),
        },
        Command::ConsumeAdnNote { note_bytes, note_args, prepared_sig_bytes } => {
            match prepare_consume(note_bytes, &note_args, prepared_sig_bytes.as_slice()) {
                Ok(c) => Step::ImportConsumed(c),
                Err(e) => Step::Send(Reply::Consumed(Err(e))),
            }
        },
        Command::RebuildAndSubmit(r) => Step::DecodeRequest(r),
    }
}

/// The first step of a command; nothing where its account cannot be read to an end.
pub fn try_begin(command: Command) -> (r: Option<Step>)
    ensures
        match r {
            Some(step) => account_readable(command@) && step@ == first(command@),
            None => !account_readable(command@),
        },
{
    let readable = match &command {
        Command::AddAccountBytes { bytes } => decoder::is_account_readable(bytes.as_slice()),
        _ => true,
    };
    if readable {
        Some(begin(command))
    } else {
        None
    }
}

/// The step after `step`, given what came of it.
pub fn advance(step: Step, event: Event) -> (r: Step)
    ensures
        r@ == following(step@, event@),
{
    match (step, event) {
        (Step::Sync, Event::Synced(Ok(block))) => Step::Send(Reply::Synced(Ok(block))),
        (Step::Sync, Event::Synced(Err(e))) => Step::Send(
            Reply::Synced(Err(text::join("sync: ", e.as_str()))),
        ),
        (Step::AddAccount { bytes }, Event::Done(Ok(u))) => Step::Send(
            Reply::AccountAdded(Ok(u)),
        ),
        (Step::AddAccount { bytes }, Event::Done(Err(e))) => Step::Send(
            Reply::AccountAdded(Err(text::join("add_account: ", e.as_str()))),
        ),
        (Step::ImportNote { bytes }, Event::Done(Ok(u))) => Step::Send(
            Reply::NoteImported(Ok(u)),
        ),
        (Step::ImportNote { bytes }, Event::Done(Err(e))) => Step::Send(
            Reply::NoteImported(Err(text::join("import_notes: ", e.as_str()))),
        ),
        (Step::ImportConsumed(c), Event::Done(Ok(_))) => Step::BuildConsume(c),
        (Step::ImportConsumed(c), Event::Done(Err(e))) => consume_failed("import_notes: ", e),
        (Step::BuildConsume(c), Event::Done(Ok(_))) => Step::SyncBefore,
        (Step::BuildConsume(c), Event::Done(Err(e))) => {
            consume_failed("build consume request: ", e)
        },
        (Step::SyncBefore, Event::Synced(Ok(_))) => Step::ReadAccountId,
        (Step::SyncBefore, Event::Synced(Err(e))) => {
            consume_failed("sync_state before submit: ", e)
        },
        (Step::ReadAccountId, Event::AccountId(Some(id))) => match AccountId::from_hex(
            id.as_str(),
        ) {
            Ok(account_id) => Step::SubmitConsume { account_id },
            Err(e) => consume_failed("FACILITATOR_ACCOUNT_ID parse: ", e),
        },
        (Step::ReadAccountId, Event::AccountId(None)) => Step::Send(
            Reply::Consumed(
                Err("FACILITATOR_ACCOUNT_ID not set — cannot consume note".to_owned()),
            ),
        ),
        (Step::SubmitConsume { account_id }, Event::Submitted(Ok(tx_id))) => Step::SyncAfter {
            tx_id,
            looks: MAX_LOOKS,
        },
        (Step::SubmitConsume { account_id }, Event::Submitted(Err(e))) => {
            consume_failed("submit_new_transaction: ", e)
        },
        (Step::SyncAfter { tx_id, looks }, Event::Included(Ok(Some(block)))) => Step::Send(
            Reply::Consumed(Ok((tx_id, block))),
        ),
        (Step::SyncAfter { tx_id, looks }, Event::Included(Ok(None))) => if looks > 1 {
            Step::SyncAfter { tx_id, looks: looks - 1 }
        } else {
            consume_failed("not yet in a block: ", tx_id)
        },
        (Step::SyncAfter { tx_id, looks }, Event::Included(Err(e))) => {
            consume_failed("sync_state after submit: ", e)
        },
        (Step::DecodeRequest(r), Event::Done(Ok(_))) => Step::ParseSignature(r),
        (Step::DecodeRequest(r), Event::Done(Err(e))) => submit_failed("request decode: ", e),
        (Step::ParseSignature(r), Event::Done(Ok(_))) => Step::BuildAdvice(r),
        (Step::ParseSignature(r), Event::Done(Err(e))) => submit_failed("parse signature: ", e),
        (Step::BuildAdvice(r), Event::Done(Ok(_))) => Step::SyncRebuilt {
            account_id: r.account_id,
        },
        (Step::BuildAdvice(r), Event::Done(Err(e))) => submit_failed("build advice: ", e),
        (Step::SyncRebuilt { account_id }, Event::Synced(Ok(_))) => Step::SubmitRebuilt {
            account_id,
        },
        (Step::SyncRebuilt { account_id }, Event::Synced(Err(e))) => {
            submit_failed("sync_state: ", e)
        },
        (Step::SubmitRebuilt { account_id }, Event::Submitted(Ok(tx_id))) => Step::Send(
            Reply::Submitted(Ok(tx_id)),
        ),
        (Step::SubmitRebuilt { account_id }, Event::Submitted(Err(e))) => {
            submit_failed("submit_new_transaction: ", e)
        },
        (step, _) => step,
    }
}

/// What went wrong while the client of the chain was made, with what was said.
pub enum ClientFailure {
    DataDir(String),
    Endpoint(String),
    KeyStore(String),
    Build(String),
}

/// The error of a client that could not be made for `rpc_endpoint`.
pub fn client_error(rpc_endpoint: &str, failure: ClientFailure) -> (r: FacilitatorError)
    ensures
        r@ == error::Refusal::Internal(
            match failure {
                ClientFailure::DataDir(e) => "data dir: "@ + e@,
                ClientFailure::Endpoint(e) => "endpoint "@ + rpc_endpoint@ + ": "@ + e@,
                ClientFailure::KeyStore(e) => "keystore: "@ + e@,
                ClientFailure::Build(e) => "client build: "@ + e@,
            },
        ),
{
    FacilitatorError::Internal(
        match failure {
            ClientFailure::DataDir(e) => text::join("data dir: ", e.as_str()),
            ClientFailure::Endpoint(e) => {
                let mut m = text::join("endpoint ", rpc_endpoint);
                m.append(": ");
                m.append(e.as_str());
                m
            },
            ClientFailure::KeyStore(e) => text::join("keystore: ", e.as_str()),
            ClientFailure::Build(e) => text::join("client build: ", e.as_str()),
        },
    )
}

/// How far the submitter is.
#[derive(Clone, Copy, Debug)]
pub enum Actor {
    /// It makes its runtime.
    Starting,
    /// It makes its client.
    Connecting,
    /// It works off commands.
    Serving,
    /// It has stopped.
    Gone,
}

/// How far the submitter is after what it did succeeded or not.
pub open spec fn actor_after(actor: Actor, succeeded: bool) -> Actor {
    match actor {
        Actor::Starting if succeeded => Actor::Connecting,
        Actor::Connecting if succeeded => Actor::Serving,
        Actor::Serving => Actor::Serving,
        _ => Actor::Gone,
    }
}

/// Moves the submitter on. A failed start is its end; a failed command is not.
pub fn next_actor(actor: Actor, succeeded: bool) -> (r: Actor)
    ensures
        r == actor_after(actor, succeeded),
{
    match (actor, succeeded) {
        (Actor::Starting, true) => Actor::Connecting,
        (Actor::Connecting, true) => Actor::Serving,
        (Actor::Serving, _) => Actor::Serving,
        _ => Actor::Gone,
    }
}

/// What became of a command that was sent to the submitter.
pub enum Delivery<T> {
    /// The submitter has stopped, and the command was not sent.
    Stopped,
    /// The submitter dropped the command without a reply.
    Dropped,
    /// It replied.
    Answered(Result<T, String>),
}

/// What became of a command, given whether it was sent and what came back.
pub open spec fn delivery_of<T>(sent: bool, answer: Option<Result<T, String>>) -> Delivery<T> {
    match answer {
        _ if !sent => Delivery::Stopped,
        Some(r) => Delivery::Answered(r),
        None => Delivery::Dropped,
    }
}

/// What became of a command, given whether it was sent and what came back.
pub fn delivery<T>(sent: bool, answer: Option<Result<T, String>>) -> (r: Delivery<T>)
    ensures
        r == delivery_of(sent, answer),
{
    if !sent {
        return Delivery::Stopped;
    }
    match answer {
        Some(r) => Delivery::Answered(r),
        None => Delivery::Dropped,
    }
}

/// What the caller of a command is told.
pub open spec fn told<T>(d: Delivery<T>) -> Result<T, error::Refusal> {
    match d {
        Delivery::Stopped => Err(error::Refusal::Internal("submitter actor stopped"@)),
        Delivery::Dropped => Err(error::Refusal::Internal("submitter actor dropped reply"@)),
        Delivery::Answered(Ok(v)) => Ok(v),
        Delivery::Answered(Err(m)) => Err(error::Refusal::Internal(m@)),
    }
}

/// What the caller of a command is told.
pub fn delivered<T>(d: Delivery<T>) -> (r: Result<T, FacilitatorError>)
    ensures
        match r {
            Ok(v) => told(d) is Ok && told(d)->Ok_0 == v,
            Err(e) => told(d) is Err && told(d)->Err_0 == e@,
        },
{
    match d {
        Delivery::Stopped => Err(
            FacilitatorError::Internal("submitter actor stopped".to_owned()),
        ),
        Delivery::Dropped => Err(
            FacilitatorError::Internal("submitter actor dropped reply".to_owned()),
        ),
        Delivery::Answered(Ok(v)) => Ok(v),
        Delivery::Answered(Err(m)) => Err(FacilitatorError::Internal(m)),
    }
}

/// After a failed start the submitter is gone and stays so, and as only one that serves answers,
/// every call ends in one of two errors.
pub proof fn law_failed_start_is_told<T>(
    actor: Actor,
    later: bool,
    sent: bool,
    answer: Option<Result<T, String>>,
)
    requires
        actor is Starting || actor is Connecting,
        answer is Some ==> actor_after(actor_after(actor, false), later) is Serving,
    ensures
        actor_after(actor, false) is Gone,
        actor_after(actor_after(actor, false), later) is Gone,
        told(delivery_of(sent, answer)) is Err,
        told(delivery_of(sent, answer))->Err_0 == error::Refusal::Internal(
            "submitter actor stopped"@,
        ) || told(delivery_of(sent, answer))->Err_0 == error::Refusal::Internal(
            "submitter actor dropped reply"@,
        ),
{
}

/// What kind of reply a command gets.
pub enum Kind {
    Synced,
    AccountAdded,
    NoteImported,
    Consumed,
    Submitted,
}

/// The kind of reply that a command asks for.
pub open spec fn order_kind(order: Order) -> Kind {
    match order {
        Order::Sync => Kind::Synced,
        Order::AddAccountBytes { bytes } => Kind::AccountAdded,
        Order::ImportNoteBytes { bytes } => Kind::NoteImported,
        Order::ConsumeAdnNote { note, args, prepared } => Kind::Consumed,
        Order::RebuildAndSubmit(r) => Kind::Submitted,
    }
}

/// The kind of reply that a step leads to.
pub open spec fn stage_kind(stage: Stage) -> Kind {
    match stage {
        Stage::Sync => Kind::Synced,
        Stage::AddAccount { bytes } => Kind::AccountAdded,
        Stage::ImportNote { bytes } => Kind::NoteImported,
        Stage::ImportConsumed(c) => Kind::Consumed,
        Stage::BuildConsume(c) => Kind::Consumed,
        Stage::SyncBefore => Kind::Consumed,
        Stage::ReadAccountId => Kind::Consumed,
        Stage::SubmitConsume { account_id } => Kind::Consumed,
        Stage::SyncAfter { tx_id, looks } => Kind::Consumed,
        Stage::DecodeRequest(r) => Kind::Submitted,
        Stage::ParseSignature(r) => Kind::Submitted,
        Stage::BuildAdvice(r) => Kind::Submitted,
        Stage::SyncRebuilt { account_id } => Kind::Submitted,
        Stage::SubmitRebuilt { account_id } => Kind::Submitted,
        Stage::Send(Answer::Synced(_)) => Kind::Synced,
        Stage::Send(Answer::AccountAdded(_)) => Kind::AccountAdded,
        Stage::Send(Answer::NoteImported(_)) => Kind::NoteImported,
        Stage::Send(Answer::Consumed(_)) => Kind::Consumed,
        Stage::Send(Answer::Submitted(_)) => Kind::Submitted,
    }
}

/// Most steps before the reply is sent.
pub open spec fn steps_left(stage: Stage) -> nat {
    match stage {
        Stage::Sync => 1,
        Stage::AddAccount { bytes } => 1,
        Stage::ImportNote { bytes } => 1,
        Stage::ImportConsumed(c) => 5 + MAX_LOOKS as nat,
        Stage::BuildConsume(c) => 4 + MAX_LOOKS as nat,
        Stage::SyncBefore => 3 + MAX_LOOKS as nat,
        Stage::ReadAccountId => 2 + MAX_LOOKS as nat,
        Stage::SubmitConsume { account_id } => 1 + MAX_LOOKS as nat,
        Stage::SyncAfter { tx_id, looks } => if looks > 1 {
            looks as nat
        } else {
            1
        },
        Stage::DecodeRequest(r) => 5,
        Stage::ParseSignature(r) => 4,
        Stage::BuildAdvice(r) => 3,
        Stage::SyncRebuilt { account_id } => 2,
        Stage::SubmitRebuilt { account_id } => 1,
        Stage::Send(_) => 0,
    }
}

/// The news is about the step.
pub open spec fn answers(stage: Stage, news: News) -> bool {
    match stage {
        Stage::Sync => news is Synced,
        Stage::SyncBefore => news is Synced,
        Stage::SyncAfter { tx_id, looks } => news is Included,
        Stage::SyncRebuilt { account_id } => news is Synced,
        Stage::ReadAccountId => news is AccountId,
        Stage::SubmitConsume { account_id } => news is Submitted,
        Stage::SubmitRebuilt { account_id } => news is Submitted,
        Stage::Send(_) => false,
        _ => news is Done,
    }
}

/// A command gets a reply of its kind.
pub proof fn law_reply_fits_the_command(order: Order, stage: Stage, news: News)
    ensures
        stage_kind(first(order)) == order_kind(order),
        stage_kind(following(stage, news)) == stage_kind(stage),
{
}

/// Every step that is reported brings the reply nearer, so a command is replied to after a bounded
/// number of steps. Nothing follows the reply.
pub proof fn law_every_command_is_answered(order: Order, stage: Stage, news: News)
    ensures
        steps_left(first(order)) <= 5 + MAX_LOOKS,
        answers(stage, news) ==> steps_left(following(stage, news)) < steps_left(stage),
        !answers(stage, news) ==> following(stage, news) == stage,
        steps_left(stage) == 0 ==> stage is Send,
{
}

/// A note is reported as consumed only with the transaction that was submitted and the block that
/// holds it; and it is submitted only after a sync.
pub proof fn law_consumed_after_submission(stage: Stage, news: News)
    ensures
        following(stage, news) != stage ==> match following(stage, news) {
            Stage::Send(Answer::Consumed(Ok((tx_id, block)))) => stage is SyncAfter
                && stage->SyncAfter_tx_id == tx_id && news == News::Included(Ok(Some(block))),
            Stage::SyncAfter { tx_id, looks } => (stage is SubmitConsume && news
                == News::Submitted(Ok(tx_id))) || (stage is SyncAfter && stage->SyncAfter_tx_id
                == tx_id && news == News::Included(Ok(None))),
            Stage::SubmitConsume { account_id } => stage is ReadAccountId,
            Stage::ReadAccountId => stage is SyncBefore && news is Synced,
            Stage::SyncBefore => stage is BuildConsume,
            Stage::BuildConsume(c) => stage == Stage::ImportConsumed(c),
            _ => true,
        },
{
}

/// A completed transaction is submitted, for the account of its command, only after its signature
/// was put into it and after a sync.
pub proof fn law_submitted_after_sync(stage: Stage, news: News)
    ensures
        following(stage, news) != stage ==> match following(stage, news) {
            Stage::Send(Answer::Submitted(Ok(tx_id))) => stage is SubmitRebuilt && news
                == News::Submitted(Ok(tx_id)),
            Stage::SubmitRebuilt { account_id } => stage == (Stage::SyncRebuilt { account_id })
                && news is Synced && news->Synced_0 is Ok,
            Stage::SyncRebuilt { account_id } => stage is BuildAdvice
                && stage->BuildAdvice_0.account_id == account_id,
            Stage::BuildAdvice(r) => stage == Stage::ParseSignature(r),
            Stage::ParseSignature(r) => stage == Stage::DecodeRequest(r),
            _ => true,
        },
{
}

/// A consumption that meets no failure is replied to with its transaction and the block that holds
/// it, once there is one.
pub proof fn law_consumption_succeeds(
    c: Consumption,
    before: u32,
    id: Seq<char>,
    tx_id: Seq<char>,
    block: u32,
)
    requires
        account::is_id(id),
    ensures
        ({
            let s1 = following(Stage::ImportConsumed(c), News::Done(Ok(())));
            let s2 = following(s1, News::Done(Ok(())));
            let s3 = following(s2, News::Synced(Ok(before)));
            let s4 = following(s3, News::AccountId(Some(id)));
            let s5 = following(s4, News::Submitted(Ok(tx_id)));
            &&& s1 == Stage::BuildConsume(c)
            &&& s4 == (Stage::SubmitConsume {
                account_id: account::Id {
                    prefix: account::id_prefix(id),
                    suffix: account::id_suffix(id),
                },
            })
            &&& s5 == (Stage::SyncAfter { tx_id, looks: MAX_LOOKS })
            &&& forall|looks: u32| #[trigger]
                following(
                    Stage::SyncAfter { tx_id, looks },
                    News::Included(Ok(Some(block))),
                ) == Stage::Send(Answer::Consumed(Ok((tx_id, block))))
            &&& forall|looks: u32|
                looks > 1 ==> #[trigger] following(
                    Stage::SyncAfter { tx_id, looks },
                    News::Included(Ok(None)),
                ) == (Stage::SyncAfter { tx_id, looks: (looks - 1) as u32 })
        }),
{
}

/// A completion that meets no failure is submitted for its account, and replied to with its
/// transaction.
pub proof fn law_completion_succeeds(r: Completion, before: u32, tx_id: Seq<char>)
    ensures
        ({
            let s1 = following(first(Order::RebuildAndSubmit(r)), News::Done(Ok(())));
            let s2 = following(s1, News::Done(Ok(())));
            let s3 = following(s2, News::Done(Ok(())));
            let s4 = following(s3, News::Synced(Ok(before)));
            &&& s1 == Stage::ParseSignature(r)
            &&& s2 == Stage::BuildAdvice(r)
            &&& s4 == (Stage::SubmitRebuilt { account_id: r.account_id })
            &&& following(s4, News::Submitted(Ok(tx_id))) == Stage::Send(
                Answer::Submitted(Ok(tx_id)),
            )
        }),
{
}

/// Four numbers packed as note arguments are read back as the field elements they stand for.
pub proof fn law_note_args_round_trip(v: Seq<u64>)
    requires
        v.len() == 4,
    ensures
        adn::pack(v).len() == 32,
        args_word(adn::pack(v)) == word::reduced(v),
{
    let b = adn::pack(v);
    bytes::lemma_pow256_8();
    bytes::lemma_be_round_trip(v[0] as nat, 8);
    bytes::lemma_be_round_trip(v[1] as nat, 8);
    bytes::lemma_be_round_trip(v[2] as nat, 8);
    bytes::lemma_be_round_trip(v[3] as nat, 8);
    assert(b.subrange(0, 8) =~= bytes::be_bytes(v[0] as nat, 8));
    assert(b.subrange(8, 16) =~= bytes::be_bytes(v[1] as nat, 8));
    assert(b.subrange(16, 24) =~= bytes::be_bytes(v[2] as nat, 8));
    assert(b.subrange(24, 32) =~= bytes::be_bytes(v[3] as nat, 8));
    assert(args_word(b) =~= word::reduced(v));
}

pub proof fn lemma_elements_len(v: Seq<u64>)
    ensures
        client::elements_bytes(v).len() == 8 * v.len(),
    decreases v.len(),
{
    if v.len() > 0 {
        lemma_elements_len(v.drop_last());
        bytes::lemma_le_len(v.last() as nat, 8);
    }
}

pub proof fn lemma_elements_bytes(v: Seq<u64>, i: int)
    requires
        0 <= i < v.len(),
    ensures
        client::elements_bytes(v).subrange(8 * i, 8 * i + 8) == bytes::le_bytes(v[i] as nat, 8),
    decreases v.len(),
{
    let head = v.drop_last();
    let b = client::elements_bytes(v);
    bytes::lemma_le_len(v.last() as nat, 8);
    lemma_elements_len(head);
    if i < head.len() {
        lemma_elements_bytes(head, i);
        assert(b.subrange(8 * i, 8 * i + 8) =~= client::elements_bytes(head).subrange(
            8 * i,
            8 * i + 8,
        ));
    } else {
        assert(b.subrange(8 * i, 8 * i + 8) =~= bytes::le_bytes(v[i] as nat, 8));
    }
}

/// The prepared signature in a signed debit reaches the note's script as it was made: the field
/// elements are read back from their bytes, and bytes left over, too few for an element, are
/// dropped.
pub proof fn law_prepared_round_trip(v: Seq<u64>, left_over: Seq<u8>)
    requires
        forall|i: int| 0 <= i < v.len() ==> #[trigger] v[i] < word::FELT_ORDER,
        left_over.len() < 8,
    ensures
        felts(client::elements_bytes(v) + left_over) == v,
{
    let e = client::elements_bytes(v);
    let b = e + left_over;
    lemma_elements_len(v);
    assert(b.len() / 8 == v.len());
    assert forall|i: int| 0 <= i < v.len() implies #[trigger] felts(b)[i] == v[i] by {
        lemma_elements_bytes(v, i);
        assert(b.subrange(8 * i, 8 * i + 8) =~= e.subrange(8 * i, 8 * i + 8));
        bytes::lemma_pow256_8();
        bytes::lemma_le_round_trip(v[i] as nat, 8);
    }
    assert(felts(b) =~= v);
}

/// With the word of a debit as arguments, the note's script looks the signature up under the
/// agent's key and the very message that authorizes the debit.
pub proof fn law_lookup_by_debit_message(
    serial: Seq<u64>,
    agent: Seq<u64>,
    user: account::Id,
    expiry_block: u32,
    merchant: account::Id,
    amount: u64,
)
    requires
        word::canonical(serial),
        word::canonical(agent),
        account::valid_id(user.prefix, user.suffix),
        account::valid_id(merchant.prefix, merchant.suffix),
    ensures
        lookup_key(
            serial,
            storage::layout(agent, user, expiry_block),
            args_word(adn::pack(message::debit_word(merchant, amount))),
        ) == word::merge_digest(agent, message::debit_digest(serial, merchant, amount)),
{
    let details = message::debit_word(merchant, amount);
    law_note_args_round_trip(details);
    word::lemma_reduced_canonical(details);
    assert(storage::layout(agent, user, expiry_block).take(4) =~= agent);
}

/// A request is settled with arguments under which the script of the agent's note looks the
/// signature up by the message that the request's signature is checked against.
pub proof fn law_settlement_looks_up_the_message(
    r: adn::Request,
    agent: Seq<u64>,
    user: account::Id,
    expiry_block: u32,
)
    requires
        adn::serial_numbers(r.serial) is Ok,
        account::is_id(r.merchant),
        word::canonical(agent),
        account::valid_id(user.prefix, user.suffix),
    ensures
        lookup_key(
            word::reduced(adn::serial_numbers(r.serial)->Ok_0),
            storage::layout(agent, user, expiry_block),
            args_word(adn::settlement_args(r)),
        ) == word::merge_digest(agent, adn::request_message(r)),
{
    let merchant = account::Id {
        prefix: account::id_prefix(r.merchant),
        suffix: account::id_suffix(r.merchant),
    };
    let numbers = seq![merchant.suffix as u64, merchant.prefix as u64, r.amount, 0u64];
    law_note_args_round_trip(numbers);
    assert(word::reduced(numbers) =~= message::debit_word(merchant, r.amount));
    assert(storage::layout(agent, user, expiry_block).take(4) =~= agent);
}

proof fn lemma_chunk(b: Seq<u8>, i: int)
    requires
        0 <= i,
        8 * i + 8 <= b.len(),
    ensures
        bytes::be_value(b.subrange(8 * i, 8 * i + 8)) <= u64::MAX,
        bytes::le_value(b.subrange(8 * i, 8 * i + 8)) == bytes::be_value(
            b.subrange(8 * i, 8 * i + 8).reverse(),
        ),
        bytes::le_value(b.subrange(8 * i, 8 * i + 8)) <= u64::MAX,
{
    let c = b.subrange(8 * i, 8 * i + 8);
    bytes::lemma_pow256_8();
    bytes::lemma_be_value_bound(c);
    bytes::lemma_le_value_bound(c);
    bytes::law_le_value_is_be_value_turned_round(c);
}

/// The bytes of a prepared signature are read to the end: there is an element for each eight, in
/// order, the least significant byte first, as a field element.
pub proof fn law_felts(b: Seq<u8>)
    ensures
        felts(b).len() == b.len() / 8,
        forall|i: int|
            0 <= i < b.len() / 8 ==> #[trigger] felts(b)[i] == bytes::be_value(
                b.subrange(8 * i, 8 * i + 8).reverse(),
            ) as int % 0xffff_ffff_0000_0001,
{
    assert forall|i: int| 0 <= i < b.len() / 8 implies #[trigger] felts(b)[i] == bytes::be_value(
        b.subrange(8 * i, 8 * i + 8).reverse(),
    ) as int % 0xffff_ffff_0000_0001 by {
        lemma_chunk(b, i);
    }
}

/// Note arguments are four big-endian numbers, in order, as field elements.
pub proof fn law_args_word(b: Seq<u8>)
    requires
        b.len() == 32,
    ensures
        args_word(b).len() == 4,
        forall|i: int|
            0 <= i < 4 ==> #[trigger] args_word(b)[i] == bytes::be_value(
                b.subrange(8 * i, 8 * i + 8),
            ) as int % 0xffff_ffff_0000_0001,
{
    assert forall|i: int| 0 <= i < 4 implies #[trigger] args_word(b)[i] == bytes::be_value(
        b.subrange(8 * i, 8 * i + 8),
    ) as int % 0xffff_ffff_0000_0001 by {
        lemma_chunk(b, i);
    }
}

/// A consumption takes the note as it is, its arguments as field elements, and all elements of the
/// prepared signature, however many; they are looked up under the digest of the agent's key, which
/// the note's storage starts with, and the digest of serial number and arguments. Bytes that are no
/// note, and a note without an agent, are not consumed.
pub proof fn law_consumption(note: Seq<u8>, args: Seq<u8>, v: Seq<u64>, left_over: Seq<u8>)
    requires
        args.len() == 32,
        forall|i: int| 0 <= i < v.len() ==> #[trigger] v[i] < word::FELT_ORDER,
        left_over.len() < 8,
    ensures
        ({
            let r = consumption(note, args, client::elements_bytes(v) + left_over);
            match note_parts(note) {
                Err(e) => r is Err && r->Err_0 == "Note decode: "@ + e,
                Ok((serial, storage)) => {
                    &&& storage.len() < 4 ==> r is Err && r->Err_0
                        == "note storage too short for agent_pk"@
                    &&& storage.len() >= 4 ==> {
                        let c = r->Ok_0;
                        &&& r is Ok
                        &&& c.note == note
                        &&& c.prepared == v
                        &&& c.args.len() == 4
                        &&& forall|i: int|
                            0 <= i < 4 ==> #[trigger] c.args[i] == bytes::be_value(
                                args.subrange(8 * i, 8 * i + 8),
                            ) as int % 0xffff_ffff_0000_0001
                        &&& c.sig_key == word::merge_digest(
                            storage.subrange(0, 4),
                            word::merge_digest(serial, c.args),
                        )
                    }
                },
            }
        }),
{
    law_prepared_round_trip(v, left_over);
    law_args_word(args);
    match note_parts(note) {
        Ok((serial, storage)) => {
            if storage.len() >= 4 {
                assert(storage.subrange(0, 4) =~= storage.take(4));
            }
        },
        Err(_) => {},
    }
}

/// Consumptions of the same note with the same arguments differ only in the elements of the
/// prepared signature, and these are all that its bytes hold.
pub proof fn law_consumption_of_any_bytes(note: Seq<u8>, args: Seq<u8>, prepared: Seq<u8>)
    requires
        args.len() == 32,
    ensures
        consumption(note, args, prepared) is Ok <==> note_parts(note) is Ok
            && note_storage(note).len() >= 4,
        consumption(note, args, prepared) matches Ok(c) ==> {
            &&& c.prepared.len() == prepared.len() / 8
            &&& forall|i: int|
                0 <= i < prepared.len() / 8 ==> #[trigger] c.prepared[i] == bytes::be_value(
                    prepared.subrange(8 * i, 8 * i + 8).reverse(),
                ) as int % 0xffff_ffff_0000_0001
        },
{
    law_felts(prepared);
}

/// The storage of the note with these bytes.
pub open spec fn note_storage(note: Seq<u8>) -> Seq<u64> {
    note_parts(note)->Ok_0.1
}

/// Where a command begins: a sync at once, an account or a note where its bytes decode, and else
/// the reply that they do not; a consumption with what it takes; a completion with itself.
pub proof fn law_first(bytes: Seq<u8>, args: Seq<u8>, prepared: Seq<u8>, r: Completion)
    ensures
        first(Order::Sync) == Stage::Sync,
        match decoder::account_decoded(bytes) {
            Ok(_) => first(Order::AddAccountBytes { bytes }) == (Stage::AddAccount { bytes }),
            Err(e) => first(Order::AddAccountBytes { bytes }) == Stage::Send(
                Answer::AccountAdded(Err("Account decode: "@ + e)),
            ),
        },
        match note_parts(bytes) {
            Ok(_) => first(Order::ImportNoteBytes { bytes }) == (Stage::ImportNote { bytes }),
            Err(e) => first(Order::ImportNoteBytes { bytes }) == Stage::Send(
                Answer::NoteImported(Err("Note decode: "@ + e)),
            ),
        },
        match consumption(bytes, args, prepared) {
            Ok(c) => first(Order::ConsumeAdnNote { note: bytes, args, prepared })
                == Stage::ImportConsumed(c),
            Err(e) => first(Order::ConsumeAdnNote { note: bytes, args, prepared }) == Stage::Send(
                Answer::Consumed(Err(e)),
            ),
        },
        first(Order::RebuildAndSubmit(r)) == Stage::DecodeRequest(r),
{
}

/// A step that succeeds and ends its command is replied to with what it reports.
pub proof fn law_success_is_reported(bytes: Seq<u8>, block: u32)
    ensures
        following(Stage::Sync, News::Synced(Ok(block))) == Stage::Send(Answer::Synced(Ok(block))),
        following(Stage::AddAccount { bytes }, News::Done(Ok(()))) == Stage::Send(
            Answer::AccountAdded(Ok(())),
        ),
        following(Stage::ImportNote { bytes }, News::Done(Ok(()))) == Stage::Send(
            Answer::NoteImported(Ok(())),
        ),
{
}

/// A step that fails ends its command, with the step and what was said.
pub proof fn law_failure_is_reported(
    bytes: Seq<u8>,
    c: Consumption,
    r: Completion,
    id: account::Id,
    tx_id: Seq<char>,
    looks: u32,
    text: Seq<char>,
    e: Seq<char>,
)
    ensures
        following(Stage::Sync, News::Synced(Err(e))) == Stage::Send(
            Answer::Synced(Err("sync: "@ + e)),
        ),
        following(Stage::AddAccount { bytes }, News::Done(Err(e))) == Stage::Send(
            Answer::AccountAdded(Err("add_account: "@ + e)),
        ),
        following(Stage::ImportNote { bytes }, News::Done(Err(e))) == Stage::Send(
            Answer::NoteImported(Err("import_notes: "@ + e)),
        ),
        following(Stage::ImportConsumed(c), News::Done(Err(e))) == Stage::Send(
            Answer::Consumed(Err("import_notes: "@ + e)),
        ),
        following(Stage::BuildConsume(c), News::Done(Err(e))) == Stage::Send(
            Answer::Consumed(Err("build consume request: "@ + e)),
        ),
        following(Stage::SyncBefore, News::Synced(Err(e))) == Stage::Send(
            Answer::Consumed(Err("sync_state before submit: "@ + e)),
        ),
        following(Stage::ReadAccountId, News::AccountId(None)) == Stage::Send(
            Answer::Consumed(Err("FACILITATOR_ACCOUNT_ID not set — cannot consume note"@)),
        ),
        !account::is_id(text) ==> following(Stage::ReadAccountId, News::AccountId(Some(text)))
            == Stage::Send(
            Answer::Consumed(
                Err("FACILITATOR_ACCOUNT_ID parse: "@ + account::id_error(text)),
            ),
        ),
        following(Stage::SubmitConsume { account_id: id }, News::Submitted(Err(e))) == Stage::Send(
            Answer::Consumed(Err("submit_new_transaction: "@ + e)),
        ),
        following(Stage::SyncAfter { tx_id, looks }, News::Included(Err(e))) == Stage::Send(
            Answer::Consumed(Err("sync_state after submit: "@ + e)),
        ),
        looks <= 1 ==> following(Stage::SyncAfter { tx_id, looks }, News::Included(Ok(None)))
            == Stage::Send(Answer::Consumed(Err("not yet in a block: "@ + tx_id))),
        following(Stage::DecodeRequest(r), News::Done(Err(e))) == Stage::Send(
            Answer::Submitted(Err("request decode: "@ + e)),
        ),
        following(Stage::ParseSignature(r), News::Done(Err(e))) == Stage::Send(
            Answer::Submitted(Err("parse signature: "@ + e)),
        ),
        following(Stage::BuildAdvice(r), News::Done(Err(e))) == Stage::Send(
            Answer::Submitted(Err("build advice: "@ + e)),
        ),
        following(Stage::SyncRebuilt { account_id: id }, News::Synced(Err(e))) == Stage::Send(
            Answer::Submitted(Err("sync_state: "@ + e)),
        ),
        following(Stage::SubmitRebuilt { account_id: id }, News::Submitted(Err(e))) == Stage::Send(
            Answer::Submitted(Err("submit_new_transaction: "@ + e)),
        ),
{
}

/// A caller is told the answer where there is one, and else whether the command was not sent or
/// not answered; a submitter that makes its runtime and its client serves, and goes on serving.
pub proof fn law_answers_are_told<T>(v: T, m: String, served: bool)
    ensures
        told(delivery_of(true, Some(Ok::<T, String>(v)))) == Ok::<T, error::Refusal>(v),
        told(delivery_of::<T>(true, Some(Err(m)))) == Err::<T, error::Refusal>(
            error::Refusal::Internal(m@),
        ),
        told(delivery_of::<T>(true, None)) == Err::<T, error::Refusal>(
            error::Refusal::Internal("submitter actor dropped reply"@),
        ),
        forall|answer: Option<Result<T, String>>| #[trigger]
            told(delivery_of(false, answer)) == Err::<T, error::Refusal>(
                error::Refusal::Internal("submitter actor stopped"@),
            ),
        actor_after(actor_after(Actor::Starting, true), true) is Serving,
        actor_after(Actor::Starting, true) is Connecting,
        actor_after(Actor::Serving, served) is Serving,
{
}

/// What is said of commands, steps and replies is said of what they carry.
pub proof fn law_command_fields(command: Command, c: Consume, r: Rebuild)
    ensures
        command is Sync <==> command@ is Sync,
        command matches Command::AddAccountBytes { bytes } ==> command@ == (
        Order::AddAccountBytes { bytes: bytes@ }),
        command matches Command::ImportNoteBytes { bytes } ==> command@ == (
        Order::ImportNoteBytes { bytes: bytes@ }),
        command matches Command::ConsumeAdnNote { note_bytes, note_args, prepared_sig_bytes }
            ==> command@ == (Order::ConsumeAdnNote {
            note: note_bytes@,
            args: note_args@,
            prepared: prepared_sig_bytes@,
        }),
        command matches Command::RebuildAndSubmit(b) ==> command@ == Order::RebuildAndSubmit(b@),
        c@.note == c.note_bytes@,
        c@.args == c.note_args@,
        c@.sig_key == c.sig_key@,
        c@.prepared == c.prepared_sig@,
        r@.account_id == r.account_id@,
        r@.request == r.request_bytes@,
        r@.scheme == r.scheme,
        r@.pubkey_commitment == r.pubkey_commitment@,
        r@.message == r.message@,
        r@.signature == r.signature_hex@,
        r.pubkey_hex is Some <==> r@.pubkey is Some,
        r.pubkey_hex is Some ==> r@.pubkey->0 == r.pubkey_hex->0@,
{
}

/// What is said of steps, of news and of replies is said of what they carry.
pub proof fn law_step_fields(step: Step, event: Event, reply: Reply)
    ensures
        step is Sync <==> step@ is Sync,
        step matches Step::AddAccount { bytes } ==> step@ == (Stage::AddAccount { bytes: bytes@ }),
        step matches Step::ImportNote { bytes } ==> step@ == (Stage::ImportNote { bytes: bytes@ }),
        step matches Step::ImportConsumed(c) ==> step@ == Stage::ImportConsumed(c@),
        step matches Step::BuildConsume(c) ==> step@ == Stage::BuildConsume(c@),
        step is SyncBefore <==> step@ is SyncBefore,
        step is ReadAccountId <==> step@ is ReadAccountId,
        step matches Step::SubmitConsume { account_id } ==> step@ == (Stage::SubmitConsume {
            account_id: account_id@,
        }),
        step matches Step::SyncAfter { tx_id, looks } ==> step@ == (Stage::SyncAfter {
            tx_id: tx_id@,
            looks,
        }),
        step matches Step::DecodeRequest(r) ==> step@ == Stage::DecodeRequest(r@),
        step matches Step::ParseSignature(r) ==> step@ == Stage::ParseSignature(r@),
        step matches Step::BuildAdvice(r) ==> step@ == Stage::BuildAdvice(r@),
        step matches Step::SyncRebuilt { account_id } ==> step@ == (Stage::SyncRebuilt {
            account_id: account_id@,
        }),
        step matches Step::SubmitRebuilt { account_id } ==> step@ == (Stage::SubmitRebuilt {
            account_id: account_id@,
        }),
        step matches Step::Send(r) ==> step@ == Stage::Send(r@),
        event matches Event::Done(Ok(u)) ==> event@ == News::Done(Ok(u)),
        event matches Event::Done(Err(e)) ==> event@ == News::Done(Err(e@)),
        event matches Event::Synced(Ok(b)) ==> event@ == News::Synced(Ok(b)),
        event matches Event::Synced(Err(e)) ==> event@ == News::Synced(Err(e@)),
        event matches Event::AccountId(Some(id)) ==> event@ == News::AccountId(Some(id@)),
        event matches Event::AccountId(None) ==> event@ == News::AccountId(None),
        event matches Event::Submitted(Ok(t)) ==> event@ == News::Submitted(Ok(t@)),
        event matches Event::Submitted(Err(e)) ==> event@ == News::Submitted(Err(e@)),
        event matches Event::Included(Ok(b)) ==> event@ == News::Included(Ok(b)),
        event matches Event::Included(Err(e)) ==> event@ == News::Included(Err(e@)),
        reply matches Reply::Synced(Ok(b)) ==> reply@ == Answer::Synced(Ok(b)),
        reply matches Reply::Synced(Err(e)) ==> reply@ == Answer::Synced(Err(e@)),
        reply matches Reply::AccountAdded(Ok(u)) ==> reply@ == Answer::AccountAdded(Ok(u)),
        reply matches Reply::AccountAdded(Err(e)) ==> reply@ == Answer::AccountAdded(Err(e@)),
        reply matches Reply::NoteImported(Ok(u)) ==> reply@ == Answer::NoteImported(Ok(u)),
        reply matches Reply::NoteImported(Err(e)) ==> reply@ == Answer::NoteImported(Err(e@)),
        reply matches Reply::Consumed(Ok((t, b))) ==> reply@ == Answer::Consumed(Ok((t@, b))),
        reply matches Reply::Consumed(Err(e)) ==> reply@ == Answer::Consumed(Err(e@)),
        reply matches Reply::Submitted(Ok(t)) ==> reply@ == Answer::Submitted(Ok(t@)),
        reply matches Reply::Submitted(Err(e)) ==> reply@ == Answer::Submitted(Err(e@)),
{
}

} // verus!
