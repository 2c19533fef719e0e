//! The submitter.

use miden_protocol::account::{
    Account, AccountId as OutsideId, AccountStorage, StorageMap, StorageMapKey, StorageSlot,
    StorageSlotName,
};
use miden_protocol::assembly::Assembler;
use miden_protocol::asset::{Asset, AssetVault, NonFungibleAsset};
use miden_protocol::note::{
    Note, NoteAssets, NoteMetadata, NoteRecipient, NoteScript, NoteStorage, NoteType,
};
use miden_protocol::utils::serde::{Deserializable, Serializable};
use miden_protocol::{Felt, Hasher};
use x402_adn::account::AccountId;
use x402_adn::adn::pack_numbers;
use x402_adn::client::elements_to_bytes;
use x402_adn::decoder::is_account_readable;
use x402_adn::error::FacilitatorError;
use x402_adn::message::debit_message;
use x402_adn::storage::AgentDebitNoteStorage;
use x402_adn::submitter::{
    advance, begin, client_error, delivered, delivery, next_actor, note_args_word,
    prepare_consume, prepared_felts, try_begin, Actor, ClientFailure, Command, Delivery, Event,
    Rebuild, Reply, SignatureScheme, Step, MAX_LOOKS,
};
use x402_adn::word::{merge, Word};

const USER: &str = "0x86535dca74a83d100febdc1560fbe8";

fn note_with(storage: NoteStorage) -> Vec<u8> {
    let program = Assembler::default().assemble_program("begin push.1 drop end").unwrap();
    let recipient = NoteRecipient::new(
        miden_protocol::Word::new([100, 200, 300, 400].map(Felt::new)),
        NoteScript::new(program),
        storage,
    );
    let sender = OutsideId::from_hex(USER).unwrap();
    let metadata = NoteMetadata::new(sender, NoteType::Private);
    Note::new(NoteAssets::new(vec![]).unwrap(), metadata, recipient).to_bytes()
}

fn note_bytes() -> Vec<u8> {
    let user = AccountId::from_hex(USER).unwrap();
    note_with(AgentDebitNoteStorage::new(Word::new([11, 12, 13, 14]), user, 1_000).into())
}

/// The bytes of an account with so many procedures.
fn account_bytes(procedures: u8) -> Vec<u8> {
    let vault = AssetVault::new(&[]).unwrap().to_bytes();
    account_of(vault, AccountStorage::new(vec![]).unwrap(), procedures)
}

fn account_of(vault: Vec<u8>, storage: AccountStorage, procedures: u8) -> Vec<u8> {
    let program = Assembler::default().assemble_program("begin push.1 drop end").unwrap();
    let mut out = OutsideId::from_hex(USER).unwrap().to_bytes();
    out.extend(vault);
    out.extend(storage.to_bytes());
    out.extend(program.mast_forest().to_bytes());
    out.push(procedures - 1);
    for i in 0..procedures {
        out.extend(miden_protocol::Word::new([i as u64, 2, 3, 4].map(Felt::new)).to_bytes());
    }
    out.extend(Felt::new(1).to_bytes());
    out.push(0);
    out
}

const FAUCET: &str = "0x86535dca74a83d300febdc1560fbe8";
const LOWER_FAUCET: &str = "0x16535dca74a83d300febdc1560fbe8";

/// The bytes of an asset of the faucet.
fn asset_bytes(faucet: &str, i: u64) -> Vec<u8> {
    let value = miden_protocol::Word::new([i, 5, 6, 7].map(Felt::new));
    let faucet = OutsideId::from_hex(faucet).unwrap();
    Asset::from(NonFungibleAsset::from_parts(faucet, value).unwrap()).to_bytes()
}

/// The bytes of a vault with so many assets of one faucet.
fn vault_bytes(assets: u64) -> Vec<u8> {
    vault_with(assets, vec![])
}

/// The bytes of a vault with so many assets of one faucet, and these.
fn vault_with(assets: u64, more: Vec<Vec<u8>>) -> Vec<u8> {
    let mut out = (assets as usize + more.len()).to_bytes();
    for i in 0..assets {
        out.extend(asset_bytes(FAUCET, i));
    }
    out.extend(more.concat());
    out
}

/// A storage with a value and a map.
fn storage() -> AccountStorage {
    let word = |v: u64| miden_protocol::Word::new([v, 2, 3, 4].map(Felt::new));
    let name = |s: &str| StorageSlotName::new(s).unwrap();
    let entries = (0..5).map(|i| (StorageMapKey::new(word(i)), word(i + 1)));
    let map = StorageMap::with_entries(entries.collect::<Vec<_>>()).unwrap();
    AccountStorage::new(vec![
        StorageSlot::with_value(name("some::value"), word(9)),
        StorageSlot::with_map(name("some::map"), map),
    ])
    .unwrap()
}

fn rebuild() -> Rebuild {
    Rebuild {
        account_id: AccountId::from_hex(USER).unwrap(),
        request_bytes: vec![1, 2, 3],
        scheme: SignatureScheme::Falcon,
        pubkey_commitment: Word::new([1, 2, 3, 4]),
        message: Word::new([5, 6, 7, 8]),
        signature_hex: "0xab".to_string(),
        pubkey_hex: None,
    }
}

fn consume() -> Command {
    Command::ConsumeAdnNote {
        note_bytes: note_bytes(),
        note_args: pack_numbers([21, 22, 23, 24]),
        prepared_sig_bytes: elements_to_bytes(&[31, 32]),
    }
}

fn consume_error(step: Step) -> String {
    match step {
        Step::Send(Reply::Consumed(Err(e))) => e,
        _ => panic!("the consumption should have failed"),
    }
}

fn submit_error(step: Step) -> String {
    match step {
        Step::Send(Reply::Submitted(Err(e))) => e,
        _ => panic!("the submission should have failed"),
    }
}

fn no() -> String {
    "no".to_string()
}

#[test]
fn consuming_a_note_prepares_arguments_signature_and_key() {
    let c = prepare_consume(
        note_bytes(),
        &pack_numbers([21, 22, 23, 24]),
        &elements_to_bytes(&[31, 32]),
    )
    .unwrap();
    assert_eq!(c.note_bytes, note_bytes());
    assert_eq!(c.note_args.elements(), [21, 22, 23, 24]);
    assert_eq!(c.prepared_sig, vec![31, 32]);
    let word = |v: [u64; 4]| miden_protocol::Word::new(v.map(Felt::new));
    let message = Hasher::merge(&[word([100, 200, 300, 400]), word([21, 22, 23, 24])]);
    let key = Hasher::merge(&[word([11, 12, 13, 14]), message]);
    assert_eq!(
        c.sig_key.elements(),
        key.into_elements().map(|f| f.as_canonical_u64())
    );
}

#[test]
fn the_signature_is_looked_up_by_agent_and_debit_message() {
    let merchant = AccountId::from_hex("0x4ac9172cc5c709206076eb2cd7700e").unwrap();
    let args = pack_numbers([merchant.suffix(), merchant.prefix(), 100, 0]);
    let c = prepare_consume(note_bytes(), &args, &[]).unwrap();
    let message = debit_message(Word::new([100, 200, 300, 400]), merchant, 100);
    assert_eq!(
        c.sig_key.elements(),
        merge(Word::new([11, 12, 13, 14]), message).elements()
    );
}

#[test]
fn bytes_that_are_no_note_are_not_consumed() {
    let e = match prepare_consume(vec![1, 2, 3], &[0; 32], &[]) {
        Err(e) => e,
        Ok(_) => panic!("these bytes are no note"),
    };
    assert!(e.starts_with("Note decode: "));
    let step = begin(Command::ConsumeAdnNote {
        note_bytes: vec![1, 2, 3],
        note_args: [0; 32],
        prepared_sig_bytes: vec![],
    });
    assert_eq!(consume_error(step), e);
    match begin(Command::ImportNoteBytes { bytes: vec![1, 2, 3] }) {
        Step::Send(Reply::NoteImported(Err(m))) => assert_eq!(m, e),
        _ => panic!("these bytes are no note"),
    }
}

#[test]
fn a_note_without_an_agent_is_not_consumed() {
    let short = note_with(NoteStorage::new(vec![Felt::new(1); 3]).unwrap());
    match prepare_consume(short, &[0; 32], &[]) {
        Err(e) => assert_eq!(e, "note storage too short for agent_pk"),
        Ok(_) => panic!("the storage has three items"),
    }
    let enough = note_with(NoteStorage::new(vec![Felt::new(1); 4]).unwrap());
    assert!(prepare_consume(enough, &[0; 32], &[]).is_ok());
}

#[test]
fn note_arguments_are_big_endian() {
    let mut b = [0u8; 32];
    b[7] = 1;
    b[15] = 2;
    b[16..24].copy_from_slice(&[0xff; 8]);
    assert_eq!(note_args_word(&b).elements(), [1, 2, 0xffff_fffe, 0]);
    assert_eq!(note_args_word(&pack_numbers([5, 6, 7, 8])).elements(), [5, 6, 7, 8]);
}

#[test]
fn prepared_signatures_are_little_endian_and_whole() {
    assert_eq!(prepared_felts(&elements_to_bytes(&[1, 2, 3])), vec![1, 2, 3]);
    assert_eq!(prepared_felts(&[1, 0, 0, 0, 0, 0, 0, 0, 9, 9]), vec![1]);
    assert_eq!(prepared_felts(&[0xff; 8]), vec![0xffff_fffe]);
    assert_eq!(prepared_felts(&[]), Vec::<u64>::new());
}

#[test]
fn a_consumption_runs_to_its_reply() {
    let step = begin(consume());
    assert!(matches!(step, Step::ImportConsumed(_)));
    let step = advance(step, Event::Done(Ok(())));
    match &step {
        Step::BuildConsume(c) => assert_eq!(c.prepared_sig, vec![31, 32]),
        _ => panic!("the note is imported"),
    }
    let step = advance(step, Event::Done(Ok(())));
    assert!(matches!(step, Step::SyncBefore));
    let step = advance(step, Event::Synced(Ok(5)));
    assert!(matches!(step, Step::ReadAccountId));
    let step = advance(step, Event::AccountId(Some(USER.to_string())));
    match &step {
        Step::SubmitConsume { account_id } => assert_eq!(account_id.to_hex(), USER),
        _ => panic!("the account is known"),
    }
    let step = advance(step, Event::Submitted(Ok("0xtx".to_string())));
    assert!(matches!(step, Step::SyncAfter { .. }));
    let step = advance(step, Event::Included(Ok(None)));
    assert!(matches!(&step, Step::SyncAfter { tx_id, looks: 14 } if tx_id == "0xtx"));
    match advance(step, Event::Included(Ok(Some(6)))) {
        Step::Send(Reply::Consumed(Ok((tx_id, block)))) => {
            assert_eq!(tx_id, "0xtx");
            assert_eq!(block, 6);
        },
        _ => panic!("the note is consumed"),
    }
}

#[test]
fn a_consumption_says_where_it_failed() {
    let step = || begin(consume());
    let built = || advance(step(), Event::Done(Ok(())));
    assert_eq!(consume_error(advance(step(), Event::Done(Err(no())))), "import_notes: no");
    assert_eq!(
        consume_error(advance(built(), Event::Done(Err(no())))),
        "build consume request: no"
    );
    assert_eq!(
        consume_error(advance(Step::SyncBefore, Event::Synced(Err(no())))),
        "sync_state before submit: no"
    );
    assert_eq!(
        consume_error(advance(Step::ReadAccountId, Event::AccountId(None))),
        "FACILITATOR_ACCOUNT_ID not set — cannot consume note"
    );
    let e = consume_error(advance(Step::ReadAccountId, Event::AccountId(Some(no()))));
    assert!(e.starts_with("FACILITATOR_ACCOUNT_ID parse: "));
    let account_id = AccountId::from_hex(USER).unwrap();
    assert_eq!(
        consume_error(advance(
            Step::SubmitConsume { account_id },
            Event::Submitted(Err(no()))
        )),
        "submit_new_transaction: no"
    );
    assert_eq!(
        consume_error(advance(
            Step::SyncAfter { tx_id: "t".to_string(), looks: 3 },
            Event::Included(Err(no()))
        )),
        "sync_state after submit: no"
    );
    let mut step = Step::SyncAfter { tx_id: "t".to_string(), looks: MAX_LOOKS };
    for _ in 1..MAX_LOOKS {
        step = advance(step, Event::Included(Ok(None)));
        assert!(matches!(step, Step::SyncAfter { .. }));
    }
    assert_eq!(
        consume_error(advance(step, Event::Included(Ok(None)))),
        "not yet in a block: t"
    );
}

#[test]
fn news_of_another_step_changes_nothing() {
    assert!(matches!(advance(Step::SyncBefore, Event::Done(Ok(()))), Step::SyncBefore));
    assert!(matches!(
        advance(Step::Send(Reply::Synced(Ok(3))), Event::Synced(Ok(4))),
        Step::Send(Reply::Synced(Ok(3)))
    ));
}

#[test]
fn a_sync_replies_with_the_block() {
    let step = begin(Command::Sync);
    assert!(matches!(
        advance(step, Event::Synced(Ok(9))),
        Step::Send(Reply::Synced(Ok(9)))
    ));
    match advance(Step::Sync, Event::Synced(Err(no()))) {
        Step::Send(Reply::Synced(Err(e))) => assert_eq!(e, "sync: no"),
        _ => panic!("the sync failed"),
    }
}

#[test]
fn accounts_are_decoded_then_added() {
    let bytes = account_bytes(2);
    assert!(Account::read_from_bytes(&bytes).is_ok());
    let step = begin(Command::AddAccountBytes { bytes: bytes.clone() });
    match &step {
        Step::AddAccount { bytes: b } => assert_eq!(b, &bytes),
        _ => panic!("the account is to be added"),
    }
    match try_begin(Command::AddAccountBytes { bytes: bytes.clone() }) {
        Some(Step::AddAccount { bytes: b }) => assert_eq!(b, bytes),
        _ => panic!("the account is to be added"),
    }
    assert!(matches!(
        advance(step, Event::Done(Ok(()))),
        Step::Send(Reply::AccountAdded(Ok(())))
    ));
    match advance(Step::AddAccount { bytes }, Event::Done(Err(no()))) {
        Step::Send(Reply::AccountAdded(Err(e))) => assert_eq!(e, "add_account: no"),
        _ => panic!("adding failed"),
    }
    match begin(Command::AddAccountBytes { bytes: vec![7] }) {
        Step::Send(Reply::AccountAdded(Err(e))) => assert_eq!(
            e,
            format!("Account decode: {}", Account::read_from_bytes(&[7]).unwrap_err())
        ),
        _ => panic!("decoding failed"),
    }
}

#[test]
fn an_account_of_a_single_procedure_is_not_read() {
    assert!(try_begin(Command::AddAccountBytes { bytes: account_bytes(1) }).is_none());
    let mut cut = account_bytes(1);
    cut.truncate(cut.len() - 12);
    assert!(matches!(
        try_begin(Command::AddAccountBytes { bytes: cut }),
        Some(Step::Send(Reply::AccountAdded(Err(_))))
    ));
    assert!(try_begin(Command::Sync).is_some());
}

#[test]
fn an_account_whose_vault_has_a_full_leaf_is_read() {
    let bytes = account_of(vault_bytes(1024), storage(), 2);
    assert!(Account::read_from_bytes(&bytes).is_ok());
    assert!(is_account_readable(&bytes));
    assert!(matches!(
        try_begin(Command::AddAccountBytes { bytes }),
        Some(Step::AddAccount { .. })
    ));
}

#[test]
fn an_account_whose_vault_has_a_crowded_leaf_is_not_read() {
    let bytes = account_of(vault_bytes(1025), storage(), 2);
    assert!(!is_account_readable(&bytes));
    assert!(try_begin(Command::AddAccountBytes { bytes }).is_none());
    let cut = account_of(vault_bytes(1025), storage(), 2)[..40_000].to_vec();
    assert!(is_account_readable(&cut));
}

#[test]
fn a_crowded_leaf_with_a_repeated_asset_is_answered_with_the_error() {
    let vault = vault_with(1025, vec![asset_bytes(FAUCET, 7)]);
    let bytes = account_of(vault, storage(), 2);
    let said = Account::read_from_bytes(&bytes).unwrap_err().to_string();
    match try_begin(Command::AddAccountBytes { bytes }) {
        Some(Step::Send(Reply::AccountAdded(Err(e)))) => {
            assert_eq!(e, format!("Account decode: {said}"))
        },
        _ => panic!("the vault repeats an asset"),
    }
}

#[test]
fn an_asset_repeated_in_a_lower_leaf_is_met_before_a_crowded_one() {
    let twice = |faucet: &str| vec![asset_bytes(faucet, 7), asset_bytes(faucet, 7)];
    let lower = account_of(vault_with(1025, twice(LOWER_FAUCET)), storage(), 2);
    assert!(Account::read_from_bytes(&lower).is_err());
    assert!(is_account_readable(&lower));
    let higher = "0x96535dca74a83d300febdc1560fbe8";
    assert!(!is_account_readable(&account_of(vault_with(1025, twice(higher)), storage(), 2)));
    let few = account_of(vault_with(3, twice(higher)), storage(), 2);
    assert!(Account::read_from_bytes(&few).is_err());
    assert!(is_account_readable(&few));
}

#[test]
fn a_single_procedure_is_found_behind_storage() {
    let vault = vault_bytes(3);
    assert!(!is_account_readable(&account_of(vault.clone(), storage(), 1)));
    let bytes = account_of(vault, storage(), 2);
    assert!(Account::read_from_bytes(&bytes).is_ok());
    assert!(is_account_readable(&bytes));
    assert!(is_account_readable(&[]));
}

#[test]
fn a_client_that_cannot_be_made_says_why() {
    let text = |f: ClientFailure| client_error("http://node", f).text().to_string();
    assert_eq!(text(ClientFailure::DataDir(no())), "data dir: no");
    assert_eq!(text(ClientFailure::Endpoint(no())), "endpoint http://node: no");
    assert_eq!(text(ClientFailure::KeyStore(no())), "keystore: no");
    assert_eq!(text(ClientFailure::Build(no())), "client build: no");
}

#[test]
fn notes_are_imported() {
    let step = begin(Command::ImportNoteBytes { bytes: note_bytes() });
    match &step {
        Step::ImportNote { bytes } => assert_eq!(bytes, &note_bytes()),
        _ => panic!("the note is to be imported"),
    }
    match advance(step, Event::Done(Err(no()))) {
        Step::Send(Reply::NoteImported(Err(e))) => assert_eq!(e, "import_notes: no"),
        _ => panic!("importing failed"),
    }
    assert!(matches!(
        advance(Step::ImportNote { bytes: vec![] }, Event::Done(Ok(()))),
        Step::Send(Reply::NoteImported(Ok(())))
    ));
}

#[test]
fn a_transaction_is_completed_synced_and_submitted() {
    let step = begin(Command::RebuildAndSubmit(rebuild()));
    match &step {
        Step::DecodeRequest(r) => assert_eq!(r.request_bytes, vec![1, 2, 3]),
        _ => panic!("the request is to be decoded"),
    }
    let step = advance(step, Event::Done(Ok(())));
    assert!(matches!(step, Step::ParseSignature(_)));
    let step = advance(step, Event::Done(Ok(())));
    assert!(matches!(step, Step::BuildAdvice(_)));
    let step = advance(step, Event::Done(Ok(())));
    assert!(matches!(step, Step::SyncRebuilt { .. }));
    let step = advance(step, Event::Synced(Ok(1)));
    match &step {
        Step::SubmitRebuilt { account_id } => assert_eq!(account_id.to_hex(), USER),
        _ => panic!("the transaction is to be submitted"),
    }
    match advance(step, Event::Submitted(Ok("0xtx".to_string()))) {
        Step::Send(Reply::Submitted(Ok(tx_id))) => assert_eq!(tx_id, "0xtx"),
        _ => panic!("the transaction was submitted"),
    }
}

#[test]
fn a_completion_says_where_it_failed() {
    let account_id = AccountId::from_hex(USER).unwrap();
    let fail = |step: Step| submit_error(advance(step, Event::Done(Err(no()))));
    assert_eq!(fail(Step::DecodeRequest(rebuild())), "request decode: no");
    assert_eq!(fail(Step::ParseSignature(rebuild())), "parse signature: no");
    assert_eq!(fail(Step::BuildAdvice(rebuild())), "build advice: no");
    assert_eq!(
        submit_error(advance(Step::SyncRebuilt { account_id }, Event::Synced(Err(no())))),
        "sync_state: no"
    );
    assert_eq!(
        submit_error(advance(
            Step::SubmitRebuilt { account_id },
            Event::Submitted(Err(no()))
        )),
        "submit_new_transaction: no"
    );
}

#[test]
fn callers_learn_what_became_of_a_command() {
    let text = |r: Result<u32, FacilitatorError>| match r {
        Err(FacilitatorError::Internal(m)) => m,
        _ => panic!("expected an internal error"),
    };
    assert_eq!(text(delivered(Delivery::Stopped)), "submitter actor stopped");
    assert_eq!(text(delivered(Delivery::Dropped)), "submitter actor dropped reply");
    assert_eq!(text(delivered(Delivery::Answered(Err(no())))), "no");
    assert_eq!(delivered(Delivery::Answered(Ok(4u32))).unwrap(), 4);
    assert!(matches!(delivery(false, Some(Ok(4u32))), Delivery::Stopped));
    assert!(matches!(delivery::<u32>(true, None), Delivery::Dropped));
    assert!(matches!(delivery(true, Some(Ok(4u32))), Delivery::Answered(Ok(4))));
}

#[test]
fn a_failed_start_ends_the_submitter() {
    assert!(matches!(next_actor(Actor::Starting, true), Actor::Connecting));
    assert!(matches!(next_actor(Actor::Connecting, true), Actor::Serving));
    assert!(matches!(next_actor(Actor::Serving, false), Actor::Serving));
    for actor in [Actor::Starting, Actor::Connecting] {
        let gone = next_actor(actor, false);
        assert!(matches!(gone, Actor::Gone));
        assert!(matches!(next_actor(gone, true), Actor::Gone));
    }
}
