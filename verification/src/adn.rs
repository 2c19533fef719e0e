//! Payment with an agent debit note: checking the agent's signature and acknowledging the debit.
//!
//! Acknowledging needs neither proving nor the chain. Settlement follows where a submitter is
//! configured, and its failure does not take the acknowledgement back.

use vstd::prelude::*;

use crate::account;
use crate::account::AccountId;
use crate::bytes;
use crate::client;
use crate::codec;
use crate::error;
use crate::error::FacilitatorError;
use crate::falcon;
use crate::key;
use crate::key::FacilitatorKey;
use crate::message;
use crate::storage;
use crate::submitter;
use crate::text;
use crate::types;
use crate::word;
use crate::word::Word;

verus! {

/// A request to debit a note.
#[derive(Debug, Clone)]
pub struct AdnPayRequest {
    pub note_id: String,
    pub serial_num_hex: [String; 4],
    pub merchant_account_id: String,
    pub amount: u64,
    pub signature_hex: String,
    pub prepared_signature_hex: String,
    pub expiry_block_height: u32,
    pub agent_pubkey_commitment_hex: String,
}

/// The acknowledgement of a debit.
#[derive(Debug, Clone)]
pub struct AdnPayResponse {
    pub accepted_at_unix_micros: u64,
    pub facilitator_ack_signature: String,
    pub facilitator_pubkey_commitment: String,
    /// The settling transaction, where settlement succeeded.
    pub tx_id: Option<String>,
    /// The block of the settling transaction, where settlement succeeded.
    pub block_num: Option<u32>,
}

/// An [`AdnPayRequest`] with its texts as sequences.
#[verifier::ext_equal]
pub struct Request {
    pub note_id: Seq<char>,
    pub serial: Seq<Seq<char>>,
    pub merchant: Seq<char>,
    pub amount: u64,
    pub signature: Seq<char>,
    pub prepared: Seq<char>,
    pub expiry_block: u32,
    pub commitment: Seq<char>,
}

/// An [`AdnPayResponse`] with its texts as sequences.
#[verifier::ext_equal]
pub struct Response {
    pub accepted_at: u64,
    pub ack_signature: Seq<char>,
    pub commitment: Seq<char>,
    pub tx_id: Option<Seq<char>>,
    pub block_num: Option<u32>,
}

impl View for AdnPayRequest {
    type V = Request;

    open spec fn view(&self) -> Request {
        Request {
            note_id: self.note_id@,
            serial: types::texts(self.serial_num_hex),
            merchant: self.merchant_account_id@,
            amount: self.amount,
            signature: self.signature_hex@,
            prepared: self.prepared_signature_hex@,
            expiry_block: self.expiry_block_height,
            commitment: self.agent_pubkey_commitment_hex@,
        }
    }
}

impl View for AdnPayResponse {
    type V = Response;

    open spec fn view(&self) -> Response {
        Response {
            accepted_at: self.accepted_at_unix_micros,
            ack_signature: self.facilitator_ack_signature@,
            commitment: self.facilitator_pubkey_commitment@,
            tx_id: types::text_of(self.tx_id),
            block_num: self.block_num,
        }
    }
}

/// The request that relays a signed debit.
pub open spec fn relayed(d: types::Debit) -> Request {
    Request {
        note_id: d.note_id,
        serial: d.serial,
        merchant: d.merchant,
        amount: d.amount,
        signature: d.signature,
        prepared: d.prepared,
        expiry_block: d.expiry_block,
        commitment: d.commitment,
    }
}

/// The number below 2^64 that base-16 text spells.
pub open spec fn hex_u64(s: Seq<char>) -> Option<u64> {
    let d = text::unsigned(s);
    if d.len() > 0 && text::all_hex(d) && text::hex_value(d) <= u64::MAX {
        Some(text::hex_value(d) as u64)
    } else {
        None
    }
}

/// What is said of text that spells no such number, where it has one fault.
pub open spec fn plain_hex_u64_error(s: Seq<char>) -> Option<Seq<char>> {
    let d = text::unsigned(s);
    if s.len() == 0 {
        Some("cannot parse integer from empty string"@)
    } else if d.len() > 0 && text::all_hex(d) {
        Some("number too large to fit in target type"@)
    } else if d.len() <= 16 {
        Some("invalid digit found in string"@)
    } else {
        None
    }
}

/// What `ParseIntError` says of text that has a character that is no digit and is longer than a
/// number below 2^64.
pub uninterp spec fn other_hex_u64_error(s: Seq<char>) -> Seq<char>;

/// What is said of text that spells no such number.
pub open spec fn hex_u64_error(s: Seq<char>) -> Seq<char> {
    match plain_hex_u64_error(s) {
        Some(e) => e,
        None => other_hex_u64_error(s),
    }
}

/// The number in one text of a serial number.
pub open spec fn serial_element(s: Seq<char>) -> Option<u64> {
    hex_u64(text::strip_0x(s))
}

/// The refusal of the text of element `i` of a serial number.
pub open spec fn bad_serial(i: int, s: Seq<char>) -> error::Refusal {
    error::Refusal::Malformed(
        "serial_num["@ + text::decimal(i as nat) + "]: "@ + hex_u64_error(text::strip_0x(s)),
    )
}

/// What the texts of a serial number say from element `i` on: the numbers, or the refusal of the
/// first that is none.
pub open spec fn serial_from(serial: Seq<Seq<char>>, i: int) -> Result<Seq<u64>, error::Refusal>
    decreases serial.len() - i,
{
    if i >= serial.len() {
        Ok(Seq::empty())
    } else {
        match serial_element(serial[i]) {
            None => Err(bad_serial(i, serial[i])),
            Some(v) => match serial_from(serial, i + 1) {
                Ok(rest) => Ok(seq![v] + rest),
                Err(e) => Err(e),
            },
        }
    }
}

/// The numbers in the texts of a serial number, or the refusal of the first that is none.
pub open spec fn serial_numbers(serial: Seq<Seq<char>>) -> Result<Seq<u64>, error::Refusal> {
    serial_from(serial, 0)
}

/// What base-16 text gives as bytes, `0x` before it or not.
pub open spec fn decoded(s: Seq<char>) -> Result<Seq<u8>, error::Refusal> {
    let digits = text::strip_0x(s);
    if codec::is_hex(digits) {
        Ok(codec::hex_bytes(digits))
    } else {
        Err(error::Refusal::Malformed("hex: "@ + codec::hex_error(digits)))
    }
}

/// The message that the signature of a request must be of.
pub open spec fn request_message(r: Request) -> Seq<u64> {
    message::debit_digest(
        word::reduced(serial_numbers(r.serial)->Ok_0),
        account::Id {
            prefix: account::id_prefix(r.merchant),
            suffix: account::id_suffix(r.merchant),
        },
        r.amount,
    )
}

/// The refusal of a signature that is not one of the debit.
pub open spec fn not_verified() -> error::Refusal {
    error::Refusal::InvalidSignature("Falcon signature failed to verify against debit message"@)
}

/// The refusal of a key that is not the one claimed.
pub open spec fn wrong_key(signer: Seq<char>, claimed: Seq<char>) -> error::Refusal {
    error::Refusal::InvalidSignature(
        "pubkey commitment mismatch: sig has "@ + signer + ", claimed "@ + claimed,
    )
}

/// The signature is one of the request's debit. An amount that is no field element is covered by
/// no signature: a message holds the field element that an amount stands for, and so is that of
/// a smaller amount too.
pub open spec fn covers(sig: Seq<u8>, r: Request) -> bool {
    r.amount < word::FELT_ORDER && falcon::verifies(sig, request_message(r))
}

/// Why a request is refused; nothing where its signature is one of the debit by the claimed key.
pub open spec fn refusal(r: Request) -> Option<error::Refusal> {
    if serial_numbers(r.serial) is Err {
        Some(serial_numbers(r.serial)->Err_0)
    } else if !account::is_id(r.merchant) {
        Some(
            error::Refusal::Malformed("merchant_account_id: "@ + account::id_error(r.merchant)),
        )
    } else {
        match decoded(r.signature) {
            Err(e) => Some(e),
            Ok(sig) => match falcon::signer(sig) {
                Err(e) => Some(error::Refusal::InvalidSignature("Falcon decode: "@ + e)),
                Ok(signer) => if !covers(sig, r) {
                    Some(not_verified())
                } else {
                    let found = text::strip_0x(word::word_hex(signer));
                    let claimed = text::strip_0x(r.commitment);
                    if found != claimed {
                        Some(wrong_key(found, claimed))
                    } else {
                        None
                    }
                },
            },
        }
    }
}

/// The decoder of signatures comes to a result on the request's signature, where it gets it.
pub open spec fn signature_readable(r: Request) -> bool {
    serial_numbers(r.serial) is Ok && account::is_id(r.merchant) && decoded(r.signature) is Ok
        ==> falcon::readable(decoded(r.signature)->Ok_0)
}

/// The bytes that an acknowledgement signs the digest of.
pub open spec fn ack_bytes(
    accepted_at: u64,
    note_id: Seq<char>,
    merchant: Seq<char>,
    amount: u64,
) -> Seq<u8> {
    bytes::be_bytes(accepted_at as nat, 8) + vstd::utf8::encode_utf8(note_id)
        + vstd::utf8::encode_utf8(merchant) + bytes::be_bytes(amount as nat, 8)
}

/// The message that the acknowledgement of a request signs.
pub open spec fn ack_digest(now: u64, r: Request) -> Seq<u64> {
    word::bytes_digest(ack_bytes(now, r.note_id, r.merchant, r.amount))
}

/// Four numbers as 32 big-endian bytes.
pub open spec fn pack(v: Seq<u64>) -> Seq<u8> {
    bytes::be_bytes(v[0] as nat, 8) + bytes::be_bytes(v[1] as nat, 8) + bytes::be_bytes(
        v[2] as nat,
        8,
    ) + bytes::be_bytes(v[3] as nat, 8)
}

/// `u64::from_str_radix` in base 16: takes an optional plus sign and at least one digit of either
/// case, of a number below 2^64. Its error says that the text is empty, has a character that is no
/// digit, or spells too large a number.
#[verifier::external_body]
fn parse_hex_u64(s: &str) -> (r: Result<u64, String>)
    ensures
        match r {
            Ok(v) => hex_u64(s@) == Some(v),
            Err(e) => hex_u64(s@) is None && e@ == (match plain_hex_u64_error(s@) {
                Some(m) => m,
                None => other_hex_u64_error(s@),
            }),
        },
{
    u64::from_str_radix(s, 16).map_err(|e| e.to_string())
}

fn parse_serial(serial: &[String; 4]) -> (r: Result<[u64; 4], FacilitatorError>)
    ensures
        match r {
            Ok(v) => serial_numbers(types::texts(*serial)) is Ok && serial_numbers(
                types::texts(*serial),
            )->Ok_0 == v@,
            Err(e) => serial_numbers(types::texts(*serial)) is Err && serial_numbers(
                types::texts(*serial),
            )->Err_0 == e@,
        },
{
    let mut v: [u64; 4] = [0, 0, 0, 0];
    let mut i: usize = 0;
    let ghost all = types::texts(*serial);
    proof {
        assert(v@.take(0) =~= Seq::<u64>::empty());
    }
    while i < 4
        invariant
            i <= 4,
            all == types::texts(*serial),
            all.len() == 4,
            match serial_from(all, i as int) {
                Ok(rest) => serial_numbers(all) is Ok && serial_numbers(all)->Ok_0 == v@.take(
                    i as int,
                ) + rest,
                Err(e) => serial_numbers(all) is Err && serial_numbers(all)->Err_0 == e,
            },
        decreases 4 - i,
    {
        let s = text::strip_hex_prefix(serial[i].as_str());
        match parse_hex_u64(s) {
            Ok(n) => {
                let ghost before = v@.take(i as int);
                v[i] = n;
                assert(v@.take(i + 1) =~= before.push(n));
                assert(before + (seq![n] + serial_from(all, i + 1)->Ok_0) =~= before.push(n)
                    + serial_from(all, i + 1)->Ok_0);
            },
            Err(e) => {
                let mut m = text::join("serial_num[", text::decimal_text(i as u64).as_str());
                m.append("]: ");
                m.append(e.as_str());
                return Err(FacilitatorError::Malformed(m));
            },
        }
        i = i + 1;
    }
    assert(v@.take(4) + Seq::<u64>::empty() =~= v@);
    Ok(v)
}

/// Reads a serial number from its four texts.
pub fn parse_serial_hex(serial: &[String; 4]) -> (r: Result<Word, FacilitatorError>)
    ensures
        match r {
            Ok(w) => serial_numbers(types::texts(*serial)) is Ok && w@ == word::reduced(
                serial_numbers(types::texts(*serial))->Ok_0,
            ),
            Err(e) => serial_numbers(types::texts(*serial)) is Err && serial_numbers(
                types::texts(*serial),
            )->Err_0 == e@,
        },
{
    match parse_serial(serial) {
        Ok(v) => Ok(Word::new(v)),
        Err(e) => Err(e),
    }
}

/// Reads bytes from base-16 text, `0x` before it or not.
pub fn decode_hex(s: &str) -> (r: Result<Vec<u8>, FacilitatorError>)
    ensures
        match r {
            Ok(v) => decoded(s@) is Ok && decoded(s@)->Ok_0 == v@,
            Err(e) => decoded(s@) is Err && decoded(s@)->Err_0 == e@,
        },
{
    match codec::hex_decode(text::strip_hex_prefix(s)) {
        Ok(v) => Ok(v),
        Err(e) => Err(FacilitatorError::Malformed(text::join("hex: ", e.as_str()))),
    }
}

/// The message that an acknowledgement signs: the digest of its time, note, merchant and amount.
pub fn ack_message(accepted_at: u64, note_id: &str, merchant_id: &str, amount: u64) -> (r: Word)
    ensures
        r@ == word::bytes_digest(ack_bytes(accepted_at, note_id@, merchant_id@, amount)),
{
    let mut buf: Vec<u8> = Vec::new();
    bytes::push_be_u64(&mut buf, accepted_at);
    buf.extend_from_slice(note_id.as_bytes());
    buf.extend_from_slice(merchant_id.as_bytes());
    bytes::push_be_u64(&mut buf, amount);
    assert(buf@ =~= ack_bytes(accepted_at, note_id@, merchant_id@, amount));
    word::hash(buf.as_slice())
}

/// Checks that a request carries a signature of its debit by the key that it claims.
pub fn verify_debit(req: &AdnPayRequest) -> (r: Result<(), FacilitatorError>)
    requires
        signature_readable(req@),
    ensures
        match r {
            Ok(_) => refusal(req@) is None,
            Err(e) => refusal(req@) == Some(e@),
        },
{
    let serial = match parse_serial_hex(&req.serial_num_hex) {
        Ok(w) => w,
        Err(e) => {
            return Err(e);
        },
    };
    let merchant = match AccountId::from_hex(req.merchant_account_id.as_str()) {
        Ok(id) => id,
        Err(e) => {
            return Err(
                FacilitatorError::Malformed(text::join("merchant_account_id: ", e.as_str())),
            );
        },
    };
    let sig = match decode_hex(req.signature_hex.as_str()) {
        Ok(b) => b,
        Err(e) => {
            return Err(e);
        },
    };
    let signer = match falcon::signature_commitment(sig.as_slice()) {
        Ok(c) => c,
        Err(e) => {
            return Err(
                FacilitatorError::InvalidSignature(text::join("Falcon decode: ", e.as_str())),
            );
        },
    };
    let msg = message::debit_message(serial, merchant, req.amount);
    if req.amount >= word::FELT_ORDER || !falcon::signature_verifies(sig.as_slice(), msg) {
        return Err(
            FacilitatorError::InvalidSignature(
                "Falcon signature failed to verify against debit message".to_owned(),
            ),
        );
    }
    let found_hex = word::word_to_hex(signer);
    let found = text::strip_hex_prefix(found_hex.as_str()).to_owned();
    let claimed = text::strip_hex_prefix(req.agent_pubkey_commitment_hex.as_str()).to_owned();
    if found != claimed {
        let mut m = text::join("pubkey commitment mismatch: sig has ", found.as_str());
        m.append(", claimed ");
        m.append(claimed.as_str());
        return Err(FacilitatorError::InvalidSignature(m));
    }
    Ok(())
}

/// What an accepted debit leads to.
pub enum Payment {
    /// This response.
    Acked(AdnPayResponse),
    /// Consuming the note with these arguments and this prepared signature; then the
    /// acknowledgement with what came of it.
    Settle { ack: AdnPayResponse, note_args: [u8; 32], prepared_sig_bytes: Vec<u8> },
}

/// A [`Payment`] as a value of the specification.
#[verifier::ext_equal]
pub enum Paid {
    Acked(Response),
    Settle { ack: Response, args: Seq<u8>, prepared: Seq<u8> },
}

impl View for Payment {
    type V = Paid;

    open spec fn view(&self) -> Paid {
        match *self {
            Payment::Acked(r) => Paid::Acked(r@),
            Payment::Settle { ack, note_args, prepared_sig_bytes } => Paid::Settle {
                ack: ack@,
                args: note_args@,
                prepared: prepared_sig_bytes@,
            },
        }
    }
}

/// The acknowledgement of a request at time `now`, with this signature.
pub open spec fn ack(now: u64, signature: Seq<char>, commitment: Seq<u64>) -> Response {
    Response {
        accepted_at: now,
        ack_signature: signature,
        commitment: word::word_hex(commitment),
        tx_id: None,
        block_num: None,
    }
}

/// The arguments with which a request's note is consumed: merchant and amount, as the agent
/// signed them.
pub open spec fn settlement_args(r: Request) -> Seq<u8> {
    pack(
        seq![
            account::id_suffix(r.merchant) as u64,
            account::id_prefix(r.merchant) as u64,
            r.amount,
            0u64,
        ],
    )
}

/// What a request that is not refused leads to at time `now`, given what came of signing its
/// acknowledgement, with settlement or not.
pub open spec fn acked(
    now: u64,
    r: Request,
    commitment: Seq<u64>,
    signature: Result<Seq<char>, error::Refusal>,
    settles: bool,
) -> Result<Paid, error::Refusal> {
    match signature {
        Err(e) => Err(e),
        Ok(s) => if !settles {
            Ok(Paid::Acked(ack(now, s, commitment)))
        } else {
            match decoded(r.prepared) {
                Err(e) => Err(e),
                Ok(prepared) => Ok(
                    Paid::Settle {
                        ack: ack(now, s, commitment),
                        args: settlement_args(r),
                        prepared,
                    },
                ),
            }
        },
    }
}

/// A payment or a refusal, as a value of the specification.
pub open spec fn payment(r: Result<Payment, FacilitatorError>) -> Result<Paid, error::Refusal> {
    match r {
        Ok(p) => Ok(p@),
        Err(e) => Err(e@),
    }
}

/// The acknowledgement in what a request leads to.
pub open spec fn ack_in(p: Paid) -> Response {
    match p {
        Paid::Acked(ack) => ack,
        Paid::Settle { ack, .. } => ack,
    }
}

/// What a request can lead to at time `now`, under the facilitator's key, with settlement or not:
/// its refusal, or what follows from something that signing the acknowledgement can come to.
pub open spec fn pays(
    now: u64,
    r: Request,
    k: key::Keys,
    settles: bool,
    result: Result<Paid, error::Refusal>,
) -> bool {
    match refusal(r) {
        Some(e) => result is Err && result->Err_0 == e,
        None => exists|s: Result<Seq<char>, error::Refusal>| #[trigger]
            key::signing_gives(k, ack_digest(now, r), s) && result == acked(
                now,
                r,
                k.commitment,
                s,
                settles,
            ),
    }
}

/// The acknowledgement in `p` is signed by the key whose commitment the facilitator goes by.
pub open spec fn signed_ack(now: u64, r: Request, k: key::Keys, p: Paid) -> bool {
    &&& k.secret is Ok
    &&& falcon::key_commitment(k.secret->Ok_0) == k.commitment
    &&& key::is_signature(ack_in(p).ack_signature, k.secret->Ok_0, ack_digest(now, r))
}

/// The bytes of the note that is consumed: those that came with the debit, or else those of the
/// prepared signature, which stand in for them.
pub open spec fn note_data(data: Option<Seq<char>>, prepared: Seq<u8>) -> Result<
    Seq<u8>,
    error::Refusal,
> {
    match data {
        Some(hex) => decoded(hex),
        None => Ok(prepared),
    }
}

/// The response after an attempt to settle: with transaction and block where it succeeded, and
/// the bare acknowledgement where it failed.
pub open spec fn with_settlement(ack: Response, done: Option<(Seq<char>, u32)>) -> Response {
    match done {
        Some((tx_id, block_num)) => Response {
            tx_id: Some(tx_id),
            block_num: Some(block_num),
            ..ack
        },
        None => Response { tx_id: None, block_num: None, ..ack },
    }
}

/// Four numbers as 32 big-endian bytes.
pub fn pack_numbers(v: [u64; 4]) -> (r: [u8; 32])
    ensures
        r@ == pack(v@),
{
    let mut buf: Vec<u8> = Vec::new();
    bytes::push_be_u64(&mut buf, v[0]);
    bytes::push_be_u64(&mut buf, v[1]);
    bytes::push_be_u64(&mut buf, v[2]);
    bytes::push_be_u64(&mut buf, v[3]);
    proof {
        bytes::lemma_be_len(v[0] as nat, 8);
        bytes::lemma_be_len(v[1] as nat, 8);
        bytes::lemma_be_len(v[2] as nat, 8);
        bytes::lemma_be_len(v[3] as nat, 8);
        assert(buf@ =~= pack(v@));
    }
    let mut r: [u8; 32] = [0u8;32];
    let mut i: usize = 0;
    while i < 32
        invariant
            i <= 32,
            buf@.len() == 32,
            forall|j: int| 0 <= j < i ==> #[trigger] r@[j] == buf@[j],
        decreases 32 - i,
    {
        r[i] = buf[i];
        i = i + 1;
    }
    assert(r@ =~= buf@);
    r
}

/// What a request that is not refused leads to at time `now`, given what came of signing its
/// acknowledgement. Where `settles`, the acknowledgement comes with what consumes the note.
pub fn acknowledge(
    now: u64,
    req: &AdnPayRequest,
    commitment: Word,
    signature: Result<String, FacilitatorError>,
    settles: bool,
) -> (r: Result<Payment, FacilitatorError>)
    requires
        account::is_id(req@.merchant),
    ensures
        payment(r) == acked(now, req@, commitment@, key::signing_outcome(signature), settles),
{
    let signature = match signature {
        Ok(s) => s,
        Err(e) => {
            return Err(e);
        },
    };
    let ack = AdnPayResponse {
        accepted_at_unix_micros: now,
        facilitator_ack_signature: signature,
        facilitator_pubkey_commitment: word::word_to_hex(commitment),
        tx_id: None,
        block_num: None,
    };
    if !settles {
        return Ok(Payment::Acked(ack));
    }
    let prepared_sig_bytes = match decode_hex(req.prepared_signature_hex.as_str()) {
        Ok(b) => b,
        Err(e) => {
            return Err(e);
        },
    };
    let merchant = match AccountId::from_hex(req.merchant_account_id.as_str()) {
        Ok(id) => id,
        Err(e) => {
            return Err(
                FacilitatorError::Malformed(text::join("merchant_account_id: ", e.as_str())),
            );
        },
    };
    let numbers = [merchant.suffix(), merchant.prefix(), req.amount, 0u64];
    let note_args = pack_numbers(numbers);
    Ok(Payment::Settle { ack, note_args, prepared_sig_bytes })
}

/// Checks a request and acknowledges its debit at time `now`, signed with the facilitator's key.
/// Where `settles`, the acknowledgement comes with what consumes the note.
pub fn pay(now: u64, req: &AdnPayRequest, facilitator_key: &FacilitatorKey, settles: bool) -> (r:
    Result<Payment, FacilitatorError>)
    requires
        signature_readable(req@),
    ensures
        pays(now, req@, facilitator_key@, settles, payment(r)),
        match r {
            Ok(p) => signed_ack(now, req@, facilitator_key@, p@),
            Err(_) => true,
        },
{
    match verify_debit(req) {
        Ok(_) => {},
        Err(e) => {
            return Err(e);
        },
    }
    let msg = ack_message(
        now,
        req.note_id.as_str(),
        req.merchant_account_id.as_str(),
        req.amount,
    );
    let signature = facilitator_key.sign_word_hex(msg);
    assert(key::signing_gives(
        facilitator_key@,
        ack_digest(now, req@),
        key::signing_outcome(signature),
    ));
    acknowledge(now, req, facilitator_key.commitment_word(), signature, settles)
}

/// The bytes of the note that is consumed: those that came with the debit, or else those of the
/// prepared signature, which stand in for them.
pub fn note_bytes(note_data_hex: &Option<String>, prepared_sig_bytes: &Vec<u8>) -> (r: Result<
    Vec<u8>,
    FacilitatorError,
>)
    ensures
        match r {
            Ok(v) => note_data(types::text_of(*note_data_hex), prepared_sig_bytes@) is Ok
                && note_data(types::text_of(*note_data_hex), prepared_sig_bytes@)->Ok_0 == v@,
            Err(e) => note_data(types::text_of(*note_data_hex), prepared_sig_bytes@) is Err
                && note_data(types::text_of(*note_data_hex), prepared_sig_bytes@)->Err_0 == e@,
        },
{
    match note_data_hex {
        Some(hex) => decode_hex(hex.as_str()),
        None => {
            let v = prepared_sig_bytes.clone();
            assert(v@ =~= prepared_sig_bytes@);
            Ok(v)
        },
    }
}

fn is_signature_readable(req: &AdnPayRequest) -> (r: bool)
    ensures
        r == signature_readable(req@),
{
    if parse_serial_hex(&req.serial_num_hex).is_err() || AccountId::from_hex(
        req.merchant_account_id.as_str(),
    ).is_err() {
        return true;
    }
    match decode_hex(req.signature_hex.as_str()) {
        Ok(sig) => falcon::is_readable(sig.as_slice()),
        Err(_) => true,
    }
}

/// Does what [`pay`] does; nothing where the request's signature cannot be read to an end.
pub fn try_pay(now: u64, req: &AdnPayRequest, facilitator_key: &FacilitatorKey, settles: bool)
    -> (r: Option<Result<Payment, FacilitatorError>>)
    ensures
        match r {
            None => !signature_readable(req@),
            Some(result) => {
                &&& signature_readable(req@)
                &&& pays(now, req@, facilitator_key@, settles, payment(result))
                &&& match result {
                    Ok(p) => signed_ack(now, req@, facilitator_key@, p@),
                    Err(_) => true,
                }
            },
        },
{
    if is_signature_readable(req) {
        Some(pay(now, req, facilitator_key, settles))
    } else {
        None
    }
}

/// The response after an attempt to settle.
pub fn settled(ack: AdnPayResponse, result: Result<(String, u32), FacilitatorError>) -> (r:
    AdnPayResponse)
    ensures
        r@ == with_settlement(
            ack@,
            match result {
                Ok((tx_id, block_num)) => Some((tx_id@, block_num)),
                Err(_) => None,
            },
        ),
        match result {
            Ok((tx_id, block_num)) => r.tx_id is Some && r.tx_id->0@ == tx_id@ && r.block_num
                == Some(block_num),
            Err(_) => r.tx_id is None && r.block_num is None,
        },
        r.accepted_at_unix_micros == ack.accepted_at_unix_micros,
        r.facilitator_ack_signature == ack.facilitator_ack_signature,
        r.facilitator_pubkey_commitment == ack.facilitator_pubkey_commitment,
{
    let mut r = ack;
    match result {
        Ok((tx_id, block_num)) => {
            r.tx_id = Some(tx_id);
            r.block_num = Some(block_num);
        },
        Err(_) => {
            r.tx_id = None;
            r.block_num = None;
        },
    }
    r
}

/// Base-16 text behind `0x` decodes to the bytes it was made from.
pub proof fn law_decode_round_trip(data: Seq<u8>)
    ensures
        decoded("0x"@ + codec::hex_of(data)) is Ok,
        decoded("0x"@ + codec::hex_of(data))->Ok_0 == data,
{
    codec::lemma_hex_of_round_trip(data);
    text::lemma_strip_prefixed(codec::hex_of(data));
}

proof fn lemma_element_text(v: u64)
    ensures
        serial_element("0x"@ + text::hex_digits(v as nat, 16)) == Some(v),
{
    let d = text::hex_digits(v as nat, 16);
    text::lemma_pow16_16();
    text::lemma_hex_round_trip(v as nat, 16);
    text::lemma_strip_prefixed(d);
    assert(text::digit_value(d[0]) is Some);
}

/// The texts of a word's elements give the word back as a serial number.
pub proof fn law_serial_round_trip(w: Seq<u64>)
    requires
        word::canonical(w),
    ensures
        serial_numbers(client::element_texts(w)) is Ok,
        serial_numbers(client::element_texts(w))->Ok_0 == w,
        word::reduced(serial_numbers(client::element_texts(w))->Ok_0) == w,
{
    let t = client::element_texts(w);
    lemma_element_text(w[0]);
    lemma_element_text(w[1]);
    lemma_element_text(w[2]);
    lemma_element_text(w[3]);
    assert(t[0] == "0x"@ + text::hex_digits(w[0] as nat, 16));
    assert(t[1] == "0x"@ + text::hex_digits(w[1] as nat, 16));
    assert(t[2] == "0x"@ + text::hex_digits(w[2] as nat, 16));
    assert(t[3] == "0x"@ + text::hex_digits(w[3] as nat, 16));
    reveal_with_fuel(serial_from, 5);
    assert(serial_numbers(t)->Ok_0 =~= w);
    word::lemma_reduced_canonical(w);
}

/// What the facilitator says of a debit that a client signed, the signature being one by the
/// client's key.
pub proof fn lemma_signed_debit(
    c: client::Client,
    merchant: account::Id,
    amount: u64,
    poly: Seq<i16>,
)
    requires
        word::canonical(c.serial),
        c.commitment == falcon::key_commitment(c.key),
        account::valid_id(merchant.prefix, merchant.suffix),
        ({
            let sig = falcon::encoded(c.key, poly);
            falcon::readable(sig) && falcon::signer(sig) is Ok && falcon::signer(sig)->Ok_0
                == falcon::key_commitment(c.key)
        }),
        ({
            let elements = falcon::prepared(
                c.key,
                poly,
                client::client_message(c, merchant, amount),
            );
            forall|i: int| 0 <= i < elements.len() ==> #[trigger] elements[i] < word::FELT_ORDER
        }),
    ensures
        client::is_signed(c, merchant, amount, poly, client::signed(c, merchant, amount, poly)),
{
    let elements = falcon::prepared(c.key, poly, client::client_message(c, merchant, amount));
    law_serial_round_trip(c.serial);
    account::law_id_round_trip(merchant.prefix, merchant.suffix);
    law_decode_round_trip(falcon::encoded(c.key, poly));
    law_decode_round_trip(client::elements_bytes(elements));
    submitter::law_prepared_round_trip(elements, Seq::empty());
    assert(client::elements_bytes(elements) + Seq::<u8>::empty() =~= client::elements_bytes(
        elements,
    ));
}

/// A debit that a client signed, of an amount that is a field element, is acknowledged when it is
/// relayed, where its signature verifies and signing the acknowledgement gives one. With
/// settlement, it is to be consumed with the elements of its prepared signature, and with arguments
/// under which the script of the note that holds the client's commitment looks them up by the
/// signed message.
pub proof fn law_signed_debit_is_paid(
    c: client::Client,
    merchant: account::Id,
    amount: u64,
    poly: Seq<i16>,
    d: types::Debit,
    user: account::Id,
    now: u64,
    k: key::Keys,
    settles: bool,
    result: Result<Paid, error::Refusal>,
)
    requires
        word::canonical(c.serial),
        word::canonical(c.commitment),
        account::valid_id(merchant.prefix, merchant.suffix),
        account::valid_id(user.prefix, user.suffix),
        client::is_signed(c, merchant, amount, poly, d),
        client::signature_verifies(c, merchant, amount, poly),
        amount < word::FELT_ORDER,
        pays(now, relayed(d), k, settles, result),
    ensures
        exists|s: Result<Seq<char>, error::Refusal>| #[trigger]
            key::signing_gives(k, ack_digest(now, relayed(d)), s) && (match s {
                Err(e) => result is Err && result->Err_0 == e,
                Ok(signature) => {
                    &&& result is Ok
                    &&& ack_in(result->Ok_0) == ack(now, signature, k.commitment)
                    &&& result->Ok_0 is Settle == settles
                    &&& settles ==> submitter::felts(result->Ok_0->prepared) == falcon::prepared(
                        c.key,
                        poly,
                        client::client_message(c, merchant, amount),
                    )
                    &&& settles ==> submitter::lookup_key(
                        c.serial,
                        storage::layout(c.commitment, user, c.expiry_block),
                        submitter::args_word(result->Ok_0->args),
                    ) == word::merge_digest(
                        c.commitment,
                        client::client_message(c, merchant, amount),
                    )
                },
            }),
{
    let r = relayed(d);
    let s = choose|s: Result<Seq<char>, error::Refusal>| #[trigger]
        key::signing_gives(k, ack_digest(now, r), s) && result == acked(
            now,
            r,
            k.commitment,
            s,
            settles,
        );
    assert(key::signing_gives(k, ack_digest(now, r), s));
    account::law_id_round_trip(merchant.prefix, merchant.suffix);
    law_serial_round_trip(c.serial);
    submitter::law_settlement_looks_up_the_message(r, c.commitment, user, c.expiry_block);
    word::lemma_reduced_canonical(c.serial);
}

/// A request that is refused is neither acknowledged nor settled, whatever the key and whether
/// there is a submitter; one that is not refused is acknowledged where signing gives a signature
/// and there is no submitter.
pub proof fn law_acknowledged_unless_refused(
    now: u64,
    r: Request,
    k: key::Keys,
    result: Result<Paid, error::Refusal>,
)
    ensures
        forall|settles: bool|
            refusal(r) is Some && #[trigger] pays(now, r, k, settles, result) ==> result is Err
                && result->Err_0 == refusal(r)->0,
        refusal(r) is None && pays(now, r, k, false, result) ==> exists|
            s: Result<Seq<char>, error::Refusal>,
        | #[trigger]
            key::signing_gives(k, ack_digest(now, r), s) && (match s {
                Ok(signature) => result is Ok && result->Ok_0 == Paid::Acked(
                    ack(now, signature, k.commitment),
                ),
                Err(e) => result is Err && result->Err_0 == e,
            }),
{
    if refusal(r) is None && pays(now, r, k, false, result) {
        let s = choose|s: Result<Seq<char>, error::Refusal>| #[trigger]
            key::signing_gives(k, ack_digest(now, r), s) && result == acked(
                now,
                r,
                k.commitment,
                s,
                false,
            );
        assert(key::signing_gives(k, ack_digest(now, r), s));
    }
}

/// A failed settlement leaves the acknowledgement as it was, and a successful one only adds to it.
pub proof fn law_settlement_keeps_the_ack(
    now: u64,
    signature: Seq<char>,
    commitment: Seq<u64>,
    done: Option<(Seq<char>, u32)>,
)
    ensures
        with_settlement(ack(now, signature, commitment), None) == ack(now, signature, commitment),
        with_settlement(ack(now, signature, commitment), done).accepted_at == now,
        with_settlement(ack(now, signature, commitment), done).ack_signature == signature,
        with_settlement(ack(now, signature, commitment), done).commitment == word::word_hex(
            commitment,
        ),
{
}

/// An accepted request carries a signature that verifies over the debit it asks for, and names
/// the key that made it.
pub proof fn law_accepted_means_signed(r: Request)
    requires
        refusal(r) is None,
        word::canonical(falcon::signer(decoded(r.signature)->Ok_0)->Ok_0),
    ensures
        serial_numbers(r.serial) is Ok,
        account::is_id(r.merchant),
        decoded(r.signature) is Ok,
        r.amount < word::FELT_ORDER,
        falcon::verifies(decoded(r.signature)->Ok_0, request_message(r)),
        falcon::signer(decoded(r.signature)->Ok_0) is Ok,
        word::parsed_word(r.commitment) is Ok,
        word::parsed_word(r.commitment)->Ok_0 == falcon::signer(
            decoded(r.signature)->Ok_0,
        )->Ok_0,
{
    let signer = falcon::signer(decoded(r.signature)->Ok_0)->Ok_0;
    word::law_word_hex_round_trip(signer);
}

/// The merchant that a request names.
pub open spec fn request_merchant(r: Request) -> account::Id {
    account::Id { prefix: account::id_prefix(r.merchant), suffix: account::id_suffix(r.merchant) }
}

/// Two pairs of words that differ and have the same digest.
pub open spec fn collide(a1: Seq<u64>, b1: Seq<u64>, a2: Seq<u64>, b2: Seq<u64>) -> bool {
    (a1 != a2 || b1 != b2) && word::merge_digest(a1, b1) == word::merge_digest(a2, b2)
}

/// The signed message fixes what is accepted: of two accepted requests over the same message, both
/// name the same merchant, amount and serial number, unless the digest of two pairs of words is
/// the same.
pub proof fn law_accepted_debit_is_the_signed_one(r1: Request, r2: Request)
    requires
        refusal(r1) is None,
        refusal(r2) is None,
        request_message(r1) == request_message(r2),
    ensures
        ({
            let s1 = word::reduced(serial_numbers(r1.serial)->Ok_0);
            let s2 = word::reduced(serial_numbers(r2.serial)->Ok_0);
            let d1 = message::debit_word(request_merchant(r1), r1.amount);
            let d2 = message::debit_word(request_merchant(r2), r2.amount);
            collide(s1, d1, s2, d2) || (request_merchant(r1) == request_merchant(r2) && r1.amount
                == r2.amount && s1 == s2)
        }),
{
    let m1 = request_merchant(r1);
    let m2 = request_merchant(r2);
    if message::debit_word(m1, r1.amount) == message::debit_word(m2, r2.amount) {
        message::law_debit_word_binds(m1, r1.amount, m2, r2.amount);
    }
}

/// Where two requests that differ in the amount alone are both accepted, the signature verifies
/// over the digests of two different debits.
pub proof fn law_another_amount_is_a_mismatch(r: Request, amount: u64)
    requires
        refusal(r) is None,
        amount != r.amount,
        refusal(Request { amount, ..r }) is None,
    ensures
        ({
            let serial = word::reduced(serial_numbers(r.serial)->Ok_0);
            let d1 = message::debit_word(request_merchant(r), r.amount);
            let d2 = message::debit_word(request_merchant(r), amount);
            &&& d1 != d2
            &&& falcon::verifies(decoded(r.signature)->Ok_0, word::merge_digest(serial, d1))
            &&& falcon::verifies(decoded(r.signature)->Ok_0, word::merge_digest(serial, d2))
        }),
{
    let m = request_merchant(r);
    if message::debit_word(m, r.amount) == message::debit_word(m, amount) {
        message::law_debit_word_binds(m, r.amount, m, amount);
    }
}

/// Without settlement the prepared signature does not matter: requests that differ in it alone are
/// refused alike, and lead to the same. With settlement, one that is not base 16 is refused where
/// the acknowledgement is signed.
pub proof fn law_prepared_signature_is_for_settlement(
    now: u64,
    r: Request,
    prepared: Seq<char>,
    k: key::Keys,
    result: Result<Paid, error::Refusal>,
)
    ensures
        ({
            let other = Request { prepared, ..r };
            &&& signature_readable(other) == signature_readable(r)
            &&& refusal(other) == refusal(r)
            &&& ack_digest(now, other) == ack_digest(now, r)
            &&& pays(now, other, k, false, result) == pays(now, r, k, false, result)
        }),
        refusal(r) is None && decoded(r.prepared) is Err && pays(now, r, k, true, result)
            ==> result is Err && (result->Err_0 == decoded(r.prepared)->Err_0
            || key::signing_gives(k, ack_digest(now, r), Err(result->Err_0))),
{
    let other = Request { prepared, ..r };
    assert(refusal(other) == refusal(r));
    assert(ack_digest(now, other) == ack_digest(now, r));
    assert forall|s: Result<Seq<char>, error::Refusal>| #[trigger]
        acked(now, other, k.commitment, s, false) == acked(now, r, k.commitment, s, false) by {}
}

proof fn lemma_id_utf8(m: Seq<char>)
    requires
        account::is_id(m),
    ensures
        vstd::utf8::encode_utf8(m).len() == 32,
{
    assert forall|i: int| 0 <= i < m.len() implies '\0' <= #[trigger] m[i] <= '\u{7f}' by {
        if 2 <= i < 18 {
            assert(m.subrange(2, 18)[i - 2] == m[i]);
        } else if i >= 18 {
            assert(m.subrange(18, 32)[i - 18] == m[i]);
        }
    }
    vstd::utf8::is_ascii_chars_encode_utf8(m);
}

/// What an acknowledgement signs the digest of fixes time, note, merchant and amount, for
/// merchants with an account identifier.
pub proof fn law_ack_binds(
    now1: u64,
    note1: Seq<char>,
    merchant1: Seq<char>,
    amount1: u64,
    now2: u64,
    note2: Seq<char>,
    merchant2: Seq<char>,
    amount2: u64,
)
    requires
        account::is_id(merchant1),
        account::is_id(merchant2),
        ack_bytes(now1, note1, merchant1, amount1) == ack_bytes(now2, note2, merchant2, amount2),
    ensures
        now1 == now2,
        note1 == note2,
        merchant1 == merchant2,
        amount1 == amount2,
{
    let b = ack_bytes(now1, note1, merchant1, amount1);
    let n = b.len() as int;
    lemma_id_utf8(merchant1);
    lemma_id_utf8(merchant2);
    bytes::lemma_pow256_8();
    bytes::lemma_be_round_trip(now1 as nat, 8);
    bytes::lemma_be_round_trip(now2 as nat, 8);
    bytes::lemma_be_round_trip(amount1 as nat, 8);
    bytes::lemma_be_round_trip(amount2 as nat, 8);
    assert(b.subrange(0, 8) =~= bytes::be_bytes(now1 as nat, 8));
    assert(b.subrange(0, 8) =~= bytes::be_bytes(now2 as nat, 8));
    assert(b.subrange(n - 8, n) =~= bytes::be_bytes(amount1 as nat, 8));
    assert(b.subrange(n - 8, n) =~= bytes::be_bytes(amount2 as nat, 8));
    assert(b.subrange(n - 40, n - 8) =~= vstd::utf8::encode_utf8(merchant1));
    assert(b.subrange(n - 40, n - 8) =~= vstd::utf8::encode_utf8(merchant2));
    assert(b.subrange(8, n - 40) =~= vstd::utf8::encode_utf8(note1));
    assert(b.subrange(8, n - 40) =~= vstd::utf8::encode_utf8(note2));
    vstd::utf8::encode_utf8_decode_utf8(merchant1);
    vstd::utf8::encode_utf8_decode_utf8(merchant2);
    vstd::utf8::encode_utf8_decode_utf8(note1);
    vstd::utf8::encode_utf8_decode_utf8(note2);
}

/// What is said of a request and of a response, field by field, is said of the texts and numbers
/// that are sent.
pub proof fn law_request_and_response_fields(q: AdnPayRequest, a: AdnPayResponse)
    ensures
        q@.note_id == q.note_id@,
        q@.serial.len() == 4,
        forall|i: int| 0 <= i < 4 ==> #[trigger] q@.serial[i] == q.serial_num_hex@[i]@,
        q@.merchant == q.merchant_account_id@,
        q@.amount == q.amount,
        q@.signature == q.signature_hex@,
        q@.prepared == q.prepared_signature_hex@,
        q@.expiry_block == q.expiry_block_height,
        q@.commitment == q.agent_pubkey_commitment_hex@,
        a@.accepted_at == a.accepted_at_unix_micros,
        a@.ack_signature == a.facilitator_ack_signature@,
        a@.commitment == a.facilitator_pubkey_commitment@,
        a@.block_num == a.block_num,
        a.tx_id is Some <==> a@.tx_id is Some,
        a.tx_id is Some ==> a@.tx_id->0 == a.tx_id->0@,
{
}

/// A relayed debit asks for what the debit says.
pub proof fn law_relayed(d: types::Debit)
    ensures
        relayed(d).note_id == d.note_id,
        relayed(d).serial == d.serial,
        relayed(d).merchant == d.merchant,
        relayed(d).amount == d.amount,
        relayed(d).signature == d.signature,
        relayed(d).prepared == d.prepared,
        relayed(d).expiry_block == d.expiry_block,
        relayed(d).commitment == d.commitment,
{
}

/// Base-16 digits, behind a plus sign or not, are read as the number that they spell, where it is
/// below 2^64; other text is not read, and it is said why.
pub proof fn law_hex_u64(d: Seq<char>, s: Seq<char>)
    requires
        d.len() > 0,
        text::all_hex(d),
    ensures
        text::hex_value(d) <= u64::MAX ==> hex_u64(d) == Some(text::hex_value(d) as u64),
        text::hex_value(d) > u64::MAX ==> hex_u64(d) is None && hex_u64_error(d)
            == "number too large to fit in target type"@,
        hex_u64(seq!['+'] + d) == hex_u64(d),
        hex_u64(Seq::empty()) is None,
        hex_u64_error(Seq::empty()) == "cannot parse integer from empty string"@,
        hex_u64(seq!['+']) is None,
        hex_u64_error(seq!['+']) == "invalid digit found in string"@,
        (exists|i: int| 0 < i < s.len() && text::digit_value(#[trigger] s[i]) is None)
            ==> hex_u64(s) is None,
        s.len() > 0 && s[0] != '+' && text::digit_value(s[0]) is None ==> hex_u64(s) is None,
        s.len() <= 16 && (exists|i: int|
            0 < i < s.len() && text::digit_value(#[trigger] s[i]) is None) ==> hex_u64_error(s)
            == "invalid digit found in string"@,
{
    assert(text::digit_value(d[0]) is Some);
    assert((seq!['+'] + d).skip(1) =~= d);
    assert(seq!['+'].skip(1) =~= Seq::<char>::empty());
    if exists|i: int| 0 < i < s.len() && text::digit_value(#[trigger] s[i]) is None {
        let i = choose|i: int| 0 < i < s.len() && text::digit_value(#[trigger] s[i]) is None;
        if s[0] == '+' {
            assert(s.skip(1)[i - 1] == s[i]);
            assert(!text::all_hex(s.skip(1)));
        } else {
            assert(!text::all_hex(s));
        }
    }
}

/// The number that text `i` of a serial number spells.
#[verifier::opaque]
spec fn spelled(t: Seq<Seq<char>>, i: int) -> Option<u64> {
    hex_u64(text::strip_0x(t[i]))
}

proof fn lemma_serial_from(t: Seq<Seq<char>>, i: int)
    requires
        0 <= i <= t.len(),
    ensures
        match serial_from(t, i) {
            Ok(v) => v.len() == t.len() - i && forall|j: int|
                i <= j < t.len() ==> #[trigger] spelled(t, j) == Some(v[j - i]),
            Err(e) => exists|k: int|
                i <= k < t.len() && #[trigger] spelled(t, k) is None && e == bad_serial(k, t[k])
                    && forall|j: int| i <= j < k ==> #[trigger] spelled(t, j) is Some,
        },
    decreases t.len() - i,
{
    if i < t.len() {
        assert(serial_element(t[i]) == spelled(t, i)) by {
            reveal(spelled);
        }
        lemma_serial_from(t, i + 1);
        if spelled(t, i) is Some {
            match serial_from(t, i + 1) {
                Ok(rest) => {
                    let v = seq![spelled(t, i)->0] + rest;
                    assert(serial_from(t, i)->Ok_0 == v);
                    assert forall|j: int| i <= j < t.len() implies #[trigger] spelled(t, j)
                        == Some(v[j - i]) by {
                        if j > i {
                            assert(v[j - i] == rest[j - i - 1]);
                        }
                    }
                },
                Err(e) => {
                    let k = choose|k: int|
                        i + 1 <= k < t.len() && #[trigger] spelled(t, k) is None && e == bad_serial(
                            k,
                            t[k],
                        ) && forall|j: int| i + 1 <= j < k ==> #[trigger] spelled(t, j) is Some;
                    assert(spelled(t, k) is None);
                },
            }
        }
    }
}

/// The numbers of a serial number are those of its texts, in order and all of them; where texts
/// spell none, the first of those is named by its place, with what is wrong with it.
pub proof fn law_serial_numbers(t: Seq<Seq<char>>)
    ensures
        serial_numbers(t) is Ok <==> forall|i: int|
            0 <= i < t.len() ==> hex_u64(text::strip_0x(#[trigger] t[i])) is Some,
        serial_numbers(t) matches Ok(v) ==> v.len() == t.len() && forall|i: int|
            0 <= i < t.len() ==> hex_u64(text::strip_0x(#[trigger] t[i])) == Some(v[i]),
        serial_numbers(t) matches Err(e) ==> exists|k: int|
            0 <= k < t.len() && hex_u64(text::strip_0x(#[trigger] t[k])) is None && (forall|j: int|
                0 <= j < k ==> hex_u64(text::strip_0x(#[trigger] t[j])) is Some) && e
                == error::Refusal::Malformed(
                "serial_num["@ + text::decimal(k as nat) + "]: "@ + hex_u64_error(
                    text::strip_0x(t[k]),
                ),
            ),
{
    lemma_serial_from(t, 0);
    assert forall|i: int| 0 <= i < t.len() implies spelled(t, i) == hex_u64(
        text::strip_0x(#[trigger] t[i]),
    ) by {
        reveal(spelled);
    }
    match serial_numbers(t) {
        Ok(v) => {
            assert forall|i: int| 0 <= i < t.len() implies hex_u64(text::strip_0x(#[trigger] t[i]))
                == Some(v[i]) by {
                assert(spelled(t, i) == Some(v[i - 0]));
            }
        },
        Err(e) => {
            let k = choose|k: int|
                0 <= k < t.len() && #[trigger] spelled(t, k) is None && e == bad_serial(k, t[k])
                    && forall|j: int| 0 <= j < k ==> #[trigger] spelled(t, j) is Some;
            assert(hex_u64(text::strip_0x(t[k])) is None);
            assert forall|j: int| 0 <= j < k implies hex_u64(
                text::strip_0x(#[trigger] t[j]),
            ) is Some by {
                assert(spelled(t, j) is Some);
            }
        },
    }
}

/// Text gives bytes where it is base 16 behind any number of `0x`, and else is malformed.
pub proof fn law_decoded(s: Seq<char>)
    ensures
        decoded(s) is Ok <==> codec::is_hex(text::strip_0x(s)),
        decoded(s) matches Ok(b) ==> 2 * b.len() == text::strip_0x(s).len() && forall|i: int|
            0 <= i < b.len() ==> #[trigger] b[i] == text::hex_value(
                text::strip_0x(s).subrange(2 * i, 2 * i + 2),
            ),
        decoded(s) matches Err(e) ==> e == error::Refusal::Malformed(
            "hex: "@ + codec::hex_error(text::strip_0x(s)),
        ),
{
    if codec::is_hex(text::strip_0x(s)) {
        codec::law_hex_bytes(text::strip_0x(s));
    }
}

/// A request is accepted if and only if its serial number and merchant can be read, its amount is
/// a field element, its signature decodes, verifies over the digest of serial number and debit,
/// and is by the key whose commitment the request claims, `0x` before it or not.
pub proof fn law_accepted_if_and_only_if(r: Request)
    ensures
        refusal(r) is None <==> {
            let serial = serial_numbers(r.serial)->Ok_0;
            let sig = decoded(r.signature)->Ok_0;
            let suffix = account::id_suffix(r.merchant) as u64;
            let prefix = account::id_prefix(r.merchant) as u64;
            &&& serial_numbers(r.serial) is Ok
            &&& account::is_id(r.merchant)
            &&& r.amount < word::FELT_ORDER
            &&& decoded(r.signature) is Ok
            &&& falcon::signer(sig) is Ok
            &&& falcon::verifies(
                sig,
                word::merge_digest(word::reduced(serial), seq![suffix, prefix, r.amount, 0u64]),
            )
            &&& text::strip_0x(word::word_hex(falcon::signer(sig)->Ok_0)) == text::strip_0x(
                r.commitment,
            )
        },
{
    if account::is_id(r.merchant) && r.amount < word::FELT_ORDER {
        message::law_debit_word(
            word::reduced(serial_numbers(r.serial)->Ok_0),
            request_merchant(r),
            r.amount,
        );
    }
}

/// A request is refused for the first thing that is wrong with it: the serial number, the merchant,
/// the text of the signature, its bytes, what it is a signature of, the key that made it.
pub proof fn law_refused_for_the_first_fault(r: Request)
    ensures
        ({
            let sig = decoded(r.signature)->Ok_0;
            let signer = text::strip_0x(word::word_hex(falcon::signer(sig)->Ok_0));
            let claimed = text::strip_0x(r.commitment);
            let e = refusal(r)->0;
            &&& serial_numbers(r.serial) is Err ==> refusal(r) is Some && e == serial_numbers(
                r.serial,
            )->Err_0
            &&& serial_numbers(r.serial) is Ok && !account::is_id(r.merchant) ==> refusal(
                r,
            ) is Some && e == error::Refusal::Malformed(
                "merchant_account_id: "@ + account::id_error(r.merchant),
            )
            &&& serial_numbers(r.serial) is Ok && account::is_id(r.merchant) ==> {
                &&& decoded(r.signature) is Err ==> refusal(r) is Some && e == decoded(
                    r.signature,
                )->Err_0
                &&& decoded(r.signature) is Ok && falcon::signer(sig) is Err ==> refusal(r) is Some
                    && e == error::Refusal::InvalidSignature(
                    "Falcon decode: "@ + falcon::signer(sig)->Err_0,
                )
                &&& decoded(r.signature) is Ok && falcon::signer(sig) is Ok && (r.amount
                    >= word::FELT_ORDER || !falcon::verifies(sig, request_message(r))) ==> refusal(
                    r,
                ) is Some && e == error::Refusal::InvalidSignature(
                    "Falcon signature failed to verify against debit message"@,
                )
                &&& decoded(r.signature) is Ok && falcon::signer(sig) is Ok && r.amount
                    < word::FELT_ORDER && falcon::verifies(sig, request_message(r)) && signer
                    != claimed ==> refusal(r) is Some && e == error::Refusal::InvalidSignature(
                    "pubkey commitment mismatch: sig has "@ + signer + ", claimed "@ + claimed,
                )
            }
        }),
{
}

/// The bytes that an acknowledgement signs the digest of: the time in the first eight, big-endian,
/// the amount in the last eight, and between them the texts of note and merchant.
pub proof fn law_ack_bytes(now: u64, r: Request)
    ensures
        ({
            let b = ack_bytes(now, r.note_id, r.merchant, r.amount);
            let n = b.len() as int;
            &&& n >= 16
            &&& bytes::be_value(b.subrange(0, 8)) == now
            &&& bytes::be_value(b.subrange(n - 8, n)) == r.amount
            &&& b.subrange(8, n - 8) == vstd::utf8::encode_utf8(r.note_id)
                + vstd::utf8::encode_utf8(r.merchant)
            &&& ack_digest(now, r) == word::bytes_digest(b)
        }),
{
    let b = ack_bytes(now, r.note_id, r.merchant, r.amount);
    let n = b.len() as int;
    bytes::lemma_pow256_8();
    bytes::lemma_be_round_trip(now as nat, 8);
    bytes::lemma_be_round_trip(r.amount as nat, 8);
    assert(b.subrange(0, 8) =~= bytes::be_bytes(now as nat, 8));
    assert(b.subrange(n - 8, n) =~= bytes::be_bytes(r.amount as nat, 8));
    assert(b.subrange(8, n - 8) =~= vstd::utf8::encode_utf8(r.note_id) + vstd::utf8::encode_utf8(
        r.merchant,
    ));
}

/// Four numbers are packed in order, eight big-endian bytes each.
pub proof fn law_pack(v: Seq<u64>)
    requires
        v.len() == 4,
    ensures
        pack(v).len() == 32,
        forall|i: int|
            0 <= i < 4 ==> #[trigger] v[i] == bytes::be_value(pack(v).subrange(8 * i, 8 * i + 8)),
{
    let b = pack(v);
    bytes::lemma_pow256_8();
    bytes::lemma_be_round_trip(v[0] as nat, 8);
    bytes::lemma_be_round_trip(v[1] as nat, 8);
    bytes::lemma_be_round_trip(v[2] as nat, 8);
    bytes::lemma_be_round_trip(v[3] as nat, 8);
    assert(b.subrange(0, 8) =~= bytes::be_bytes(v[0] as nat, 8));
    assert(b.subrange(8, 16) =~= bytes::be_bytes(v[1] as nat, 8));
    assert(b.subrange(16, 24) =~= bytes::be_bytes(v[2] as nat, 8));
    assert(b.subrange(24, 32) =~= bytes::be_bytes(v[3] as nat, 8));
    assert forall|i: int| 0 <= i < 4 implies #[trigger] v[i] == bytes::be_value(
        b.subrange(8 * i, 8 * i + 8),
    ) by {
        assert(i == 0 || i == 1 || i == 2 || i == 3);
    }
}

/// A request is settled with its merchant's suffix and prefix, its amount and zero as arguments,
/// and the script reads just these.
pub proof fn law_settlement_args(r: Request)
    requires
        account::is_id(r.merchant),
        r.amount < word::FELT_ORDER,
    ensures
        ({
            let b = settlement_args(r);
            &&& b.len() == 32
            &&& bytes::be_value(b.subrange(0, 8)) == account::id_suffix(r.merchant)
            &&& bytes::be_value(b.subrange(8, 16)) == account::id_prefix(r.merchant)
            &&& bytes::be_value(b.subrange(16, 24)) == r.amount
            &&& bytes::be_value(b.subrange(24, 32)) == 0
            &&& submitter::args_word(b).len() == 4
            &&& submitter::args_word(b)[0] == account::id_suffix(r.merchant)
            &&& submitter::args_word(b)[1] == account::id_prefix(r.merchant)
            &&& submitter::args_word(b)[2] == r.amount
            &&& submitter::args_word(b)[3] == 0
        }),
{
    let v = seq![
        account::id_suffix(r.merchant) as u64,
        account::id_prefix(r.merchant) as u64,
        r.amount,
        0u64,
    ];
    law_pack(v);
    assert(v[0] == account::id_suffix(r.merchant));
    assert(v[1] == account::id_prefix(r.merchant));
    assert(v[2] == r.amount);
    assert(v[3] == 0);
    submitter::law_note_args_round_trip(v);
}

/// What an accepted request leads to: the error of signing, or an acknowledgement that carries the
/// time, the signature and the facilitator's commitment, and no transaction yet; with settlement,
/// also the arguments and the bytes of the prepared signature, which has to be base 16.
pub proof fn law_acked(
    now: u64,
    r: Request,
    commitment: Seq<u64>,
    signature: Result<Seq<char>, error::Refusal>,
    settles: bool,
)
    requires
        word::canonical(commitment),
    ensures
        ({
            let p = acked(now, r, commitment, signature, settles);
            &&& signature is Err ==> p is Err && p->Err_0 == signature->Err_0
            &&& signature is Ok && settles && decoded(r.prepared) is Err ==> p is Err && p->Err_0
                == decoded(r.prepared)->Err_0
            &&& signature is Ok && (settles ==> decoded(r.prepared) is Ok) ==> {
                let a = ack_in(p->Ok_0);
                &&& p is Ok
                &&& p->Ok_0 is Settle == settles
                &&& a.accepted_at == now
                &&& a.ack_signature == signature->Ok_0
                &&& word::parsed_word(a.commitment) is Ok
                &&& word::parsed_word(a.commitment)->Ok_0 == commitment
                &&& a.commitment == word::word_hex(commitment)
                &&& a.tx_id is None
                &&& a.block_num is None
                &&& settles ==> p->Ok_0->prepared == decoded(r.prepared)->Ok_0
                &&& settles ==> p->Ok_0->args == settlement_args(r)
            }
        }),
        forall|a: Response| #[trigger] ack_in(Paid::Acked(a)) == a,
        forall|a: Response, args: Seq<u8>, prepared: Seq<u8>| #[trigger]
            ack_in(Paid::Settle { ack: a, args, prepared }) == a,
{
    word::law_word_hex_round_trip(commitment);
}

/// The note that is consumed is the one that came with the debit, whatever the prepared signature;
/// without one, the prepared signature stands in for it.
pub proof fn law_note_data(hex: Seq<char>, data: Seq<u8>, prepared: Seq<u8>)
    ensures
        note_data(Some("0x"@ + codec::hex_of(data)), prepared) is Ok,
        note_data(Some("0x"@ + codec::hex_of(data)), prepared)->Ok_0 == data,
        note_data(Some(hex), prepared) == decoded(hex),
        note_data(None, prepared) is Ok,
        note_data(None, prepared)->Ok_0 == prepared,
{
    law_decode_round_trip(data);
}

/// After a successful settlement the response carries just the transaction and block that were
/// reported, after a failed one neither, and in either case the acknowledgement as it was.
pub proof fn law_with_settlement(ack: Response, tx_id: Seq<char>, block_num: u32)
    ensures
        with_settlement(ack, Some((tx_id, block_num))).tx_id == Some(tx_id),
        with_settlement(ack, Some((tx_id, block_num))).block_num == Some(block_num),
        with_settlement(ack, None).tx_id is None,
        with_settlement(ack, None).block_num is None,
        forall|done: Option<(Seq<char>, u32)>|
            (#[trigger] with_settlement(ack, done)).accepted_at == ack.accepted_at
                && with_settlement(ack, done).ack_signature == ack.ack_signature
                && with_settlement(ack, done).commitment == ack.commitment,
{
}

/// What is said of a payment is said of what it carries.
pub proof fn law_payment_fields(
    p: Payment,
    r: Result<Payment, FacilitatorError>,
    s: Result<String, FacilitatorError>,
)
    ensures
        p matches Payment::Acked(a) ==> p@ == Paid::Acked(a@),
        p matches Payment::Settle { ack, note_args, prepared_sig_bytes } ==> p@ == (Paid::Settle {
            ack: ack@,
            args: note_args@,
            prepared: prepared_sig_bytes@,
        }),
        r matches Ok(p) ==> payment(r) is Ok && payment(r)->Ok_0 == p@,
        r matches Err(e) ==> payment(r) is Err && payment(r)->Err_0 == e@,
        s matches Ok(t) ==> key::signing_outcome(s) is Ok && key::signing_outcome(s)->Ok_0 == t@,
        s matches Err(e) ==> key::signing_outcome(s) is Err && key::signing_outcome(s)->Err_0
            == e@,
{
}

/// Only the signature of a request whose serial number, merchant and signature text can be read is
/// put to the decoder, so nothing else of the request decides whether it comes to a result.
pub proof fn law_signature_readable(r: Request)
    ensures
        !signature_readable(r) <==> serial_numbers(r.serial) is Ok && account::is_id(r.merchant)
            && decoded(r.signature) is Ok && !falcon::readable(decoded(r.signature)->Ok_0),
{
}

/// An acknowledgement that is given decodes to a signature under the commitment that it names.
pub proof fn law_ack_is_under_its_commitment(now: u64, r: Request, k: key::Keys, p: Paid)
    requires
        signed_ack(now, r, k, p),
    ensures
        k.secret is Ok,
        ack_signature_bytes(p) is Ok,
        falcon::signer(ack_signature_bytes(p)->Ok_0) is Ok,
        falcon::signer(ack_signature_bytes(p)->Ok_0)->Ok_0 == k.commitment,
        exists|poly: Seq<i16>| #[trigger]
            falcon::gives(
                k.secret->Ok_0,
                word::bytes_digest(ack_bytes(now, r.note_id, r.merchant, r.amount)),
                poly,
            ) && ack_signature_bytes(p)->Ok_0 == falcon::encoded(k.secret->Ok_0, poly),
{
    let secret = k.secret->Ok_0;
    let s = ack_in(p).ack_signature;
    let poly = choose|poly: Seq<i16>| #[trigger]
        falcon::gives(secret, ack_digest(now, r), poly) && falcon::fits(poly) && s
            == key::signature_text(secret, poly);
    law_decode_round_trip(falcon::encoded(secret, poly));
    assert(falcon::gives(secret, ack_digest(now, r), poly));
}

/// The bytes of the signature in an acknowledgement.
pub open spec fn ack_signature_bytes(p: Paid) -> Result<Seq<u8>, error::Refusal> {
    decoded(ack_in(p).ack_signature)
}

} // verus!
