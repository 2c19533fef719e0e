//! The agent's side: signing debits of a pre-funded note.
//!
//! The agent only signs. It proves nothing and talks to the merchant alone.

use vstd::prelude::*;

use crate::account;
use crate::account::AccountId;
use crate::adn;
use crate::bytes;
use crate::clock;
use crate::codec;
use crate::falcon;
use crate::falcon::FalconKey;
use crate::message;
use crate::submitter;
use crate::text;
use crate::types;
use crate::types::{AdnPayTimings, RemainderInfo, SignedDebit};
use crate::word;
use crate::word::Word;

verus! {

/// Why a debit is not signed.
#[derive(Debug)]
pub enum AdnPayError {
    /// The note holds less than the amount.
    InsufficientBalance { requested: u64, available: u64 },
    /// The signature came out too long for its encoding.
    SignatureTooLong,
}

impl AdnPayError {
    /// What the error says.
    pub fn message(&self) -> (r: String)
        ensures
            r@ == (match *self {
                AdnPayError::InsufficientBalance { requested, available } => {
                    "insufficient balance: requested "@ + text::decimal(requested as nat)
                        + ", available "@ + text::decimal(available as nat)
                },
                AdnPayError::SignatureTooLong => "the signature does not fit its encoding"@,
            }),
    {
        match self {
            AdnPayError::InsufficientBalance { requested, available } => {
                let mut r = text::join(
                    "insufficient balance: requested ",
                    text::decimal_text(*requested).as_str(),
                );
                r.append(", available ");
                r.append(text::decimal_text(*available).as_str());
                r
            },
            AdnPayError::SignatureTooLong => "the signature does not fit its encoding".to_owned(),
        }
    }
}

/// The agent's client for one note.
pub struct AdnClient {
    agent_sk: FalconKey,
    note_id: String,
    note_serial: Word,
    balance: u64,
    expiry_block: u32,
    agent_pubkey_commitment: Word,
    note_data_hex: Option<String>,
}

/// What an [`AdnClient`] knows.
#[verifier::ext_equal]
pub struct Client {
    pub key: Seq<u8>,
    pub note_id: Seq<char>,
    pub serial: Seq<u64>,
    pub balance: u64,
    pub expiry_block: u32,
    pub commitment: Seq<u64>,
    pub note_data: Option<Seq<char>>,
}

impl View for AdnClient {
    type V = Client;

    closed spec fn view(&self) -> Client {
        Client {
            key: self.agent_sk@,
            note_id: self.note_id@,
            serial: self.note_serial@,
            balance: self.balance,
            expiry_block: self.expiry_block,
            commitment: self.agent_pubkey_commitment@,
            note_data: types::text_of(self.note_data_hex),
        }
    }
}

/// The four elements of a word as texts of sixteen digits behind `0x`.
pub open spec fn element_texts(w: Seq<u64>) -> Seq<Seq<char>> {
    Seq::new(4, |i: int| "0x"@ + text::hex_digits(w[i] as nat, 16))
}

/// The little-endian bytes of field elements, eight to an element.
pub open spec fn elements_bytes(v: Seq<u64>) -> Seq<u8>
    decreases v.len(),
{
    if v.len() == 0 {
        Seq::empty()
    } else {
        elements_bytes(v.drop_last()) + bytes::le_bytes(v.last() as nat, 8)
    }
}

/// The message that the client signs for a debit.
pub open spec fn client_message(c: Client, merchant: account::Id, amount: u64) -> Seq<u64> {
    message::debit_digest(c.serial, merchant, amount)
}

/// The debit that the client signs, with the signature that has this polynomial.
pub open spec fn signed(
    c: Client,
    merchant: account::Id,
    amount: u64,
    poly: Seq<i16>,
) -> types::Debit {
    let msg = client_message(c, merchant, amount);
    types::Debit {
        note_id: c.note_id,
        serial: element_texts(c.serial),
        merchant: account::id_hex(merchant.prefix, merchant.suffix),
        amount,
        signature: "0x"@ + codec::hex_of(falcon::encoded(c.key, poly)),
        prepared: "0x"@ + codec::hex_of(elements_bytes(falcon::prepared(c.key, poly, msg))),
        expiry_block: c.expiry_block,
        commitment: word::word_hex(c.commitment),
        note_data: c.note_data,
    }
}

/// The signature of the debit that has this polynomial verifies. Signing and verifying compare
/// the length of a signature with the same bound, but one in floating point and the other,
/// strictly, in integers.
pub open spec fn signature_verifies(
    c: Client,
    merchant: account::Id,
    amount: u64,
    poly: Seq<i16>,
) -> bool {
    falcon::verifies(falcon::encoded(c.key, poly), client_message(c, merchant, amount))
}

/// What holds of a debit that the client signed: it is the one asked for, its prepared signature
/// decodes to the elements of its signature, and the facilitator, when it is relayed, refuses it
/// only where the signature does not verify, or the amount is no field element.
pub open spec fn is_signed(
    c: Client,
    merchant: account::Id,
    amount: u64,
    poly: Seq<i16>,
    d: types::Debit,
) -> bool {
    let elements = falcon::prepared(c.key, poly, client_message(c, merchant, amount));
    &&& d == signed(c, merchant, amount, poly)
    &&& forall|i: int| 0 <= i < elements.len() ==> #[trigger] elements[i] < word::FELT_ORDER
    &&& adn::decoded(d.prepared) is Ok
    &&& submitter::felts(adn::decoded(d.prepared)->Ok_0) == elements
    &&& adn::signature_readable(adn::relayed(d))
    &&& adn::refusal(adn::relayed(d)) == (if amount < word::FELT_ORDER
        && signature_verifies(c, merchant, amount, poly) {
        None
    } else {
        Some(adn::not_verified())
    })
}

/// The client after the note's remainder took its place: identifier and balance are those of the
/// remainder, and so is the serial number, unless its texts spell none.
pub open spec fn with_remainder(
    c: Client,
    note_id: Seq<char>,
    serial: Seq<Seq<char>>,
    balance: u64,
) -> Client {
    Client {
        note_id,
        serial: match adn::serial_numbers(serial) {
            Ok(numbers) => word::reduced(numbers),
            Err(_) => c.serial,
        },
        balance,
        ..c
    }
}

fn copy_text(s: &Option<String>) -> (r: Option<String>)
    ensures
        types::text_of(r) == types::text_of(*s),
{
    match s {
        Some(t) => Some(t.clone()),
        None => None,
    }
}

/// The four elements of a word as texts of sixteen digits behind `0x`.
pub fn word_to_hex_array(w: Word) -> (r: [String; 4])
    ensures
        types::texts(r) == element_texts(w@),
        word::canonical(w@),
{
    let e = w.elements();
    let r = [
        text::join("0x", text::hex16(e[0]).as_str()),
        text::join("0x", text::hex16(e[1]).as_str()),
        text::join("0x", text::hex16(e[2]).as_str()),
        text::join("0x", text::hex16(e[3]).as_str()),
    ];
    assert(types::texts(r) =~= element_texts(w@));
    r
}

/// The little-endian bytes of field elements, eight to an element.
pub fn elements_to_bytes(v: &[u64]) -> (r: Vec<u8>)
    ensures
        r@ == elements_bytes(v@),
{
    let mut r: Vec<u8> = Vec::new();
    let mut i: usize = 0;
    assert(v@.take(0) =~= Seq::<u64>::empty());
    while i < v.len()
        invariant
            i <= v@.len(),
            r@ == elements_bytes(v@.take(i as int)),
        decreases v@.len() - i,
    {
        bytes::push_le_u64(&mut r, v[i]);
        assert(v@.take(i + 1).drop_last() =~= v@.take(i as int));
        i = i + 1;
    }
    assert(v@.take(i as int) =~= v@);
    r
}

impl AdnClient {
    #[verifier::type_invariant]
    spec fn inv(self) -> bool {
        self.agent_pubkey_commitment@ == falcon::key_commitment(self.agent_sk@)
    }

    /// A client for the note with this identifier, serial number, balance and expiry.
    pub fn new(
        agent_sk: FalconKey,
        note_id: String,
        note_serial: Word,
        balance: u64,
        expiry_block: u32,
    ) -> (r: Self)
        ensures
            r@ == (Client {
                key: agent_sk@,
                note_id: note_id@,
                serial: note_serial@,
                balance,
                expiry_block,
                commitment: falcon::key_commitment(agent_sk@),
                note_data: None,
            }),
    {
        let agent_pubkey_commitment = agent_sk.commitment();
        AdnClient {
            agent_sk,
            note_id,
            note_serial,
            balance,
            expiry_block,
            agent_pubkey_commitment,
            note_data_hex: None,
        }
    }

    /// Sets the serialized note, which signed debits carry from then on.
    pub fn set_note_data_hex(&mut self, hex: String)
        ensures
            final(self)@ == (Client { note_data: Some(hex@), ..old(self)@ }),
    {
        proof {
            use_type_invariant(&*self);
        }
        self.note_data_hex = Some(hex);
    }

    /// Identifier of the note.
    pub fn note_id(&self) -> (r: &str)
        ensures
            r@ == self@.note_id,
    {
        self.note_id.as_str()
    }

    /// What the note holds.
    pub fn balance(&self) -> (r: u64)
        ensures
            r == self@.balance,
    {
        self.balance
    }

    /// The debit of `amount` to `merchant` with the signature that has this polynomial. It refuses
    /// an amount above the balance, and a signature that does not fit.
    pub fn complete_debit(&self, merchant: AccountId, amount: u64, poly: &Vec<i16>) -> (r: Result<
        SignedDebit,
        AdnPayError,
    >)
        requires
            falcon::valid_poly(poly@),
        ensures
            match r {
                Ok(debit) => {
                    &&& amount <= self@.balance
                    &&& falcon::fits(poly@)
                    &&& is_signed(self@, merchant@, amount, poly@, debit@)
                },
                Err(AdnPayError::InsufficientBalance { requested, available }) => {
                    &&& amount > self@.balance
                    &&& requested == amount
                    &&& available == self@.balance
                },
                Err(AdnPayError::SignatureTooLong) => {
                    &&& amount <= self@.balance
                    &&& !falcon::fits(poly@)
                },
            },
    {
        proof {
            use_type_invariant(self);
        }
        if amount > self.balance {
            return Err(
                AdnPayError::InsufficientBalance { requested: amount, available: self.balance },
            );
        }
        let sig = match self.agent_sk.encode(poly) {
            Some(sig) => sig,
            None => {
                return Err(AdnPayError::SignatureTooLong);
            },
        };
        let msg = message::debit_message(self.note_serial, merchant, amount);
        let prepared = self.agent_sk.prepare(poly, msg);
        let prepared_bytes = elements_to_bytes(prepared.as_slice());
        let debit = SignedDebit {
            note_id: self.note_id.clone(),
            serial_num_hex: word_to_hex_array(self.note_serial),
            merchant_account_id: merchant.to_hex(),
            amount,
            signature_hex: text::join("0x", codec::hex_encode(sig.as_slice()).as_str()),
            prepared_signature_hex: text::join(
                "0x",
                codec::hex_encode(prepared_bytes.as_slice()).as_str(),
            ),
            expiry_block_height: self.expiry_block,
            agent_pubkey_commitment_hex: word::word_to_hex(self.agent_pubkey_commitment),
            note_data_hex: copy_text(&self.note_data_hex),
        };
        proof {
            adn::lemma_signed_debit(self@, merchant@, amount, poly@);
        }
        Ok(debit)
    }

    /// Signs a debit of `amount` to `merchant`. It refuses an amount above the balance. The
    /// balance stays as it is until the settlement is reported.
    ///
    /// The times are readings of the clock.
    pub fn sign_debit(&self, merchant: AccountId, amount: u64) -> (r: Result<
        (SignedDebit, AdnPayTimings),
        AdnPayError,
    >)
        ensures
            match r {
                Ok((debit, timings)) => {
                    &&& amount <= self@.balance
                    &&& exists|poly: Seq<i16>| #[trigger]
                        falcon::gives(
                            self@.key,
                            client_message(self@, merchant@, amount),
                            poly,
                        ) && falcon::fits(poly) && is_signed(
                            self@,
                            merchant@,
                            amount,
                            poly,
                            debit@,
                        )
                    &&& timings.t_send_facilitator == 0
                    &&& timings.t_ack_received == 0
                },
                Err(AdnPayError::InsufficientBalance { requested, available }) => {
                    &&& amount > self@.balance
                    &&& requested == amount
                    &&& available == self@.balance
                },
                Err(AdnPayError::SignatureTooLong) => {
                    &&& amount <= self@.balance
                    &&& exists|poly: Seq<i16>| #[trigger]
                        falcon::gives(
                            self@.key,
                            client_message(self@, merchant@, amount),
                            poly,
                        ) && !falcon::fits(poly)
                },
            },
    {
        let t_pay_start: u64 = clock::now_micros();
        if amount > self.balance {
            return Err(
                AdnPayError::InsufficientBalance { requested: amount, available: self.balance },
            );
        }
        let t_sign_start: u64 = clock::now_micros();
        let msg = message::debit_message(self.note_serial, merchant, amount);
        let poly = self.agent_sk.sign(msg);
        assert(falcon::gives(self@.key, client_message(self@, merchant@, amount), poly@));
        let completed = self.complete_debit(merchant, amount, &poly);
        let t_sign_end: u64 = clock::now_micros();
        match completed {
            Ok(debit) => Ok((debit, AdnPayTimings::signed(t_pay_start, t_sign_start, t_sign_end))),
            Err(e) => Err(e),
        }
    }

    /// Takes over identifier, serial number and balance of the note that a settlement left. Where
    /// the texts of its serial number spell none, the old serial number stays.
    pub fn update_remainder(&mut self, remainder: &RemainderInfo)
        ensures
            final(self)@ == with_remainder(
                old(self)@,
                remainder.note_id@,
                types::texts(remainder.serial_num_hex),
                remainder.balance,
            ),
    {
        proof {
            use_type_invariant(&*self);
        }
        self.note_id = remainder.note_id.clone();
        match adn::parse_serial_hex(&remainder.serial_num_hex) {
            Ok(serial) => {
                self.note_serial = serial;
            },
            Err(_) => {},
        }
        self.balance = remainder.balance;
    }
}

/// After an update with a remainder whose serial number is `w`, a debit that the client signs
/// names the remainder, carries its serial number, and is over the message of that serial number.
pub proof fn law_remainder_is_debited_next(
    c: Client,
    note_id: Seq<char>,
    w: Seq<u64>,
    balance: u64,
    merchant: account::Id,
    amount: u64,
    poly: Seq<i16>,
)
    requires
        word::canonical(w),
    ensures
        ({
            let next = with_remainder(c, note_id, element_texts(w), balance);
            let debit = signed(next, merchant, amount, poly);
            &&& next.serial == w
            &&& next.balance == balance
            &&& debit.note_id == note_id
            &&& debit.serial == element_texts(w)
            &&& client_message(next, merchant, amount) == message::debit_digest(w, merchant, amount)
        }),
{
    adn::law_serial_round_trip(w);
}

/// Each element of a word is written as `0x` and sixteen lower-case digits that spell it.
pub proof fn law_element_texts(w: Seq<u64>)
    requires
        w.len() == 4,
    ensures
        element_texts(w).len() == 4,
        forall|i: int|
            0 <= i < 4 ==> {
                let t = #[trigger] element_texts(w)[i];
                &&& t.len() == 18
                &&& t[0] == '0' && t[1] == 'x'
                &&& text::hex_value(t.skip(2)) == w[i]
                &&& forall|j: int|
                    2 <= j < 18 ==> '0' <= #[trigger] t[j] <= '9' || 'a' <= t[j] <= 'f'
            },
{
    reveal_strlit("0x");
    assert forall|i: int| 0 <= i < 4 implies {
        let t = #[trigger] element_texts(w)[i];
        &&& t.len() == 18
        &&& t[0] == '0' && t[1] == 'x'
        &&& text::hex_value(t.skip(2)) == w[i]
        &&& forall|j: int| 2 <= j < 18 ==> '0' <= #[trigger] t[j] <= '9' || 'a' <= t[j] <= 'f'
    } by {
        let t = element_texts(w)[i];
        let d = text::hex_digits(w[i] as nat, 16);
        text::lemma_pow16_16();
        text::lemma_pow16_is_power(16);
        text::law_hex_digits_spell(w[i] as nat, 16);
        assert(t.skip(2) =~= d);
        assert forall|j: int| 2 <= j < 18 implies '0' <= #[trigger] t[j] <= '9' || 'a' <= t[j]
            <= 'f' by {
            assert(t[j] == d[j - 2]);
        }
    }
}

/// Field elements are written in order, eight bytes each, the least significant first.
pub proof fn law_elements_bytes(v: Seq<u64>)
    ensures
        elements_bytes(v).len() == 8 * v.len(),
        forall|i: int|
            0 <= i < v.len() ==> #[trigger] v[i] == bytes::be_value(
                elements_bytes(v).subrange(8 * i, 8 * i + 8).reverse(),
            ),
{
    submitter::lemma_elements_len(v);
    assert forall|i: int| 0 <= i < v.len() implies #[trigger] v[i] == bytes::be_value(
        elements_bytes(v).subrange(8 * i, 8 * i + 8).reverse(),
    ) by {
        submitter::lemma_elements_bytes(v, i);
        bytes::lemma_pow256_8();
        bytes::lemma_le_round_trip(v[i] as nat, 8);
        bytes::law_le_value_is_be_value_turned_round(bytes::le_bytes(v[i] as nat, 8));
    }
}

/// A signed debit names the client's note, the merchant and the amount asked for; its texts decode
/// to the note's serial number, the signature, the elements of the prepared signature over the
/// message of the debit, and the commitment to the client's key.
pub proof fn law_signed_debit_says(
    c: Client,
    merchant: account::Id,
    amount: u64,
    poly: Seq<i16>,
)
    requires
        word::canonical(c.serial),
        word::canonical(c.commitment),
        account::valid_id(merchant.prefix, merchant.suffix),
    ensures
        ({
            let d = signed(c, merchant, amount, poly);
            let msg = client_message(c, merchant, amount);
            let elements = falcon::prepared(c.key, poly, msg);
            let prepared = adn::decoded(d.prepared)->Ok_0;
            &&& d.note_id == c.note_id
            &&& d.amount == amount
            &&& d.expiry_block == c.expiry_block
            &&& d.note_data == c.note_data
            &&& account::is_id(d.merchant)
            &&& account::id_prefix(d.merchant) == merchant.prefix
            &&& account::id_suffix(d.merchant) == merchant.suffix
            &&& adn::serial_numbers(d.serial) is Ok
            &&& adn::serial_numbers(d.serial)->Ok_0 == c.serial
            &&& adn::decoded(d.signature) is Ok
            &&& adn::decoded(d.signature)->Ok_0 == falcon::encoded(c.key, poly)
            &&& adn::decoded(d.prepared) is Ok
            &&& prepared.len() == 8 * elements.len()
            &&& forall|i: int|
                0 <= i < elements.len() ==> #[trigger] elements[i] == bytes::be_value(
                    prepared.subrange(8 * i, 8 * i + 8).reverse(),
                )
            &&& word::parsed_word(d.commitment) is Ok
            &&& word::parsed_word(d.commitment)->Ok_0 == c.commitment
            &&& d.serial == element_texts(c.serial)
            &&& d.merchant == account::id_hex(merchant.prefix, merchant.suffix)
            &&& d.signature == "0x"@ + codec::hex_of(falcon::encoded(c.key, poly))
            &&& d.prepared == "0x"@ + codec::hex_of(prepared)
            &&& d.commitment == word::word_hex(c.commitment)
        }),
{
    let msg = client_message(c, merchant, amount);
    account::law_id_round_trip(merchant.prefix, merchant.suffix);
    adn::law_serial_round_trip(c.serial);
    adn::law_decode_round_trip(falcon::encoded(c.key, poly));
    adn::law_decode_round_trip(elements_bytes(falcon::prepared(c.key, poly, msg)));
    law_elements_bytes(falcon::prepared(c.key, poly, msg));
    word::law_word_hex_round_trip(c.commitment);
}

/// A remainder changes identifier and balance to its own, and the serial number where its texts
/// spell one; everything else of the client stays.
pub proof fn law_remainder(c: Client, note_id: Seq<char>, serial: Seq<Seq<char>>, balance: u64)
    ensures
        ({
            let next = with_remainder(c, note_id, serial, balance);
            &&& next.note_id == note_id
            &&& next.balance == balance
            &&& next.key == c.key
            &&& next.expiry_block == c.expiry_block
            &&& next.commitment == c.commitment
            &&& next.note_data == c.note_data
            &&& adn::serial_numbers(serial) is Err ==> next.serial == c.serial
            &&& adn::serial_numbers(serial) matches Ok(v) ==> {
                &&& next.serial.len() == v.len()
                &&& forall|i: int|
                    0 <= i < v.len() ==> #[trigger] next.serial[i] == v[i] as int
                        % 0xffff_ffff_0000_0001
            }
        }),
{
}

/// A client signs the digest of its note's serial number and the word of the debit.
pub proof fn law_client_message(c: Client, merchant: account::Id, amount: u64)
    requires
        account::valid_id(merchant.prefix, merchant.suffix),
    ensures
        ({
            let felt = (amount as int % 0xffff_ffff_0000_0001) as u64;
            client_message(c, merchant, amount) == word::merge_digest(
                c.serial,
                seq![merchant.suffix as u64, merchant.prefix as u64, felt, 0u64],
            )
        }),
{
    let felt = (amount as int % 0xffff_ffff_0000_0001) as u64;
    message::law_debit_word(c.serial, merchant, felt);
    if amount >= word::FELT_ORDER {
        message::law_amount_beyond_the_order(c.serial, merchant, amount);
    }
}

} // verus!
