//! What agent, merchant and facilitator send each other.

use vstd::prelude::*;

verus! {

/// Agent to facilitator: a signed debit of the agent's note.
#[derive(Debug, Clone)]
pub struct SignedDebit {
    /// Identifier of the note.
    pub note_id: String,
    /// Serial number of the note, four elements in base 16.
    pub serial_num_hex: [String; 4],
    /// Account identifier of the merchant.
    pub merchant_account_id: String,
    /// Amount to debit.
    pub amount: u64,
    /// Bytes of the Falcon signature of the debit's message, in base 16.
    pub signature_hex: String,
    /// Prepared form of the signature, in base 16.
    pub prepared_signature_hex: String,
    /// Block at which the note expires.
    pub expiry_block_height: u32,
    /// Commitment to the agent's public key, in base 16.
    pub agent_pubkey_commitment_hex: String,
    /// The note itself, in base 16, where the facilitator needs it.
    pub note_data_hex: Option<String>,
}

/// A [`SignedDebit`] with its texts as sequences.
#[verifier::ext_equal]
pub struct Debit {
    pub note_id: Seq<char>,
    pub serial: Seq<Seq<char>>,
    pub merchant: Seq<char>,
    pub amount: u64,
    pub signature: Seq<char>,
    pub prepared: Seq<char>,
    pub expiry_block: u32,
    pub commitment: Seq<char>,
    pub note_data: Option<Seq<char>>,
}

/// The texts of four strings.
pub open spec fn texts(a: [String; 4]) -> Seq<Seq<char>> {
    Seq::new(4, |i: int| a@[i]@)
}

/// The text of a string that may be absent.
pub open spec fn text_of(a: Option<String>) -> Option<Seq<char>> {
    match a {
        Some(s) => Some(s@),
        None => None,
    }
}

impl View for SignedDebit {
    type V = Debit;

    open spec fn view(&self) -> Debit {
        Debit {
            note_id: self.note_id@,
            serial: texts(self.serial_num_hex),
            merchant: self.merchant_account_id@,
            amount: self.amount,
            signature: self.signature_hex@,
            prepared: self.prepared_signature_hex@,
            expiry_block: self.expiry_block_height,
            commitment: self.agent_pubkey_commitment_hex@,
            note_data: text_of(self.note_data_hex),
        }
    }
}

/// Facilitator to agent: the debit is accepted, and will be settled.
#[derive(Debug, Clone)]
pub struct PayAck {
    /// When it was accepted, in microseconds since the Unix epoch.
    pub accepted_at_unix_micros: u64,
    /// The facilitator's signature over time, note, merchant and amount.
    pub facilitator_ack_signature: String,
    /// Commitment to the facilitator's public key.
    pub facilitator_pubkey_commitment: String,
}

/// Facilitator to agent, after settlement: the note that is left.
#[derive(Debug, Clone)]
pub struct RemainderInfo {
    /// Identifier of the new note.
    pub note_id: String,
    /// Serial number of the new note, four elements in base 16.
    pub serial_num_hex: [String; 4],
    /// Balance that is left.
    pub balance: u64,
    /// Transaction that consumed the old note.
    pub tx_id: String,
    /// Block that holds the transaction.
    pub block_num: u32,
}

/// Times of one payment, in microseconds since the Unix epoch; 0 where not reached.
#[derive(Debug, Clone)]
pub struct AdnPayTimings {
    pub t_pay_start: u64,
    pub t_sign_start: u64,
    pub t_sign_end: u64,
    pub t_send_facilitator: u64,
    pub t_ack_received: u64,
}

impl Default for AdnPayTimings {
    fn default() -> (r: Self)
        ensures
            r.t_pay_start == 0,
            r.t_sign_start == 0,
            r.t_sign_end == 0,
            r.t_send_facilitator == 0,
            r.t_ack_received == 0,
    {
        AdnPayTimings {
            t_pay_start: 0,
            t_sign_start: 0,
            t_sign_end: 0,
            t_send_facilitator: 0,
            t_ack_received: 0,
        }
    }
}

impl AdnPayTimings {
    /// The times of a payment that has been signed and not yet sent: when it began, and when its
    /// signing began and ended.
    pub fn signed(t_pay_start: u64, t_sign_start: u64, t_sign_end: u64) -> (r: Self)
        ensures
            r == (AdnPayTimings {
                t_pay_start,
                t_sign_start,
                t_sign_end,
                t_send_facilitator: 0,
                t_ack_received: 0,
            }),
    {
        let mut r: AdnPayTimings = Default::default();
        r.t_pay_start = t_pay_start;
        r.t_sign_start = t_sign_start;
        r.t_sign_end = t_sign_end;
        r
    }
}

/// What is said of a debit, field by field, is said of the texts and numbers that are sent.
pub proof fn law_debit_fields(d: SignedDebit)
    ensures
        d@.note_id == d.note_id@,
        d@.serial.len() == 4,
        forall|i: int| 0 <= i < 4 ==> #[trigger] d@.serial[i] == d.serial_num_hex@[i]@,
        d@.merchant == d.merchant_account_id@,
        d@.amount == d.amount,
        d@.signature == d.signature_hex@,
        d@.prepared == d.prepared_signature_hex@,
        d@.expiry_block == d.expiry_block_height,
        d@.commitment == d.agent_pubkey_commitment_hex@,
        d.note_data_hex is Some <==> d@.note_data is Some,
        d.note_data_hex is Some ==> d@.note_data->0 == d.note_data_hex->0@,
{
}

} // verus!
