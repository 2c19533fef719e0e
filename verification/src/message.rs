//! The message that authorizes a debit.

use vstd::prelude::*;

use crate::account::AccountId;
use crate::account;
use crate::word;
use crate::word::Word;

verus! {

/// The word for a debit of `amount` to `merchant`: the two elements of the identifier and the
/// amount as a field element.
pub open spec fn debit_word(merchant: account::Id, amount: u64) -> Seq<u64> {
    seq![
        merchant.suffix as u64,
        merchant.prefix as u64,
        (amount as int % word::FELT_ORDER as int) as u64,
        0u64,
    ]
}

/// The message that authorizes a debit of `amount` to `merchant` on the note with this serial
/// number.
pub open spec fn debit_digest(serial: Seq<u64>, merchant: account::Id, amount: u64) -> Seq<u64> {
    word::merge_digest(serial, debit_word(merchant, amount))
}

/// The message that authorizes a debit of `amount` to `merchant` on the note with this serial
/// number.
pub fn debit_message(serial: Word, merchant: AccountId, amount: u64) -> (r: Word)
    ensures
        r@ == debit_digest(serial@, merchant@, amount),
        word::canonical(r@),
        amount < word::FELT_ORDER ==> r@ == word::merge_digest(
            serial@,
            seq![merchant@.suffix as u64, merchant@.prefix as u64, amount, 0u64],
        ),
{
    let suffix: u64 = merchant.suffix();
    let prefix: u64 = merchant.prefix();
    let details = Word::new([suffix, prefix, amount, 0]);
    assert(details@ =~= debit_word(merchant@, amount));
    proof {
        if amount < word::FELT_ORDER {
            law_debit_word(serial@, merchant@, amount);
        }
    }
    word::merge(serial, details)
}

/// The word for a debit fixes the merchant and the amount, for amounts that are field elements.
pub proof fn law_debit_word_binds(m1: account::Id, a1: u64, m2: account::Id, a2: u64)
    requires
        account::valid_id(m1.prefix, m1.suffix),
        account::valid_id(m2.prefix, m2.suffix),
        a1 < word::FELT_ORDER,
        a2 < word::FELT_ORDER,
        debit_word(m1, a1) == debit_word(m2, a2),
    ensures
        m1 == m2,
        a1 == a2,
{
    let d1 = debit_word(m1, a1);
    let d2 = debit_word(m2, a2);
    assert(d1[0] == d2[0] && d1[1] == d2[1] && d1[2] == d2[2]);
}

/// The word of a debit is the suffix and the prefix of the merchant, the amount itself, and zero;
/// the message is the digest of the serial number and this word.
pub proof fn law_debit_word(serial: Seq<u64>, merchant: account::Id, amount: u64)
    requires
        account::valid_id(merchant.prefix, merchant.suffix),
        amount < word::FELT_ORDER,
    ensures
        debit_word(merchant, amount).len() == 4,
        debit_word(merchant, amount)[0] == merchant.suffix,
        debit_word(merchant, amount)[1] == merchant.prefix,
        debit_word(merchant, amount)[2] == amount,
        debit_word(merchant, amount)[3] == 0,
        debit_digest(serial, merchant, amount) == word::merge_digest(
            serial,
            seq![merchant.suffix as u64, merchant.prefix as u64, amount, 0u64],
        ),
{
    assert(debit_word(merchant, amount) =~= seq![
        merchant.suffix as u64,
        merchant.prefix as u64,
        amount,
        0u64,
    ]);
}

/// An amount beyond the order of the field makes the message of what it leaves.
pub proof fn law_amount_beyond_the_order(serial: Seq<u64>, merchant: account::Id, amount: u64)
    requires
        amount >= word::FELT_ORDER,
    ensures
        debit_digest(serial, merchant, amount) == debit_digest(
            serial,
            merchant,
            (amount - word::FELT_ORDER) as u64,
        ),
{
}

} // verus!
