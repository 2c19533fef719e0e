//! Account identifiers.

use vstd::prelude::*;

use crate::text;
use crate::word;

verus! {

/// The two elements of an account identifier: a prefix with version bits 0 and a storage mode
/// that exists, and a suffix whose highest bit and lowest byte are zero.
pub open spec fn valid_id(prefix: nat, suffix: nat) -> bool {
    &&& prefix < word::FELT_ORDER
    &&& prefix % 16 == 0
    &&& prefix / 64 % 4 != 3
    &&& suffix < 0x8000_0000_0000_0000
    &&& suffix % 256 == 0
}

/// The text of an identifier: `0x`, the sixteen digits of the prefix, and the digits of the
/// suffix without its last byte.
pub open spec fn id_hex(prefix: nat, suffix: nat) -> Seq<char> {
    "0x"@ + text::hex_digits(prefix, 16) + text::hex_digits(suffix / 256, 14)
}

/// The prefix in the text of an identifier.
pub open spec fn id_prefix(s: Seq<char>) -> nat {
    text::hex_value(s.subrange(2, 18))
}

/// The suffix in the text of an identifier.
pub open spec fn id_suffix(s: Seq<char>) -> nat {
    text::hex_value(s.subrange(18, 32)) * 256
}

/// Text of an account identifier.
pub open spec fn is_id(s: Seq<char>) -> bool {
    &&& s.len() == 32
    &&& s[0] == '0' && s[1] == 'x'
    &&& text::all_hex(s.subrange(2, 18))
    &&& text::all_hex(s.subrange(18, 32))
    &&& valid_id(id_prefix(s), id_suffix(s))
}

/// What `AccountIdError` says of text that is no account identifier.
pub uninterp spec fn id_error(s: Seq<char>) -> Seq<char>;

/// The identifier of an account.
#[derive(Clone, Copy, Debug)]
pub struct AccountId {
    prefix: u64,
    suffix: u64,
}

/// The elements of an [`AccountId`].
pub struct Id {
    pub prefix: nat,
    pub suffix: nat,
}

impl View for AccountId {
    type V = Id;

    closed spec fn view(&self) -> Id {
        Id { prefix: self.prefix as nat, suffix: self.suffix as nat }
    }
}

/// `AccountId::from_hex` of miden-protocol: takes `0x` and thirty digits of either case, the
/// prefix and the seven high bytes of the suffix, and checks both. What its error says is a
/// function of the text.
#[verifier::external_body]
fn parse_id(s: &str) -> (r: Result<(u64, u64), String>)
    ensures
        match r {
            Ok((prefix, suffix)) => is_id(s@) && prefix == id_prefix(s@) && suffix == id_suffix(s@),
            Err(e) => !is_id(s@) && e@ == id_error(s@),
        },
{
    match miden_protocol::account::AccountId::from_hex(s) {
        Ok(id) => Ok((id.prefix().as_u64(), id.suffix().as_canonical_u64())),
        Err(e) => Err(e.to_string()),
    }
}

/// `AccountId::to_hex` of miden-protocol, on the elements of a valid identifier.
#[verifier::external_body]
fn print_id(prefix: u64, suffix: u64) -> (r: String)
    requires
        valid_id(prefix as nat, suffix as nat),
    ensures
        r@ == id_hex(prefix as nat, suffix as nat),
{
    let felts = [miden_protocol::Felt::new(prefix), miden_protocol::Felt::new(suffix)];
    miden_protocol::account::AccountId::new_unchecked(felts).to_hex()
}

impl AccountId {
    #[verifier::type_invariant]
    spec fn inv(self) -> bool {
        valid_id(self.prefix as nat, self.suffix as nat)
    }

    /// Reads an identifier from its text.
    pub fn from_hex(s: &str) -> (r: Result<Self, String>)
        ensures
            match r {
                Ok(id) => is_id(s@) && id@ == (Id { prefix: id_prefix(s@), suffix: id_suffix(s@) }),
                Err(e) => !is_id(s@) && e@ == id_error(s@),
            },
    {
        match parse_id(s) {
            Ok((prefix, suffix)) => Ok(AccountId { prefix, suffix }),
            Err(e) => Err(e),
        }
    }

    /// The text of the identifier.
    pub fn to_hex(&self) -> (r: String)
        ensures
            r@ == id_hex(self@.prefix, self@.suffix),
            valid_id(self@.prefix, self@.suffix),
    {
        proof {
            use_type_invariant(self);
        }
        print_id(self.prefix, self.suffix)
    }

    /// The first element.
    pub fn prefix(&self) -> (r: u64)
        ensures
            r == self@.prefix,
            valid_id(self@.prefix, self@.suffix),
    {
        proof {
            use_type_invariant(self);
        }
        self.prefix
    }

    /// The second element.
    pub fn suffix(&self) -> (r: u64)
        ensures
            r == self@.suffix,
            valid_id(self@.prefix, self@.suffix),
    {
        proof {
            use_type_invariant(self);
        }
        self.suffix
    }
}

/// The text of an identifier gives the identifier back.
pub proof fn law_id_round_trip(prefix: nat, suffix: nat)
    requires
        valid_id(prefix, suffix),
    ensures
        is_id(id_hex(prefix, suffix)),
        id_prefix(id_hex(prefix, suffix)) == prefix,
        id_suffix(id_hex(prefix, suffix)) == suffix,
{
    reveal_strlit("0x");
    let s = id_hex(prefix, suffix);
    text::lemma_pow16_16();
    assert(text::pow16(14) == 0x100_0000_0000_0000) by {
        reveal_with_fuel(text::pow16, 15);
    }
    text::lemma_hex_round_trip(prefix, 16);
    text::lemma_hex_round_trip(suffix / 256, 14);
    assert(s.subrange(2, 18) =~= text::hex_digits(prefix, 16));
    assert(s.subrange(18, 32) =~= text::hex_digits(suffix / 256, 14));
}

/// The text of an identifier is `0x`, sixteen digits that spell the prefix, and fourteen that
/// spell the suffix without its last byte, which is zero; nothing but such text is one.
pub proof fn law_id_text(p: Seq<char>, q: Seq<char>, s: Seq<char>)
    requires
        p.len() == 16,
        q.len() == 14,
        text::all_hex(p),
        text::all_hex(q),
    ensures
        id_prefix("0x"@ + p + q) == text::hex_value(p),
        id_suffix("0x"@ + p + q) == 256 * text::hex_value(q),
        is_id("0x"@ + p + q) <==> valid_id(text::hex_value(p), 256 * text::hex_value(q)),
        is_id(s) ==> s.len() == 32 && s[0] == '0' && s[1] == 'x' && text::all_hex(s.skip(2)),
{
    reveal_strlit("0x");
    let t = "0x"@ + p + q;
    assert(t.subrange(2, 18) =~= p);
    assert(t.subrange(18, 32) =~= q);
    if is_id(s) {
        assert forall|i: int| 0 <= i < s.skip(2).len() implies text::digit_value(
            #[trigger] s.skip(2)[i],
        ) is Some by {
            if i < 16 {
                assert(s.skip(2)[i] == s.subrange(2, 18)[i]);
            } else {
                assert(s.skip(2)[i] == s.subrange(18, 32)[i - 16]);
            }
        }
    }
}

/// Identifiers that differ have texts that differ.
pub proof fn law_id_text_binds(a: Id, b: Id)
    requires
        valid_id(a.prefix, a.suffix),
        valid_id(b.prefix, b.suffix),
        id_hex(a.prefix, a.suffix) == id_hex(b.prefix, b.suffix),
    ensures
        a == b,
{
    law_id_round_trip(a.prefix, a.suffix);
    law_id_round_trip(b.prefix, b.suffix);
}

} // verus!
