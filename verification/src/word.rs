//! Words of four field elements, their text and their hashes.

use vstd::prelude::*;

use crate::bytes;
use crate::codec;
use crate::error;
use crate::error::FacilitatorError;
use crate::text;

verus! {

/// The order of the field: 2^64 - 2^32 + 1.
pub const FELT_ORDER: u64 = 0xffff_ffff_0000_0001;

/// Four field elements, each in its canonical form.
pub open spec fn canonical(w: Seq<u64>) -> bool {
    w.len() == 4 && forall|i: int| 0 <= i < 4 ==> #[trigger] w[i] < FELT_ORDER
}

/// The field elements that the integers of `v` stand for.
pub open spec fn reduced(v: Seq<u64>) -> Seq<u64> {
    Seq::new(v.len(), |i: int| (v[i] as int % FELT_ORDER as int) as u64)
}

/// The 32 bytes of a word: eight little-endian bytes for each element.
pub open spec fn word_bytes(w: Seq<u64>) -> Seq<u8> {
    bytes::le_bytes(w[0] as nat, 8) + bytes::le_bytes(w[1] as nat, 8) + bytes::le_bytes(
        w[2] as nat,
        8,
    ) + bytes::le_bytes(w[3] as nat, 8)
}

/// The four little-endian numbers at the start of `b`.
pub open spec fn bytes_word(b: Seq<u8>) -> Seq<u64> {
    Seq::new(4, |i: int| bytes::le_value(b.subrange(8 * i, 8 * i + 8)) as u64)
}

/// The text of a word: `0x` and its bytes in base 16.
pub open spec fn word_hex(w: Seq<u64>) -> Seq<char> {
    "0x"@ + codec::hex_of(word_bytes(w))
}

/// What the text `s` gives as a word. Bytes beyond the first 32 are not looked at.
pub open spec fn parsed_word(s: Seq<char>) -> Result<Seq<u64>, error::Refusal> {
    let digits = text::strip_0x(s);
    if !codec::is_hex(digits) {
        Err(error::Refusal::Malformed("hex Word: "@ + codec::hex_error(digits)))
    } else {
        let b = codec::hex_bytes(digits);
        if b.len() >= 32 && canonical(bytes_word(b)) {
            Ok(bytes_word(b))
        } else {
            Err(error::Refusal::Malformed("Word from bytes: "@ + word_error(b)))
        }
    }
}

/// What `DeserializationError` says of bytes that do not start with a word.
pub uninterp spec fn word_error(b: Seq<u8>) -> Seq<char>;

/// The Poseidon2 digest of two words.
pub uninterp spec fn merge_digest(a: Seq<u64>, b: Seq<u64>) -> Seq<u64>;

/// The Poseidon2 digest of a sequence of bytes.
pub uninterp spec fn bytes_digest(b: Seq<u8>) -> Seq<u64>;

/// Four field elements.
#[derive(Clone, Copy, Debug)]
pub struct Word {
    felts: [u64; 4],
}

impl View for Word {
    type V = Seq<u64>;

    closed spec fn view(&self) -> Seq<u64> {
        self.felts@
    }
}

impl Word {
    #[verifier::type_invariant]
    spec fn inv(self) -> bool {
        canonical(self.felts@)
    }

    /// The word of the field elements that `values` stand for.
    pub fn new(values: [u64; 4]) -> (r: Self)
        ensures
            r@ == reduced(values@),
            canonical(r@),
    {
        let felts = [
            values[0] % FELT_ORDER,
            values[1] % FELT_ORDER,
            values[2] % FELT_ORDER,
            values[3] % FELT_ORDER,
        ];
        assert(felts@ =~= reduced(values@));
        Word { felts }
    }

    /// The canonical form of the four elements.
    pub fn elements(&self) -> (r: [u64; 4])
        ensures
            r@ == self@,
            canonical(r@),
    {
        proof {
            use_type_invariant(self);
        }
        self.felts
    }

    /// The 32 bytes of the word.
    pub fn to_bytes(&self) -> (r: Vec<u8>)
        ensures
            r@ == word_bytes(self@),
    {
        let mut r: Vec<u8> = Vec::new();
        bytes::push_le_u64(&mut r, self.felts[0]);
        bytes::push_le_u64(&mut r, self.felts[1]);
        bytes::push_le_u64(&mut r, self.felts[2]);
        bytes::push_le_u64(&mut r, self.felts[3]);
        assert(r@ =~= word_bytes(self@));
        r
    }
}

/// `Word::read_from_bytes` of miden-protocol: reads four little-endian numbers from the start of
/// the bytes, and accepts them when all four are there and below the order of the field. What
/// its error says is a function of the bytes.
#[verifier::external_body]
fn read_word(b: &[u8]) -> (r: Result<[u64; 4], String>)
    ensures
        match r {
            Ok(w) => b@.len() >= 32 && w@ == bytes_word(b@) && canonical(bytes_word(b@)),
            Err(e) => !(b@.len() >= 32 && canonical(bytes_word(b@))) && e@ == word_error(b@),
        },
{
    match <miden_protocol::Word as miden_protocol::utils::serde::Deserializable>::read_from_bytes(b) {
        Ok(w) => Ok(w.into_elements().map(|f| f.as_canonical_u64())),
        Err(e) => Err(e.to_string()),
    }
}

/// `Hasher::merge` of miden-protocol (Poseidon2), on and to canonical elements.
#[verifier::external_body]
fn hash_merge(a: [u64; 4], b: [u64; 4]) -> (r: [u64; 4])
    ensures
        r@ == merge_digest(a@, b@),
        canonical(r@),
{
    let a = miden_protocol::Word::new(a.map(miden_protocol::Felt::new));
    let b = miden_protocol::Word::new(b.map(miden_protocol::Felt::new));
    miden_protocol::Hasher::merge(&[a, b]).into_elements().map(|f| f.as_canonical_u64())
}

/// `Hasher::hash` of miden-protocol (Poseidon2), to canonical elements.
#[verifier::external_body]
fn hash_bytes(b: &[u8]) -> (r: [u64; 4])
    ensures
        r@ == bytes_digest(b@),
        canonical(r@),
{
    miden_protocol::Hasher::hash(b).into_elements().map(|f| f.as_canonical_u64())
}

/// Whether two words have the same elements.
pub fn same(a: &Word, b: &Word) -> (r: bool)
    ensures
        r == (a@ == b@),
{
    let r = a.felts[0] == b.felts[0] && a.felts[1] == b.felts[1] && a.felts[2] == b.felts[2]
        && a.felts[3] == b.felts[3];
    proof {
        if r {
            assert(a@ =~= b@);
        }
    }
    r
}

/// Canonical elements stand for themselves.
pub proof fn lemma_reduced_canonical(v: Seq<u64>)
    requires
        canonical(v),
    ensures
        reduced(v) == v,
{
    assert(reduced(v) =~= v);
}

/// The digest of `a` and `b`, in this order.
pub fn merge(a: Word, b: Word) -> (r: Word)
    ensures
        r@ == merge_digest(a@, b@),
        canonical(r@),
{
    let d = hash_merge(a.elements(), b.elements());
    proof {
        lemma_reduced_canonical(d@);
    }
    Word::new(d)
}

/// The digest of `b`.
pub fn hash(b: &[u8]) -> (r: Word)
    ensures
        r@ == bytes_digest(b@),
        canonical(r@),
{
    let d = hash_bytes(b);
    proof {
        lemma_reduced_canonical(d@);
    }
    Word::new(d)
}

/// The text of a word: `0x` and its bytes in base 16.
pub fn word_to_hex(w: Word) -> (r: String)
    ensures
        r@ == word_hex(w@),
{
    text::join("0x", codec::hex_encode(w.to_bytes().as_slice()).as_str())
}

/// Reads a word from text of base-16 digits, with or without `0x` before them.
pub fn parse_word_hex(s: &str) -> (r: Result<Word, FacilitatorError>)
    ensures
        match r {
            Ok(w) => canonical(w@) && (parsed_word(s@) matches Ok(v) && v == w@),
            Err(e) => (parsed_word(s@) matches Err(v) && v == e@),
        },
{
    let stripped = text::strip_hex_prefix(s);
    match codec::hex_decode(stripped) {
        Err(e) => Err(FacilitatorError::Malformed(text::join("hex Word: ", e.as_str()))),
        Ok(b) => match read_word(b.as_slice()) {
            Err(e) => Err(FacilitatorError::Malformed(text::join("Word from bytes: ", e.as_str()))),
            Ok(felts) => {
                proof {
                    lemma_reduced_canonical(felts@);
                }
                Ok(Word::new(felts))
            },
        },
    }
}

/// The bytes of a word are those of its elements, one after the other.
pub proof fn lemma_word_bytes(w: Seq<u64>)
    requires
        canonical(w),
    ensures
        word_bytes(w).len() == 32,
        bytes_word(word_bytes(w)) == w,
{
    let b = word_bytes(w);
    bytes::lemma_pow256_8();
    bytes::lemma_le_round_trip(w[0] as nat, 8);
    bytes::lemma_le_round_trip(w[1] as nat, 8);
    bytes::lemma_le_round_trip(w[2] as nat, 8);
    bytes::lemma_le_round_trip(w[3] as nat, 8);
    assert(b.subrange(0, 8) =~= bytes::le_bytes(w[0] as nat, 8));
    assert(b.subrange(8, 16) =~= bytes::le_bytes(w[1] as nat, 8));
    assert(b.subrange(16, 24) =~= bytes::le_bytes(w[2] as nat, 8));
    assert(b.subrange(24, 32) =~= bytes::le_bytes(w[3] as nat, 8));
    assert(bytes_word(b) =~= w);
}

/// The text of a word gives the word back.
pub proof fn law_word_hex_round_trip(w: Seq<u64>)
    requires
        canonical(w),
    ensures
        parsed_word(word_hex(w)) is Ok,
        parsed_word(word_hex(w))->Ok_0 == w,
{
    lemma_word_bytes(w);
    codec::lemma_hex_of_round_trip(word_bytes(w));
    text::lemma_strip_prefixed(codec::hex_of(word_bytes(w)));
}

/// The text of a word has no white space to lose.
pub proof fn lemma_word_hex_trim(w: Seq<u64>)
    requires
        canonical(w),
    ensures
        text::trim(word_hex(w)) == word_hex(w),
{
    reveal_strlit("0x");
    lemma_word_bytes(w);
    let digits = codec::hex_of(word_bytes(w));
    codec::lemma_hex_of_round_trip(word_bytes(w));
    assert(digits.len() == 64);
    assert(text::digit_value(digits[63]) is Some);
    assert(word_hex(w).last() == digits[63]);
    assert(word_hex(w)[0] == '0');
}

/// The field has 2^64 - 2^32 + 1 elements; a number stands for the element that it leaves when the
/// order is taken away from it as often as it goes.
pub proof fn law_reduced(v: Seq<u64>)
    ensures
        FELT_ORDER == 0x1_0000_0000_0000_0000 - 0x1_0000_0000 + 1,
        reduced(v).len() == v.len(),
        forall|i: int|
            0 <= i < v.len() ==> #[trigger] reduced(v)[i] == (if v[i] < FELT_ORDER {
                v[i] as int
            } else {
                v[i] - FELT_ORDER
            }),
{
}

/// The text of a word is `0x` and 64 lower-case digits, of bytes that hold its elements one after
/// the other, the least significant byte of each first.
pub proof fn law_word_text(w: Seq<u64>)
    requires
        canonical(w),
    ensures
        ({
            let s = word_hex(w);
            let b = codec::hex_bytes(s.skip(2));
            &&& s.len() == 66
            &&& s[0] == '0' && s[1] == 'x'
            &&& forall|i: int|
                2 <= i < 66 ==> '0' <= #[trigger] s[i] <= '9' || 'a' <= s[i] <= 'f'
            &&& b.len() == 32
            &&& forall|i: int|
                0 <= i < 4 ==> #[trigger] w[i] == bytes::be_value(
                    b.subrange(8 * i, 8 * i + 8).reverse(),
                )
        }),
{
    reveal_strlit("0x");
    let s = word_hex(w);
    let b = word_bytes(w);
    lemma_word_bytes(w);
    codec::lemma_hex_of_round_trip(b);
    codec::law_hex_of(b);
    assert(s.skip(2) =~= codec::hex_of(b));
    assert forall|i: int| 2 <= i < 66 implies '0' <= #[trigger] s[i] <= '9' || 'a' <= s[i]
        <= 'f' by {
        assert(s[i] == codec::hex_of(b)[i - 2]);
    }
    assert forall|i: int| 0 <= i < 4 implies #[trigger] w[i] == bytes::be_value(
        b.subrange(8 * i, 8 * i + 8).reverse(),
    ) by {
        assert(bytes_word(b)[i] == w[i]);
        bytes::law_le_value_is_be_value_turned_round(b.subrange(8 * i, 8 * i + 8));
        bytes::lemma_pow256_8();
        bytes::lemma_le_value_bound(b.subrange(8 * i, 8 * i + 8));
    }
}

/// Base-16 text gives a word where it is of at least 32 bytes, the first 32 of which hold four
/// elements of the field; `0x` before it makes no difference. Other text is malformed.
pub proof fn law_parsed_word(b: Seq<u8>, s: Seq<char>)
    ensures
        ({
            let t = codec::hex_of(b);
            let elements = Seq::new(
                4,
                |i: int| bytes::be_value(b.subrange(8 * i, 8 * i + 8).reverse()),
            );
            let good = b.len() >= 32 && forall|i: int|
                0 <= i < 4 ==> #[trigger] elements[i] < FELT_ORDER;
            &&& parsed_word("0x"@ + t) == parsed_word(t)
            &&& good <==> parsed_word(t) is Ok
            &&& good ==> parsed_word(t)->Ok_0.len() == 4 && forall|i: int|
                0 <= i < 4 ==> #[trigger] parsed_word(t)->Ok_0[i] == elements[i]
            &&& !good ==> parsed_word(t)->Err_0 == error::Refusal::Malformed(
                "Word from bytes: "@ + word_error(b),
            )
        }),
        !codec::is_hex(text::strip_0x(s)) ==> parsed_word(s) is Err && parsed_word(s)->Err_0
            == error::Refusal::Malformed("hex Word: "@ + codec::hex_error(text::strip_0x(s))),
{
    let t = codec::hex_of(b);
    codec::lemma_hex_of_round_trip(b);
    text::lemma_strip_prefixed(t);
    text::lemma_strip_digits(t);
    let elements = Seq::new(4, |i: int| bytes::be_value(b.subrange(8 * i, 8 * i + 8).reverse()));
    if b.len() >= 32 {
        assert forall|i: int| 0 <= i < 4 implies #[trigger] elements[i] == bytes_word(b)[i] by {
            let c = b.subrange(8 * i, 8 * i + 8);
            bytes::law_le_value_is_be_value_turned_round(c);
            bytes::lemma_pow256_8();
            bytes::lemma_le_value_bound(c);
        }
        if parsed_word(t) is Ok {
            assert forall|i: int| 0 <= i < 4 implies #[trigger] elements[i] < FELT_ORDER by {
                assert(bytes_word(b)[i] < FELT_ORDER);
            }
        }
        if forall|i: int| 0 <= i < 4 ==> #[trigger] elements[i] < FELT_ORDER {
            assert forall|i: int| 0 <= i < 4 implies #[trigger] bytes_word(b)[i] < FELT_ORDER by {
                assert(elements[i] < FELT_ORDER);
            }
        }
    }
}

} // verus!
