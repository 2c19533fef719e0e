//! Falcon-512 keys and signatures over Poseidon2.

use miden_protocol::crypto::dsa::falcon512_poseidon2::{
    Nonce, SecretKey, Signature, SignaturePoly,
};
use miden_protocol::utils::serde::{Deserializable, Serializable};
use rand_chacha::rand_core::SeedableRng;
use rand_chacha::ChaCha20Rng;
use vstd::prelude::*;
use vstd::slice::slice_subrange;

use crate::lattice;
use crate::lattice::COEFFICIENTS;
use crate::word;
use crate::word::Word;

verus! {

/// Bytes of a signature's polynomial.
pub const POLY_LEN: usize = 625;

/// Whether the generator with this seed can draw the key with these bytes. It computes with sines
/// and cosines whose last bits std leaves open, so a seed need not fix a key.
pub uninterp spec fn draws(seed: Seq<u8>, key: Seq<u8>) -> bool;

/// The four polynomials of the key with these bytes, `g`, `-f`, `G` and `-F`, or what
/// `DeserializationError` says where they are no key.
pub uninterp spec fn key_basis(key: Seq<u8>) -> Result<Seq<Seq<int>>, Seq<char>>;

/// The commitment to the public half of the key with these bytes.
pub uninterp spec fn key_commitment(key: Seq<u8>) -> Seq<u64>;

/// Whether signing the message under the key with these bytes can give a signature with this
/// polynomial. Signing computes with sines and cosines too.
pub uninterp spec fn signs(key: Seq<u8>, msg: Seq<u64>, poly: Seq<i16>) -> bool;

/// The bytes of the signature with this polynomial under the key with these bytes.
pub uninterp spec fn encoded(key: Seq<u8>, poly: Seq<i16>) -> Seq<u8>;

/// The commitment to the public key inside the signature with these bytes, or what
/// `DeserializationError` says where they are no signature.
pub uninterp spec fn signer(sig: Seq<u8>) -> Result<Seq<u64>, Seq<char>>;

/// Whether the signature with these bytes is one of the message, under the public key inside it.
pub uninterp spec fn verifies(sig: Seq<u8>, msg: Seq<u64>) -> bool;

/// The field elements by which the virtual machine checks the signature of a message that has
/// this polynomial, under the key with these bytes.
pub uninterp spec fn prepared(key: Seq<u8>, poly: Seq<i16>, msg: Seq<u64>) -> Seq<u64>;

/// Bytes of a key to sign with.
pub open spec fn sound_key(key: Seq<u8>) -> bool {
    key_basis(key) is Ok && lattice::sound(key_basis(key)->Ok_0)
}

/// Bytes that are found to be those of a key.
pub open spec fn is_key(key: Seq<u8>) -> bool {
    key_basis(key) is Ok && lattice::accepted(key_basis(key)->Ok_0)
}

/// What is said of bytes that are not found to be those of a key.
pub open spec fn key_error(key: Seq<u8>) -> Seq<char> {
    match key_basis(key) {
        Err(e) => e,
        Ok(_) => "the polynomials make no key"@,
    }
}

/// Coefficients that a signature can have.
pub open spec fn valid_poly(poly: Seq<i16>) -> bool {
    poly.len() == COEFFICIENTS && forall|i: int|
        0 <= i < poly.len() ==> -2047 <= #[trigger] poly[i] <= 2047
}

/// Signing the message with the key with these bytes can give a signature with this polynomial,
/// whose coefficients a signature can have.
pub open spec fn gives(key: Seq<u8>, msg: Seq<u64>, poly: Seq<i16>) -> bool {
    signs(key, msg, poly) && valid_poly(poly)
}

/// Bits that a coefficient takes when compressed: its sign, seven low bits, and the rest in unary.
pub open spec fn coefficient_bits(c: i16) -> int {
    let size: int = if c < 0 {
        -(c as int)
    } else {
        c as int
    };
    9 + size / 128
}

/// Bits that the coefficients take when compressed.
pub open spec fn poly_bits(poly: Seq<i16>) -> int
    decreases poly.len(),
{
    if poly.len() == 0 {
        0
    } else {
        poly_bits(poly.drop_last()) + coefficient_bits(poly.last())
    }
}

/// A signature has room for the compressed polynomial.
pub open spec fn fits(poly: Seq<i16>) -> bool {
    poly_bits(poly) <= 8 * POLY_LEN
}

/// Bit `i` of `b`, the highest bit of the first byte being bit 0.
pub open spec fn bit(b: Seq<u8>, i: int) -> bool {
    (b[i / 8] as int / bit_weight(i % 8)) % 2 == 1
}

/// What the bit at offset `k` counts for in its byte.
pub open spec fn bit_weight(k: int) -> int {
    if k == 0 {
        128
    } else if k == 1 {
        64
    } else if k == 2 {
        32
    } else if k == 3 {
        16
    } else if k == 4 {
        8
    } else if k == 5 {
        4
    } else if k == 6 {
        2
    } else {
        1
    }
}

/// How a run of zero bits ends.
pub enum Run {
    /// With a one, after which reading goes on here.
    Ends(int),
    /// Not within sixteen bits.
    TooLong,
    /// Not before the bytes are used up.
    UsedUp,
}

/// How the run of zeros that has had `zeros` zeros goes on at bit `pos`.
pub open spec fn run(b: Seq<u8>, pos: int, zeros: int) -> Run
    decreases 16 - zeros,
{
    if zeros >= 16 {
        Run::TooLong
    } else if pos >= 8 * b.len() {
        Run::UsedUp
    } else if bit(b, pos) {
        Run::Ends(pos + 1)
    } else {
        run(b, pos + 1, zeros + 1)
    }
}

/// The coefficient at bit `pos` is a negative zero: one, seven zeros, one.
pub open spec fn negative_zero(b: Seq<u8>, pos: int) -> bool {
    &&& bit(b, pos)
    &&& forall|k: int| pos < k < pos + 8 ==> !#[trigger] bit(b, k)
    &&& bit(b, pos + 8)
}

/// Reading `left` coefficients from bit `pos` on does not use up the bytes: they are read, or an
/// encoding that is not allowed ends the reading before.
pub open spec fn reads(b: Seq<u8>, pos: int, left: nat) -> bool
    decreases left,
{
    if left == 0 {
        true
    } else if pos + 8 > 8 * b.len() {
        false
    } else {
        match run(b, pos + 8, 0) {
            Run::UsedUp => false,
            Run::TooLong => true,
            Run::Ends(next) => negative_zero(b, pos) || reads(b, next, (left - 1) as nat),
        }
    }
}

/// Bytes on which the decoder of signatures comes to a result: it refuses their header or their
/// length, or their compressed polynomial does not run out of its bytes.
pub open spec fn readable(sig: Seq<u8>) -> bool {
    sig.len() >= 2 + POLY_LEN && sig[0] == 0xb9 ==> reads(
        sig.subrange(2, 2 + POLY_LEN),
        0,
        COEFFICIENTS as nat,
    )
}

/// `SecretKey::with_rng` of miden-protocol's Falcon with a `ChaCha20Rng` of the given seed, and
/// the key's bytes.
#[verifier::external_body]
fn draw_key(seed: [u8; 32]) -> (r: Vec<u8>)
    ensures
        draws(seed@, r@),
{
    let mut rng = ChaCha20Rng::from_seed(seed);
    SecretKey::with_rng(&mut rng).to_bytes()
}

/// `SecretKey::read_from_bytes` and `SecretKey::short_lattice_basis` of miden-protocol's Falcon.
#[verifier::external_body]
fn read_basis(key: &[u8]) -> (r: Result<[Vec<i64>; 4], String>)
    ensures
        match r {
            Ok(v) => key_basis(key@) is Ok && key_basis(key@)->Ok_0 == lattice::rows(v),
            Err(e) => key_basis(key@) is Err && key_basis(key@)->Err_0 == e@,
        },
{
    match SecretKey::read_from_bytes(key) {
        Ok(k) => Ok(
            k.short_lattice_basis().clone().map(
                |p| p.coefficients.into_iter().map(i64::from).collect(),
            ),
        ),
        Err(e) => Err(e.to_string()),
    }
}

/// `SecretKey::public_key` and `PublicKey::to_commitment` of miden-protocol's Falcon.
#[verifier::external_body]
fn commit_key(key: &[u8]) -> (r: [u64; 4])
    requires
        sound_key(key@),
    ensures
        r@ == key_commitment(key@),
        word::canonical(r@),
{
    let key = SecretKey::read_from_bytes(key).unwrap();
    key.public_key().to_commitment().into_elements().map(|f| f.as_canonical_u64())
}

/// `SecretKey::sign` of miden-protocol's Falcon: the coefficients of the signature's polynomial,
/// each of at most eleven bits. Neither that the signature verifies nor that two signings of one
/// message agree is said of it. It draws polynomials until one is short enough, which a key with
/// two short rows soon gives.
#[verifier::external_body]
fn sign_coefficients(key: &[u8], msg: [u64; 4]) -> (r: Vec<i16>)
    requires
        sound_key(key@),
        word::canonical(msg@),
    ensures
        signs(key@, msg@, r@),
        valid_poly(r@),
{
    let key = SecretKey::read_from_bytes(key).unwrap();
    let msg = miden_protocol::Word::new(msg.map(miden_protocol::Felt::new));
    key.sign(msg).sig_poly().coefficients.iter().map(|c| c.balanced_value()).collect()
}

/// `Signature::to_bytes` of miden-protocol's Falcon, for the signature with this polynomial and
/// the public half of the key, where the compressed polynomial fits. The bytes decode, and the
/// public key inside them is that of the key.
#[verifier::external_body]
fn encode_signature(key: &[u8], poly: &[i16]) -> (r: Vec<u8>)
    requires
        sound_key(key@),
        valid_poly(poly@),
        fits(poly@),
    ensures
        r@ == encoded(key@, poly@),
        readable(r@),
        signer(r@) is Ok,
        signer(r@)->Ok_0 == key_commitment(key@),
{
    let public_key = SecretKey::read_from_bytes(key).unwrap().public_key();
    let poly: &[i16; 512] = poly.try_into().unwrap();
    let poly = SignaturePoly::try_from(poly).unwrap();
    Signature::new(Nonce::deterministic(), public_key, poly).to_bytes()
}

/// `Signature::to_prepared_signature` of miden-protocol's accounts, for the signature with this
/// polynomial and the public half of the key, to canonical elements.
#[verifier::external_body]
fn prepare_signature(key: &[u8], poly: &[i16], msg: [u64; 4]) -> (r: Vec<u64>)
    requires
        sound_key(key@),
        valid_poly(poly@),
        word::canonical(msg@),
    ensures
        r@ == prepared(key@, poly@, msg@),
        forall|i: int| 0 <= i < r@.len() ==> #[trigger] r@[i] < word::FELT_ORDER,
{
    let public_key = SecretKey::read_from_bytes(key).unwrap().public_key();
    let poly: &[i16; 512] = poly.try_into().unwrap();
    let poly = SignaturePoly::try_from(poly).unwrap();
    let sig = Signature::new(Nonce::deterministic(), public_key, poly);
    let msg = miden_protocol::Word::new(msg.map(miden_protocol::Felt::new));
    let sig = miden_protocol::account::auth::Signature::from(sig);
    sig.to_prepared_signature(msg).into_iter().map(|f| f.as_canonical_u64()).collect()
}

/// `Signature::read_from_bytes` of miden-protocol's Falcon, and `PublicKey::to_commitment` of the
/// public key inside the signature.
#[verifier::external_body]
fn read_signer(sig: &[u8]) -> (r: Result<[u64; 4], String>)
    requires
        readable(sig@),
    ensures
        match r {
            Ok(c) => word::canonical(c@) && signer(sig@) is Ok && signer(sig@)->Ok_0 == c@,
            Err(e) => signer(sig@) is Err && signer(sig@)->Err_0 == e@,
        },
{
    match Signature::read_from_bytes(sig) {
        Ok(s) => Ok(s.public_key().to_commitment().into_elements().map(|f| f.as_canonical_u64())),
        Err(e) => Err(e.to_string()),
    }
}

/// `Signature::verify` of miden-protocol's Falcon, on bytes that decode, against the public key
/// inside the signature.
#[verifier::external_body]
fn check_signature(sig: &[u8], msg: [u64; 4]) -> (r: bool)
    requires
        readable(sig@),
        signer(sig@) is Ok,
        word::canonical(msg@),
    ensures
        r == verifies(sig@, msg@),
{
    let sig = Signature::read_from_bytes(sig).unwrap();
    let msg = miden_protocol::Word::new(msg.map(miden_protocol::Felt::new));
    sig.verify(msg, sig.public_key())
}

fn bit_at(b: &[u8], i: usize) -> (r: bool)
    requires
        i < 8 * b@.len(),
    ensures
        r == bit(b@, i as int),
{
    let byte: u8 = b[i / 8];
    let k: usize = i % 8;
    let weight: u8 = if k == 0 {
        128
    } else if k == 1 {
        64
    } else if k == 2 {
        32
    } else if k == 3 {
        16
    } else if k == 4 {
        8
    } else if k == 5 {
        4
    } else if k == 6 {
        2
    } else {
        1
    };
    byte / weight % 2 == 1
}

/// How the run of zeros at bit `pos` ends: the bit after its one.
enum RunEnd {
    Ends(usize),
    TooLong,
    UsedUp,
}

fn run_end(b: &[u8], pos: usize) -> (r: RunEnd)
    requires
        8 * b@.len() <= 0xffff,
        pos <= 8 * b@.len(),
    ensures
        match r {
            RunEnd::Ends(next) => run(b@, pos as int, 0) == Run::Ends(next as int) && next <= 8
                * b@.len() && next > pos && (bit(b@, pos as int) <==> next == pos + 1),
            RunEnd::TooLong => run(b@, pos as int, 0) == Run::TooLong,
            RunEnd::UsedUp => run(b@, pos as int, 0) == Run::UsedUp,
        },
{
    let bits: usize = 8 * b.len();
    let mut at: usize = pos;
    let mut zeros: usize = 0;
    while zeros < 16 && at < bits && !bit_at(b, at)
        invariant
            bits == 8 * b@.len(),
            bits <= 0xffff,
            at == pos + zeros,
            zeros <= 16,
            at <= bits,
            zeros > 0 ==> !bit(b@, pos as int),
            run(b@, pos as int, 0) == run(b@, at as int, zeros as int),
        decreases 16 - zeros,
    {
        at = at + 1;
        zeros = zeros + 1;
    }
    if zeros >= 16 {
        RunEnd::TooLong
    } else if at >= bits {
        RunEnd::UsedUp
    } else {
        RunEnd::Ends(at + 1)
    }
}

fn is_negative_zero(b: &[u8], pos: usize) -> (r: bool)
    requires
        8 * b@.len() <= 0xffff,
        pos + 8 < 8 * b@.len(),
    ensures
        r == negative_zero(b@, pos as int),
{
    if !bit_at(b, pos) || !bit_at(b, pos + 8) {
        return false;
    }
    let mut k: usize = 1;
    while k < 8
        invariant
            8 * b@.len() <= 0xffff,
            pos + 8 < 8 * b@.len(),
            1 <= k <= 8,
            forall|j: int| pos < j < pos + k ==> !#[trigger] bit(b@, j),
        decreases 8 - k,
    {
        if bit_at(b, pos + k) {
            return false;
        }
        k = k + 1;
    }
    true
}

fn reads_all(b: &[u8]) -> (r: bool)
    requires
        8 * b@.len() <= 0xffff,
    ensures
        r == reads(b@, 0, COEFFICIENTS as nat),
{
    let bits: usize = 8 * b.len();
    let mut pos: usize = 0;
    let mut left: usize = COEFFICIENTS;
    while left > 0
        invariant
            bits == 8 * b@.len(),
            bits <= 0xffff,
            pos <= bits,
            reads(b@, 0, COEFFICIENTS as nat) == reads(b@, pos as int, left as nat),
        decreases left,
    {
        if pos + 8 > bits {
            return false;
        }
        match run_end(b, pos + 8) {
            RunEnd::UsedUp => {
                return false;
            },
            RunEnd::TooLong => {
                return true;
            },
            RunEnd::Ends(next) => {
                if is_negative_zero(b, pos) {
                    return true;
                }
                pos = next;
            },
        }
        left = left - 1;
    }
    true
}

/// Whether the decoder of signatures comes to a result on `sig`.
pub fn is_readable(sig: &[u8]) -> (r: bool)
    ensures
        r == readable(sig@),
{
    if sig.len() >= 2 + POLY_LEN && sig[0] == 0xb9 {
        reads_all(slice_subrange(sig, 2, 2 + POLY_LEN))
    } else {
        true
    }
}

/// The commitment to the public key inside the signature `sig`, or what is wrong with it.
pub fn signature_commitment(sig: &[u8]) -> (r: Result<Word, String>)
    requires
        readable(sig@),
    ensures
        match r {
            Ok(c) => word::canonical(c@) && signer(sig@) is Ok && signer(sig@)->Ok_0 == c@,
            Err(e) => signer(sig@) is Err && signer(sig@)->Err_0 == e@,
        },
{
    match read_signer(sig) {
        Ok(c) => {
            proof {
                word::lemma_reduced_canonical(c@);
            }
            Ok(Word::new(c))
        },
        Err(e) => Err(e),
    }
}

/// Whether `sig`, which decodes, is a signature of `msg` under the public key inside it.
pub(crate) fn signature_verifies(sig: &[u8], msg: Word) -> (r: bool)
    requires
        readable(sig@),
        signer(sig@) is Ok,
    ensures
        r == verifies(sig@, msg@),
{
    check_signature(sig, msg.elements())
}

/// A secret key, held as its bytes.
pub struct FalconKey {
    bytes: Vec<u8>,
}

impl View for FalconKey {
    type V = Seq<u8>;

    closed spec fn view(&self) -> Seq<u8> {
        self.bytes@
    }
}

impl FalconKey {
    #[verifier::type_invariant]
    spec fn inv(self) -> bool {
        is_key(self.bytes@) && sound_key(self.bytes@)
    }

    /// Reads a key from its bytes. They have to pass the tests by which the scheme chooses its
    /// keys.
    pub fn from_bytes(bytes: Vec<u8>) -> (r: Result<Self, String>)
        ensures
            match r {
                Ok(k) => is_key(bytes@) && sound_key(bytes@) && k@ == bytes@,
                Err(e) => !is_key(bytes@) && e@ == key_error(bytes@),
            },
    {
        match read_basis(bytes.as_slice()) {
            Err(e) => Err(e),
            Ok(v) => if lattice::is_accepted(&v) {
                Ok(FalconKey { bytes })
            } else {
                Err("the polynomials make no key".to_owned())
            },
        }
    }

    /// Draws a key from the generator with this seed.
    pub fn generate(seed: [u8; 32]) -> (r: Result<Self, String>)
        ensures
            exists|key: Seq<u8>| #[trigger]
                draws(seed@, key) && (match r {
                    Ok(k) => is_key(key) && k@ == key,
                    Err(e) => !is_key(key) && e@ == key_error(key),
                }),
    {
        let bytes = draw_key(seed);
        let ghost key = bytes@;
        assert(draws(seed@, key));
        FalconKey::from_bytes(bytes)
    }

    /// The bytes of the key.
    pub fn to_bytes(&self) -> (r: Vec<u8>)
        ensures
            r@ == self@,
            is_key(r@),
    {
        proof {
            use_type_invariant(self);
        }
        let r = self.bytes.clone();
        assert(r@ =~= self.bytes@);
        r
    }

    /// The commitment to the public half of the key.
    pub fn commitment(&self) -> (r: Word)
        ensures
            r@ == key_commitment(self@),
            word::canonical(r@),
    {
        proof {
            use_type_invariant(self);
        }
        let c = commit_key(self.bytes.as_slice());
        proof {
            word::lemma_reduced_canonical(c@);
        }
        Word::new(c)
    }

    /// Signs `msg` and returns the polynomial of the signature.
    pub fn sign(&self, msg: Word) -> (r: Vec<i16>)
        ensures
            gives(self@, msg@, r@),
    {
        proof {
            use_type_invariant(self);
        }
        sign_coefficients(self.bytes.as_slice(), msg.elements())
    }

    /// The bytes of the signature by this key that has this polynomial; nothing where it does not
    /// fit.
    pub fn encode(&self, poly: &Vec<i16>) -> (r: Option<Vec<u8>>)
        requires
            valid_poly(poly@),
        ensures
            match r {
                Some(sig) => fits(poly@) && sig@ == encoded(self@, poly@) && readable(sig@)
                    && signer(sig@) is Ok && signer(sig@)->Ok_0 == key_commitment(self@),
                None => !fits(poly@),
            },
    {
        proof {
            use_type_invariant(self);
        }
        if poly_fits(poly) {
            Some(encode_signature(self.bytes.as_slice(), poly.as_slice()))
        } else {
            None
        }
    }

    /// The prepared form of the signature of `msg` by this key that has this polynomial.
    pub fn prepare(&self, poly: &Vec<i16>, msg: Word) -> (r: Vec<u64>)
        requires
            valid_poly(poly@),
        ensures
            r@ == prepared(self@, poly@, msg@),
            forall|i: int| 0 <= i < r@.len() ==> #[trigger] r@[i] < word::FELT_ORDER,
    {
        proof {
            use_type_invariant(self);
        }
        prepare_signature(self.bytes.as_slice(), poly.as_slice(), msg.elements())
    }
}

/// Whether a signature has room for the compressed polynomial.
pub fn poly_fits(poly: &Vec<i16>) -> (r: bool)
    requires
        valid_poly(poly@),
    ensures
        r == fits(poly@),
{
    let mut bits: usize = 0;
    let mut i: usize = 0;
    assert(poly@.take(0) =~= Seq::<i16>::empty());
    while i < poly.len()
        invariant
            i <= poly@.len(),
            valid_poly(poly@),
            bits == poly_bits(poly@.take(i as int)),
            bits <= 25 * i,
        decreases poly@.len() - i,
    {
        let c: i16 = poly[i];
        let size: i16 = if c < 0 {
            -c
        } else {
            c
        };
        assert(poly@.take(i + 1).drop_last() =~= poly@.take(i as int));
        bits = bits + 9 + (size / 128) as usize;
        i = i + 1;
    }
    assert(poly@.take(i as int) =~= poly@);
    bits <= 8 * POLY_LEN
}

/// A signature has 512 coefficients of at most eleven bits and a sign; each takes nine bits and one
/// more for each 128 in its size, and there is room for 5000.
pub proof fn law_fits(c: i16, poly: Seq<i16>)
    ensures
        poly_bits(Seq::empty()) == 0,
        c >= 0 ==> poly_bits(seq![c] + poly) == 9 + c as int / 128 + poly_bits(poly),
        c < 0 ==> poly_bits(seq![c] + poly) == 9 + -(c as int) / 128 + poly_bits(poly),
        fits(poly) <==> poly_bits(poly) <= 5000,
        valid_poly(poly) <==> poly.len() == 512 && forall|i: int|
            0 <= i < poly.len() ==> -2048 < #[trigger] poly[i] < 2048,
    decreases poly.len(),
{
    let t = seq![c] + poly;
    if poly.len() == 0 {
        assert(t.drop_last() =~= Seq::<i16>::empty());
        assert(t.last() == c);
        assert(poly_bits(t.drop_last()) == 0);
    } else {
        law_fits(c, poly.drop_last());
        assert(t.drop_last() =~= seq![c] + poly.drop_last());
    }
}

/// A polynomial whose coefficients are all below 128 in size fits.
pub proof fn law_small_polynomials_fit(poly: Seq<i16>)
    requires
        poly.len() <= 512,
        forall|i: int| 0 <= i < poly.len() ==> -128 < #[trigger] poly[i] < 128,
    ensures
        poly_bits(poly) == 9 * poly.len(),
        fits(poly),
    decreases poly.len(),
{
    if poly.len() > 0 {
        let c = poly.last();
        law_small_polynomials_fit(poly.drop_last());
        assert(-128 < c < 128);
    }
}

proof fn lemma_run_ends(b: Seq<u8>, pos: int, zeros: int, z: int)
    requires
        0 <= z,
        0 <= zeros,
        zeros + z < 16,
        pos + z < 8 * b.len(),
        forall|k: int| pos <= k < pos + z ==> !#[trigger] bit(b, k),
        bit(b, pos + z),
    ensures
        run(b, pos, zeros) == Run::Ends(pos + z + 1),
    decreases z,
{
    if z > 0 {
        assert(!bit(b, pos));
        lemma_run_ends(b, pos + 1, zeros + 1, z - 1);
    }
}

proof fn lemma_run_of_zeros(b: Seq<u8>, pos: int, zeros: int, z: int)
    requires
        0 <= z,
        0 <= zeros,
        forall|k: int| pos <= k < pos + z ==> !#[trigger] bit(b, k),
        zeros + z == 16 && pos + z <= 8 * b.len() || zeros + z < 16 && pos + z == 8 * b.len(),
    ensures
        run(b, pos, zeros) == (if zeros + z == 16 {
            Run::TooLong
        } else {
            Run::UsedUp
        }),
    decreases z,
{
    if z > 0 {
        assert(!bit(b, pos));
        lemma_run_of_zeros(b, pos + 1, zeros + 1, z - 1);
    }
}

/// A coefficient is read as a sign bit, seven low bits, and zeros up to a one; reading goes on
/// behind the one, ends with a result at a negative zero and at sixteen zeros, and has none where
/// the bytes are used up.
pub proof fn law_reads(b: Seq<u8>, pos: int, z: int, left: nat)
    requires
        0 <= pos,
        0 <= z,
        forall|k: int| pos + 8 <= k < pos + 8 + z ==> !#[trigger] bit(b, k),
    ensures
        reads(b, pos, 0),
        pos + 8 > 8 * b.len() ==> !reads(b, pos, left + 1),
        z < 16 && pos + 8 + z < 8 * b.len() && bit(b, pos + 8 + z) ==> (reads(b, pos, left + 1)
            <==> reads(b, pos + 9 + z, left) || (z == 0 && bit(b, pos) && forall|k: int|
            pos < k < pos + 8 ==> !#[trigger] bit(b, k))),
        z < 16 && pos + 8 + z == 8 * b.len() ==> !reads(b, pos, left + 1),
        z == 16 && pos + 24 <= 8 * b.len() ==> reads(b, pos, left + 1),
{
    if z < 16 && pos + 8 + z < 8 * b.len() && bit(b, pos + 8 + z) {
        lemma_run_ends(b, pos + 8, 0, z);
        if z > 0 {
            assert(!bit(b, pos + 8));
        }
    }
    if z < 16 && pos + 8 + z == 8 * b.len() || z == 16 && pos + 24 <= 8 * b.len() {
        lemma_run_of_zeros(b, pos + 8, 0, z);
    }
}

/// Bits are counted from the highest of the first byte on.
pub proof fn law_bit(b: Seq<u8>, i: int)
    ensures
        i % 8 == 0 ==> (bit(b, i) <==> b[i / 8] as int / 128 % 2 == 1),
        i % 8 == 1 ==> (bit(b, i) <==> b[i / 8] as int / 64 % 2 == 1),
        i % 8 == 2 ==> (bit(b, i) <==> b[i / 8] as int / 32 % 2 == 1),
        i % 8 == 3 ==> (bit(b, i) <==> b[i / 8] as int / 16 % 2 == 1),
        i % 8 == 4 ==> (bit(b, i) <==> b[i / 8] as int / 8 % 2 == 1),
        i % 8 == 5 ==> (bit(b, i) <==> b[i / 8] as int / 4 % 2 == 1),
        i % 8 == 6 ==> (bit(b, i) <==> b[i / 8] as int / 2 % 2 == 1),
        i % 8 == 7 ==> (bit(b, i) <==> b[i / 8] as int % 2 == 1),
{
}

/// Bytes that are too short or have another header are refused; of others it is 625 bytes behind
/// the first two that have to hold 512 coefficients.
pub proof fn law_readable(sig: Seq<u8>)
    ensures
        sig.len() < 627 ==> readable(sig),
        sig.len() > 0 && sig[0] != 0xb9 ==> readable(sig),
        sig.len() >= 627 && sig[0] == 0xb9 ==> (readable(sig) <==> reads(
            sig.subrange(2, 627),
            0,
            512,
        )),
{
}

/// What is a key and what is said of what is none; what can be given for a message is a polynomial
/// that signing can give and a signature can have.
pub proof fn law_is_key(key: Seq<u8>, msg: Seq<u64>, poly: Seq<i16>)
    ensures
        key_basis(key) matches Err(e) ==> !is_key(key) && key_error(key) == e,
        key_basis(key) matches Ok(basis) ==> (is_key(key) <==> lattice::accepted(basis)),
        key_basis(key) matches Ok(basis) ==> key_error(key) == "the polynomials make no key"@,
        is_key(key) ==> sound_key(key),
        gives(key, msg, poly) <==> signs(key, msg, poly) && valid_poly(poly),
{
}

} // verus!
