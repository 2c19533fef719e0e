//! The payment flow from the agent's signature to the facilitator's acknowledgement.

use miden_protocol::account::auth::{AuthSecretKey, Signature};
use miden_protocol::crypto::dsa::falcon512_poseidon2::{SecretKey, Signature as FalconSignature};
use miden_protocol::utils::serde::{Deserializable, Serializable};
use miden_protocol::{Felt, Hasher};
use rand_chacha::rand_core::SeedableRng;
use rand_chacha::ChaCha20Rng;
use x402_adn::account::AccountId;
use x402_adn::adn::{
    ack_message, acknowledge, decode_hex, note_bytes, pack_numbers, parse_serial_hex, pay, settled,
    try_pay, verify_debit, AdnPayRequest, AdnPayResponse, Payment,
};
use x402_adn::client::{elements_to_bytes, word_to_hex_array, AdnClient, AdnPayError};
use x402_adn::error::FacilitatorError;
use x402_adn::falcon::{is_readable, poly_fits, signature_commitment, FalconKey};
use x402_adn::key::{BootEvent, BootStep, FacilitatorKey};
use x402_adn::lattice::is_accepted;
use x402_adn::message::debit_message;
use x402_adn::submitter::{note_args_word, prepared_felts};
use x402_adn::types::{AdnPayTimings, RemainderInfo, SignedDebit};
use x402_adn::word::{merge, same, word_to_hex, Word};

const MERCHANT: &str = "0x86535dca74a83d100febdc1560fbe8";
const NOTE_ID: &str = "0xdeadbeef01234567";

/// The key that the generator seeded with 42 draws.
const AGENT_KEY: &str = "\
    590b7f8317e07703eec4efe142f7fffefc703bfbc0baec41c1e8203d17e144ffe2fe0811be13b001000185fc0f\
    c3f4003f0fa0c323f03b0c6e430ff08203ff390430c5fc1ffdf7c083ffe13fe3c07ef7e13cec2004f80007f800\
    7ffc20fffbe0820bf03d03c0bcf03245fba0be07ef45ebcfc0088f80044f76f00f40102000e3df40003141e801\
    7cf45139fc7000ebf03ee3ef03041fc5f0310007d0be0c5f000fb0b9f7fe42f3f0bc1c3e7ff460010bbf7af83e\
    c0f00083087e7cef7ffbe441c0fc1ffeef8282f0003d17ef41fc0183ffef7ce3ff851bd0010fee02efd0820fdf\
    fa043041f7bfc6e7efc2fc7ec10bff7cfbff43039f07f7d13bcc1e00f43f410020c90be106fbdf7ef010c0141f\
    ff142041effec303df84f7d0bdffdf8aec00bde42000f41142fbcec003f002f04005140ffe0bf304eba1430c31\
    010020090fff0817e086f01f780bef7bf7ef00d7b0fc042044ffefbe0bef84e40d43fc3f44142001041dfb0c2d\
    b7f3ff8307d17f00013c141041fc7f81fc4f04004fc1efb1bbe80fb6f440c01031be14403f18107e041041fbbf\
    c30ff23ef7d0bfe400420bffbbf00ffcf7cfc3f420841010c0f8afbe04018007bf00f8417ee48fbaf42e7bf82f\
    8023704808227ffc3ebafc1146084efef7ff020fdf42f8213907f07cffc17c0bdf45f42ffdfc11c2e430c60811\
    3f00407f17e17f00013e041f01ffa080f4200017cebffbef050430c70fb17d047109001dbf042044046ec7241f\
    c3fbef4907af0300510023a045ec0d8807cf81f85ec1f7cebdd40efb13e03d0c60401c613d07b000f81001eb82\
    84f3effc041fc003f0c213af0003af3df031fe17b0c5efe24713ff48003e41084fbd0bb07a143f4900a004f43f\
    bf1c110110103c207dfd13ef86f84183f400fefc607f000000f45e811830bdf810c2042fc3f7debcf40efdefcf\
    45e3e03e00107a1bd0fbf7f17efbff00fc303f13c1031faf4713df0207dec313c0bdebd001fbef0018100007f0\
    801c1f830b6fc2f421b91430bdfbf041e87fff07efff1c21400020f60400fc177ec6084fc407ef7ffbbfff0401\
    7cf02244fa0c1bfcff08ce18f80804f6fee7e90700f8390e0706f80901f1ecdd12130e1d21f0e11a2001080615\
    30d9e1eae2d9d917f40df2fcd6f3bcef17100a0e0c1007f5dfd7b7032ef3180810fcfcfb2624f7fb4423f609ef\
    f8fa2cff2f1c07fae0d2fbd802cc120debec0af312ee1f0c261416efbcdbfb0ed5d42d10f7f009030804fdef03\
    fb02d8d6fff62d0cf33125f3d934ffed0ef72b0cebef0522efdd06fd07fa12fcdf05fc1603ebe2cef21cf0effb\
    09f51e1012080de6221121ee0021dc0e2808291e140a24f8f4dffaf31e0bf21512f9db04e41516d2fcffef05d5\
    0a0ff91d282312fae413dff4010fea1f3319fd06e8d8e2051f08f006cb04120116f7061b27f9f0e6f2d3f30101\
    120be13d233809f1f9e5102cf5e505f914d70d25fb1ffc10edea20112bd20d4dd5fde7ee02ee251b20e9de0a33\
    0b0e051ae4ec1bead30009fed7f7fbfbfb15ee1b29d2100014e5f8191afa13e30615d70db4e8f8f610051ced09\
    e9edfbe3ec10e9e700fd12d118090ce1f03f04e4f6ececebf22e3844fd4418eaf20c11fbfd2de5d4ea1ff8de34\
    223d13f5efe2f5eefcf81221efed2307fa191708000cdbf804ede7e7fa2901eefafef5eb22cbf2fbff1900f700\
    05f9feebc222efe90c0d020aeaf9062006e519010e13dce1f9ffd50b0218e6021808e207dd0cfa090b0f0e0534\
    1d1201182b0e151df7f8fded1bede722fc07f91e07\
";

fn agent_key() -> FalconKey {
    FalconKey::from_bytes(hex::decode(AGENT_KEY).unwrap()).expect("a key")
}

fn outside_key() -> AuthSecretKey {
    let bytes = hex::decode(AGENT_KEY).unwrap();
    AuthSecretKey::Falcon512Poseidon2(Deserializable::read_from_bytes(&bytes).unwrap())
}

fn no() -> String {
    "no".to_string()
}

fn serial() -> Word {
    Word::new([100, 200, 300, 400])
}

fn client() -> AdnClient {
    AdnClient::new(agent_key(), NOTE_ID.to_string(), serial(), 100_000, 1_000_000)
}

fn merchant() -> AccountId {
    AccountId::from_hex(MERCHANT).expect("parse merchant id")
}

fn facilitator() -> FacilitatorKey {
    facilitator_with(Ok(agent_key()))
}

fn facilitator_with(inner: Result<FalconKey, String>) -> FacilitatorKey {
    let commitment = agent_key().commitment();
    match FacilitatorKey::load_or_create(
        BootStep::LoadKey { commitment },
        BootEvent::KeyLoaded(inner),
    ) {
        BootStep::Done(key) => key,
        _ => panic!("the boot should be done"),
    }
}

fn relay(debit: SignedDebit) -> AdnPayRequest {
    AdnPayRequest {
        note_id: debit.note_id,
        serial_num_hex: debit.serial_num_hex,
        merchant_account_id: debit.merchant_account_id,
        amount: debit.amount,
        signature_hex: debit.signature_hex,
        prepared_signature_hex: debit.prepared_signature_hex,
        expiry_block_height: debit.expiry_block_height,
        agent_pubkey_commitment_hex: debit.agent_pubkey_commitment_hex,
    }
}

fn request() -> AdnPayRequest {
    relay(client().sign_debit(merchant(), 100).expect("sign debit").0)
}

fn acked(p: Payment) -> AdnPayResponse {
    match p {
        Payment::Acked(r) => r,
        Payment::Settle { .. } => panic!("no settlement was asked for"),
    }
}

fn malformed<T>(r: Result<T, FacilitatorError>) -> String {
    match r {
        Err(FacilitatorError::Malformed(m)) => m,
        _ => panic!("expected a malformed request"),
    }
}

fn invalid<T>(r: Result<T, FacilitatorError>) -> String {
    match r {
        Err(FacilitatorError::InvalidSignature(m)) => m,
        _ => panic!("expected an invalid signature"),
    }
}

fn internal<T>(r: Result<T, FacilitatorError>) -> String {
    match r {
        Err(FacilitatorError::Internal(m)) => m,
        _ => panic!("expected an internal error"),
    }
}

#[test]
fn a_signed_debit_is_acknowledged() {
    let adn_client = client();
    let (signed_debit, timings) = adn_client.sign_debit(merchant(), 100).expect("sign debit");

    assert!(timings.t_sign_end > timings.t_sign_start, "signing should take time");

    let req = relay(signed_debit);
    assert!(verify_debit(&req).is_ok());
    let response = acked(pay(1_234_567, &req, &facilitator(), false).expect("ack"));
    assert_eq!(response.accepted_at_unix_micros, 1_234_567);
    assert_eq!(response.facilitator_pubkey_commitment, facilitator().commitment_hex());
    assert_eq!(response.tx_id, None);
    assert_eq!(response.block_num, None);
}

#[test]
fn generated_key_is_that_of_the_seeded_generator() {
    let mut rng = ChaCha20Rng::seed_from_u64(42);
    let outside = AuthSecretKey::new_falcon512_poseidon2_with_rng(&mut rng);
    let commitment: miden_protocol::Word = outside.public_key().to_commitment().into();
    let expected = commitment.into_elements().map(|f| f.as_canonical_u64());
    assert_eq!(agent_key().commitment().elements(), expected);
    let generated = FalconKey::generate(ChaCha20Rng::seed_from_u64(42).get_seed()).unwrap();
    assert_eq!(generated.commitment().elements(), expected);
    assert_eq!(hex::encode(generated.to_bytes()), AGENT_KEY);
}

/// A polynomial whose compressed form is longer than a signature has room for.
fn long_poly() -> Vec<i16> {
    vec![2047; 512]
}

#[test]
fn signatures_that_fit_are_encoded() {
    let key = agent_key();
    let poly = key.sign(serial());
    assert_eq!(poly.len(), 512);
    assert!(poly_fits(&poly));
    let sig = key.encode(&poly).unwrap();
    assert_eq!(sig.len(), 1524);
    let message: miden_protocol::Word = serial().elements().map(Felt::new).into();
    match outside_key().sign(message) {
        Signature::Falcon512Poseidon2(s) => assert_eq!(sig, s.to_bytes()),
        _ => panic!("a Falcon key signs"),
    }
    assert!(!poly_fits(&long_poly()));
    assert_eq!(key.encode(&long_poly()), None);
    let mut full = vec![0i16; 512];
    for c in full[..56].iter_mut() {
        *c = -896;
    }
    assert!(poly_fits(&full));
    assert!(is_readable(&key.encode(&full).unwrap()));
    full[56] = 128;
    assert!(!poly_fits(&full));
}

#[test]
fn keys_are_read_back_from_their_bytes() {
    let bytes = hex::decode(AGENT_KEY).unwrap();
    assert_eq!(agent_key().to_bytes(), bytes);
    assert!(FalconKey::from_bytes(vec![]).is_err());
    assert!(FalconKey::from_bytes(bytes[..1280].to_vec()).is_err());
    let mut other_header = bytes.clone();
    other_header[0] = 0;
    assert!(FalconKey::from_bytes(other_header).is_err());
}

/// A polynomial with these coefficients at 0 and at 256.
fn two_terms(a: i64, b: i64) -> Vec<i64> {
    let mut p = vec![0i64; 512];
    p[0] = a;
    p[256] = b;
    p
}

/// The low `width` bits of each coefficient, one behind the other.
fn packed(p: &[i64], width: usize) -> Vec<u8> {
    let bits: Vec<u8> = p
        .iter()
        .flat_map(|c| (0..width).rev().map(|i| (*c >> i & 1) as u8).collect::<Vec<u8>>())
        .collect();
    bits.chunks(8).map(|b| b.iter().fold(0, |v, bit| v << 1 | bit)).collect()
}

#[test]
fn a_basis_with_a_long_second_row_is_no_key() {
    let f = two_terms(31, 31);
    let g = two_terms(28, -31);
    let big_f = two_terms(-99, -124);
    let minus_f = two_terms(-31, -31);
    assert!(!is_accepted(&[g.clone(), minus_f, two_terms(85, -98), two_terms(99, 124)]));
    let mut bytes = vec![0x59];
    bytes.extend(packed(&f, 6));
    bytes.extend(packed(&g, 6));
    bytes.extend(packed(&big_f, 8));
    let outside = SecretKey::read_from_bytes(&bytes).unwrap();
    assert_eq!(outside.short_lattice_basis()[2].coefficients[0], 85);
    assert_eq!(outside.short_lattice_basis()[2].coefficients[256], -98);
    match FalconKey::from_bytes(bytes) {
        Err(e) => assert_eq!(e, "the polynomials make no key"),
        Ok(_) => panic!("the second row is too long"),
    }
}

#[test]
fn the_basis_of_a_key_is_accepted() {
    let basis = outside_basis();
    assert!(is_accepted(&basis));
    let mut shifted = basis.clone();
    for i in 0..512 {
        shifted[2][i] += shifted[0][i];
        shifted[3][i] += shifted[1][i];
    }
    let fits = shifted[2].iter().chain(&shifted[3]).all(|c| (-127..=127).contains(c));
    assert_eq!(is_accepted(&shifted), fits);
    let mut off = basis.clone();
    off[2][5] += 1;
    assert!(!is_accepted(&off));
    let mut short = basis;
    short[1].pop();
    assert!(!is_accepted(&short));
}

/// The polynomials of the agent's key.
fn outside_basis() -> [Vec<i64>; 4] {
    let key = SecretKey::read_from_bytes(&hex::decode(AGENT_KEY).unwrap()).unwrap();
    key.short_lattice_basis()
        .clone()
        .map(|p| p.coefficients.into_iter().map(i64::from).collect())
}

#[test]
fn polynomials_that_solve_no_key_equation_are_no_key() {
    let mut bytes = hex::decode(AGENT_KEY).unwrap();
    for b in bytes[769..].iter_mut() {
        *b = 0;
    }
    match FalconKey::from_bytes(bytes) {
        Err(e) => assert_eq!(e, "the polynomials make no key"),
        Ok(_) => panic!("half of the key is missing"),
    }
}

#[test]
fn signed_debit_has_the_fields_of_the_note() {
    let mut c = client();
    c.set_note_data_hex("0xabcd".to_string());
    let (debit, timings) = c.sign_debit(merchant(), 100).unwrap();
    assert_eq!(debit.note_id, NOTE_ID);
    assert_eq!(
        debit.serial_num_hex,
        [
            "0x0000000000000064".to_string(),
            "0x00000000000000c8".to_string(),
            "0x000000000000012c".to_string(),
            "0x0000000000000190".to_string(),
        ]
    );
    assert_eq!(debit.merchant_account_id, MERCHANT);
    assert_eq!(debit.amount, 100);
    assert_eq!(debit.expiry_block_height, 1_000_000);
    assert_eq!(debit.note_data_hex, Some("0xabcd".to_string()));
    assert_eq!(debit.agent_pubkey_commitment_hex, word_to_hex(agent_key().commitment()));
    assert_eq!(timings.t_send_facilitator, 0);
    assert_eq!(timings.t_ack_received, 0);

    let message = debit_message(serial(), merchant(), 100).elements().map(Felt::new).into();
    let signature = outside_key().sign(message);
    let raw = match &signature {
        Signature::Falcon512Poseidon2(s) => s.to_bytes(),
        _ => panic!("a Falcon key signs"),
    };
    assert_eq!(raw.len(), 1524);
    assert_eq!(debit.signature_hex, format!("0x{}", hex::encode(&raw)));
    let prepared: Vec<u8> = signature
        .to_prepared_signature(message)
        .iter()
        .flat_map(|f| f.as_canonical_u64().to_le_bytes())
        .collect();
    assert_eq!(debit.prepared_signature_hex, format!("0x{}", hex::encode(prepared)));
}

#[test]
fn debit_message_is_the_digest_of_serial_and_debit() {
    let id = miden_protocol::account::AccountId::from_hex(MERCHANT).unwrap();
    let details = miden_protocol::Word::new([
        id.suffix(),
        id.prefix().as_felt(),
        Felt::new(100),
        Felt::new(0),
    ]);
    let first = miden_protocol::Word::new([100, 200, 300, 400].map(Felt::new));
    let expected = Hasher::merge(&[first, details]).into_elements().map(|f| f.as_canonical_u64());
    assert_eq!(debit_message(serial(), merchant(), 100).elements(), expected);
}

#[test]
fn debit_message_depends_on_merchant_amount_and_serial() {
    let other = AccountId::from_hex("0x4ac9172cc5c709206076eb2cd7700e").unwrap();
    let base = debit_message(serial(), merchant(), 100).elements();
    assert_ne!(debit_message(serial(), other, 100).elements(), base);
    assert_ne!(debit_message(serial(), merchant(), 101).elements(), base);
    assert_ne!(debit_message(Word::new([1, 2, 3, 4]), merchant(), 100).elements(), base);
}

#[test]
fn amounts_are_taken_as_field_elements() {
    let order: u64 = 0xffff_ffff_0000_0001;
    assert_eq!(
        debit_message(serial(), merchant(), order + 100).elements(),
        debit_message(serial(), merchant(), 100).elements()
    );
}

#[test]
fn an_amount_above_the_balance_is_not_signed() {
    let c = client();
    match c.sign_debit(merchant(), 100_001) {
        Err(e) => {
            assert_eq!(
                e.message(),
                "insufficient balance: requested 100001, available 100000"
            );
            assert!(matches!(
                e,
                AdnPayError::InsufficientBalance { requested: 100_001, available: 100_000 }
            ));
        },
        Ok(_) => panic!("the note holds less"),
    }
    assert!(c.sign_debit(merchant(), 100_000).is_ok());
    assert_eq!(c.balance(), 100_000);
}

#[test]
fn a_debit_is_completed_with_a_given_signature() {
    let c = client();
    let poly = agent_key().sign(debit_message(serial(), merchant(), 100));
    let debit = c.complete_debit(merchant(), 100, &poly).unwrap();
    assert!(verify_debit(&relay(debit.clone())).is_ok());
    let sig = agent_key().encode(&poly).unwrap();
    assert_eq!(debit.signature_hex, format!("0x{}", hex::encode(sig)));
    match c.complete_debit(merchant(), 100, &long_poly()) {
        Err(e) => {
            assert_eq!(e.message(), "the signature does not fit its encoding");
            assert!(matches!(e, AdnPayError::SignatureTooLong));
        },
        Ok(_) => panic!("there is no room for the signature"),
    }
    assert!(matches!(
        c.complete_debit(merchant(), 100_001, &long_poly()),
        Err(AdnPayError::InsufficientBalance { requested: 100_001, available: 100_000 })
    ));
    let short = c.complete_debit(merchant(), 100, &vec![0; 512]).unwrap();
    assert_eq!(
        invalid(verify_debit(&relay(short))),
        "Falcon signature failed to verify against debit message"
    );
}

#[test]
fn the_prepared_signature_of_a_debit_is_that_of_its_signature() {
    let debit = client().sign_debit(merchant(), 100).unwrap().0;
    let raw = decode_hex(&debit.signature_hex).unwrap();
    let sig = Signature::from(FalconSignature::read_from_bytes(&raw).unwrap());
    let message = debit_message(serial(), merchant(), 100).elements().map(Felt::new).into();
    let elements: Vec<u64> =
        sig.to_prepared_signature(message).iter().map(|f| f.as_canonical_u64()).collect();
    let mut bytes = decode_hex(&debit.prepared_signature_hex).unwrap();
    assert_eq!(prepared_felts(&bytes), elements);
    bytes.extend_from_slice(&[7; 7]);
    assert_eq!(prepared_felts(&bytes), elements);
}

#[test]
fn a_remainder_without_a_serial_number_keeps_the_old_one() {
    let mut c = client();
    c.update_remainder(&RemainderInfo {
        note_id: "0xnext".to_string(),
        serial_num_hex: ["0x1", "0x2", "zz", "0x4"].map(|s| s.to_string()),
        balance: 1,
        tx_id: "0xtx".to_string(),
        block_num: 7,
    });
    assert_eq!(c.note_id(), "0xnext");
    assert_eq!(c.balance(), 1);
    let (debit, _) = c.sign_debit(merchant(), 1).unwrap();
    assert_eq!(debit.serial_num_hex, word_to_hex_array(serial()));
}

#[test]
fn update_remainder_takes_over_the_note() {
    let mut c = client();
    c.update_remainder(&RemainderInfo {
        note_id: "0xnext".to_string(),
        serial_num_hex: word_to_hex_array(Word::new([1, 2, 3, 4])),
        balance: 99_900,
        tx_id: "0xtx".to_string(),
        block_num: 7,
    });
    assert_eq!(c.note_id(), "0xnext");
    assert_eq!(c.balance(), 99_900);
    let (debit, _) = c.sign_debit(merchant(), 99_900).unwrap();
    assert_eq!(debit.note_id, "0xnext");
    assert_eq!(debit.serial_num_hex, word_to_hex_array(Word::new([1, 2, 3, 4])));
    assert!(c.sign_debit(merchant(), 99_901).is_err());
    let message = debit_message(Word::new([1, 2, 3, 4]), merchant(), 99_900);
    let bytes = decode_hex(&debit.signature_hex).unwrap();
    let sig = FalconSignature::read_from_bytes(&bytes).unwrap();
    assert!(sig.verify(message.elements().map(Felt::new).into(), sig.public_key()));
    assert!(verify_debit(&relay(debit)).is_ok());
}

#[test]
fn timings_start_at_zero() {
    let t = AdnPayTimings::default();
    assert_eq!(
        [t.t_pay_start, t.t_sign_start, t.t_sign_end, t.t_send_facilitator, t.t_ack_received],
        [0; 5]
    );
    let t = AdnPayTimings::signed(3, 4, 5);
    assert_eq!(
        [t.t_pay_start, t.t_sign_start, t.t_sign_end, t.t_send_facilitator, t.t_ack_received],
        [3, 4, 5, 0, 0]
    );
}

#[test]
fn a_bad_serial_is_named_by_its_index() {
    let mut req = request();
    req.serial_num_hex[2] = "0xzz".to_string();
    assert_eq!(
        malformed(verify_debit(&req)),
        "serial_num[2]: invalid digit found in string"
    );
    req.serial_num_hex[1] = "0x".to_string();
    assert_eq!(
        malformed(pay(0, &req, &facilitator(), false)),
        "serial_num[1]: cannot parse integer from empty string"
    );
    req.serial_num_hex[0] = "0x+".to_string();
    assert_eq!(
        malformed(verify_debit(&req)),
        "serial_num[0]: invalid digit found in string"
    );
    req.serial_num_hex[0] = "0x10000000000000000".to_string();
    assert_eq!(
        malformed(verify_debit(&req)),
        "serial_num[0]: number too large to fit in target type"
    );
}

#[test]
fn serials_are_read_with_and_without_prefix() {
    let texts = ["0x64", "C8", "0x0x12c", "+190"].map(|s| s.to_string());
    assert_eq!(parse_serial_hex(&texts).unwrap().elements(), [100, 200, 300, 400]);
    let big = ["ffffffff00000001", "ffffffffffffffff", "0", "1"].map(|s| s.to_string());
    assert_eq!(parse_serial_hex(&big).unwrap().elements(), [0, 0xffff_fffe, 0, 1]);
    let w = Word::new([1, 0xffff_ffff_0000_0000, 3, 0xdead_beef]);
    assert_eq!(parse_serial_hex(&word_to_hex_array(w)).unwrap().elements(), w.elements());
}

#[test]
fn a_bad_merchant_is_malformed() {
    let mut req = request();
    req.merchant_account_id = "0x1234".to_string();
    assert!(malformed(verify_debit(&req)).starts_with("merchant_account_id: "));
}

#[test]
fn a_signature_that_is_no_hex_is_malformed() {
    let mut req = request();
    req.signature_hex = "0xabc".to_string();
    assert_eq!(malformed(verify_debit(&req)), "hex: Odd number of digits");
    req.signature_hex = "0xag".to_string();
    assert_eq!(malformed(verify_debit(&req)), "hex: Invalid character 'g' at position 1");
    req.signature_hex = "0xab\ncd ".to_string();
    assert_eq!(malformed(verify_debit(&req)), "hex: Invalid character '\\n' at position 2");
}

#[test]
fn a_signature_that_does_not_decode_is_invalid() {
    let mut req = request();
    req.signature_hex = "0x00".to_string();
    assert!(invalid(verify_debit(&req)).starts_with("Falcon decode: "));
    req.signature_hex = String::new();
    assert!(invalid(verify_debit(&req)).starts_with("Falcon decode: "));
}

#[test]
fn a_signature_of_another_debit_is_invalid() {
    let mut req = request();
    req.amount = 101;
    assert_eq!(
        invalid(pay(0, &req, &facilitator(), false)),
        "Falcon signature failed to verify against debit message"
    );
    let mut redirected = request();
    redirected.merchant_account_id = "0x4ac9172cc5c709206076eb2cd7700e".to_string();
    assert_eq!(
        invalid(verify_debit(&redirected)),
        "Falcon signature failed to verify against debit message"
    );
}

#[test]
fn an_amount_that_stands_for_the_signed_one_is_invalid() {
    let mut req = request();
    req.amount = 0xffff_ffff_0000_0065;
    assert_eq!(
        invalid(pay(0, &req, &facilitator(), false)),
        "Falcon signature failed to verify against debit message"
    );
    let rich = AdnClient::new(agent_key(), NOTE_ID.to_string(), serial(), u64::MAX, 1);
    let order: u64 = 0xffff_ffff_0000_0001;
    let top = relay(rich.sign_debit(merchant(), order - 1).unwrap().0);
    assert!(verify_debit(&top).is_ok());
    let beyond = relay(rich.sign_debit(merchant(), order).unwrap().0);
    assert!(verify_debit(&beyond).is_err());
}

#[test]
fn without_settlement_the_prepared_signature_does_not_matter() {
    let plain = request();
    let mut other = request();
    other.prepared_signature_hex = "no hex".to_string();
    let a = acked(pay(3, &plain, &facilitator(), false).unwrap());
    let b = acked(pay(3, &other, &facilitator(), false).unwrap());
    assert_eq!(a.accepted_at_unix_micros, b.accepted_at_unix_micros);
    assert_eq!(a.facilitator_pubkey_commitment, b.facilitator_pubkey_commitment);
    let mut wrong = request();
    wrong.amount = 101;
    let mut wrong_other = wrong.clone();
    wrong_other.prepared_signature_hex = "no hex".to_string();
    assert_eq!(
        invalid(pay(3, &wrong, &facilitator(), false)),
        invalid(pay(3, &wrong_other, &facilitator(), false))
    );
}

#[test]
fn a_claim_of_another_key_is_invalid() {
    let mut req = request();
    let own = req.agent_pubkey_commitment_hex.clone();
    req.agent_pubkey_commitment_hex = "0xabcd".to_string();
    assert_eq!(
        invalid(verify_debit(&req)),
        format!("pubkey commitment mismatch: sig has {}, claimed abcd", &own[2..])
    );
    req.agent_pubkey_commitment_hex = own[2..].to_string();
    assert!(verify_debit(&req).is_ok());
}

#[test]
fn a_compressed_polynomial_that_runs_out_is_not_readable() {
    let sig = decode_hex(&request().signature_hex).unwrap();
    assert!(is_readable(&sig));
    let mut long = sig.clone();
    for b in long[2..627].iter_mut() {
        *b = 0b0000_0001;
    }
    assert!(!is_readable(&long));
    let mut req = request();
    req.signature_hex = hex::encode(&long);
    assert!(try_pay(0, &req, &facilitator(), false).is_none());
    long[0] = 0;
    assert!(is_readable(&long));
    let mut zeros = sig.clone();
    for b in zeros[2..627].iter_mut() {
        *b = 0;
    }
    assert!(is_readable(&zeros));
    assert!(signature_commitment(&zeros).is_err());
    let mut minus_zero = sig.clone();
    minus_zero[2] = 0b1000_0000;
    minus_zero[3] = 0b1000_0000;
    assert!(is_readable(&minus_zero));
    assert!(signature_commitment(&minus_zero).is_err());
}

#[test]
fn the_signer_of_a_signature_is_read_from_it() {
    let sig = agent_key().encode(&agent_key().sign(serial())).unwrap();
    assert_eq!(
        signature_commitment(&sig).unwrap().elements(),
        agent_key().commitment().elements()
    );
}

#[test]
fn the_ack_is_a_signature_of_time_note_merchant_and_amount() {
    let response = acked(pay(99, &request(), &facilitator(), false).unwrap());
    let mut buf = Vec::new();
    buf.extend_from_slice(&99u64.to_be_bytes());
    buf.extend_from_slice(NOTE_ID.as_bytes());
    buf.extend_from_slice(MERCHANT.as_bytes());
    buf.extend_from_slice(&100u64.to_be_bytes());
    let digest = Hasher::hash(&buf);
    assert_eq!(
        ack_message(99, NOTE_ID, MERCHANT, 100).elements(),
        digest.into_elements().map(|f| f.as_canonical_u64())
    );
    let bytes = decode_hex(&response.facilitator_ack_signature).unwrap();
    let sig = FalconSignature::read_from_bytes(&bytes).unwrap();
    assert!(sig.verify(digest, sig.public_key()));
    assert_eq!(
        word_to_hex(signature_commitment(&bytes).unwrap()),
        response.facilitator_pubkey_commitment
    );
}

#[test]
fn ack_messages_differ_in_each_part() {
    let base = ack_message(1, "n", MERCHANT, 2).elements();
    assert_ne!(ack_message(2, "n", MERCHANT, 2).elements(), base);
    assert_ne!(ack_message(1, "m", MERCHANT, 2).elements(), base);
    assert_ne!(
        ack_message(1, "n", "0x4ac9172cc5c709206076eb2cd7700e", 2).elements(),
        base
    );
    assert_ne!(ack_message(1, "n", MERCHANT, 3).elements(), base);
}

#[test]
fn a_missing_facilitator_key_fails_the_ack() {
    let key = facilitator_with(Err("key not found".to_string()));
    assert_eq!(internal(pay(0, &request(), &key, false)), "sign: key not found");
    assert_eq!(internal(key.sign_prepared(serial())), "sign: key not found");
    let mut req = request();
    req.amount = 101;
    assert!(matches!(
        try_pay(0, &req, &key, true),
        Some(Err(FacilitatorError::InvalidSignature(_)))
    ));
}

#[test]
fn settlement_is_asked_for_with_merchant_and_amount_as_arguments() {
    let req = request();
    match try_pay(5, &req, &facilitator(), true) {
        Some(Ok(Payment::Settle { ack, note_args, prepared_sig_bytes })) => {
            assert_eq!(ack.tx_id, None);
            assert_eq!(ack.accepted_at_unix_micros, 5);
            assert_eq!(prepared_sig_bytes, decode_hex(&req.prepared_signature_hex).unwrap());
            let mut expected = Vec::new();
            for v in [merchant().suffix(), merchant().prefix(), 100, 0] {
                expected.extend_from_slice(&v.to_be_bytes());
            }
            assert_eq!(note_args.to_vec(), expected);
            assert_eq!(
                merge(serial(), note_args_word(&note_args)).elements(),
                debit_message(serial(), merchant(), 100).elements()
            );
        },
        _ => panic!("settlement was asked for"),
    }
    assert_eq!(pack_numbers([1, 2, 3, 4])[..16], [0, 0, 0, 0, 0, 0, 0, 1, 0, 0, 0, 0, 0, 0, 0, 2]);
}

#[test]
fn acknowledgements_carry_the_given_signature() {
    let commitment = Word::new([1, 2, 3, 4]);
    let sign = || Ok("0xsig".to_string());
    let response = acked(acknowledge(8, &request(), commitment, sign(), false).unwrap());
    assert_eq!(response.accepted_at_unix_micros, 8);
    assert_eq!(response.facilitator_ack_signature, "0xsig");
    assert_eq!(response.facilitator_pubkey_commitment, word_to_hex(commitment));
    let refused = Err(FacilitatorError::Internal(no()));
    assert_eq!(internal(acknowledge(8, &request(), commitment, refused, true)), "no");
    match acknowledge(8, &request(), commitment, sign(), true) {
        Ok(Payment::Settle { ack, .. }) => assert_eq!(ack.facilitator_ack_signature, "0xsig"),
        _ => panic!("settlement was asked for"),
    }
}

#[test]
fn the_consumed_note_is_the_one_that_came_with_the_debit() {
    let given = Some("0xabcd".to_string());
    assert_eq!(note_bytes(&given, &vec![1, 2]).unwrap(), vec![0xab, 0xcd]);
    assert_eq!(note_bytes(&None, &vec![1, 2]).unwrap(), vec![1, 2]);
    assert_eq!(
        malformed(note_bytes(&Some("0xabc".to_string()), &vec![])),
        "hex: Odd number of digits"
    );
}

#[test]
fn a_stored_key_with_another_commitment_does_not_sign() {
    let commitment = Word::new([1, 2, 3, 4]);
    let key = match FacilitatorKey::load_or_create(
        BootStep::LoadKey { commitment },
        BootEvent::KeyLoaded(Ok(agent_key())),
    ) {
        BootStep::Done(k) => k,
        _ => panic!("the boot should be done"),
    };
    assert!(same(&key.commitment_word(), &commitment));
    assert!(!same(&agent_key().commitment(), &commitment));
    assert_eq!(
        internal(key.sign_word_hex(serial())),
        "sign: the stored key has another commitment"
    );
    assert_eq!(
        internal(pay(0, &request(), &key, false)),
        "sign: the stored key has another commitment"
    );
}

#[test]
fn a_bad_prepared_signature_only_matters_for_settlement() {
    let mut req = request();
    req.prepared_signature_hex = "zz".to_string();
    assert!(pay(0, &req, &facilitator(), false).is_ok());
    assert_eq!(
        malformed(pay(0, &req, &facilitator(), true)),
        "hex: Invalid character 'z' at position 0"
    );
}

#[test]
fn a_failed_settlement_leaves_the_ack() {
    let ack = acked(pay(5, &request(), &facilitator(), false).unwrap());
    let failed = settled(ack.clone(), Err(FacilitatorError::Internal("no".to_string())));
    assert_eq!(failed.tx_id, None);
    assert_eq!(failed.block_num, None);
    assert_eq!(failed.facilitator_ack_signature, ack.facilitator_ack_signature);
    let done = settled(ack.clone(), Ok(("0xtx".to_string(), 17)));
    assert_eq!(done.tx_id, Some("0xtx".to_string()));
    assert_eq!(done.block_num, Some(17));
    assert_eq!(done.accepted_at_unix_micros, 5);
    assert_eq!(done.facilitator_ack_signature, ack.facilitator_ack_signature);
}

#[test]
fn elements_are_written_little_endian() {
    assert_eq!(
        elements_to_bytes(&[1, 0x0102_0304_0506_0708]),
        vec![1, 0, 0, 0, 0, 0, 0, 0, 8, 7, 6, 5, 4, 3, 2, 1]
    );
    assert_eq!(elements_to_bytes(&[]), Vec::<u8>::new());
}

#[test]
fn a_first_boot_writes_the_marker_and_a_second_reads_it() {
    let secret = || agent_key();
    let commitment = secret().commitment();
    let step = FacilitatorKey::load_or_create(BootStep::CreateDir, BootEvent::DirCreated(Ok(())));
    let step = FacilitatorKey::load_or_create(step, BootEvent::StoreOpened(Ok(())));
    assert!(matches!(step, BootStep::FindMarker));
    let step = FacilitatorKey::load_or_create(step, BootEvent::MarkerFound(false));
    assert!(matches!(step, BootStep::GenerateKey));
    let step = FacilitatorKey::load_or_create(step, BootEvent::KeyGenerated(Ok(commitment)));
    let marker = match &step {
        BootStep::WriteMarker { text, .. } => text.clone(),
        _ => panic!("the marker is to be written"),
    };
    assert_eq!(marker, word_to_hex(commitment));
    let step = FacilitatorKey::load_or_create(step, BootEvent::MarkerWritten(Ok(())));
    let step = FacilitatorKey::load_or_create(step, BootEvent::KeyLoaded(Ok(secret())));
    let first = match step {
        BootStep::Done(k) => k,
        _ => panic!("the boot should be done"),
    };

    let step =
        FacilitatorKey::load_or_create(BootStep::FindMarker, BootEvent::MarkerFound(true));
    assert!(matches!(step, BootStep::ReadMarker));
    let step = FacilitatorKey::load_or_create(
        step,
        BootEvent::MarkerRead(Ok(format!("{}\n", marker))),
    );
    let step = FacilitatorKey::load_or_create(step, BootEvent::KeyLoaded(Ok(secret())));
    let second = match step {
        BootStep::Done(k) => k,
        _ => panic!("the boot should be done"),
    };
    assert_eq!(first.commitment_word().elements(), commitment.elements());
    assert_eq!(second.commitment_hex(), first.commitment_hex());
    let text = second.sign_word_hex(serial()).unwrap();
    assert_eq!(
        word_to_hex(signature_commitment(&decode_hex(&text).unwrap()).unwrap()),
        first.commitment_hex()
    );
}

#[test]
fn a_boot_says_where_it_failed() {
    let failed = |step: BootStep, event: BootEvent| match FacilitatorKey::load_or_create(
        step, event,
    ) {
        BootStep::Failed(e) => e.text().to_string(),
        _ => panic!("the boot should have failed"),
    };
    assert_eq!(
        failed(BootStep::CreateDir, BootEvent::DirCreated(Err(no()))),
        "keystore mkdir: no"
    );
    assert_eq!(failed(BootStep::OpenStore, BootEvent::StoreOpened(Err(no()))), "keystore: no");
    assert_eq!(failed(BootStep::ReadMarker, BootEvent::MarkerRead(Err(no()))), "read marker: no");
    assert_eq!(
        failed(BootStep::ReadMarker, BootEvent::MarkerRead(Ok("0xzz".to_string()))),
        "hex Word: Invalid character 'z' at position 0"
    );
    assert_eq!(failed(BootStep::GenerateKey, BootEvent::KeyGenerated(Err(no()))), "keygen: no");
    assert_eq!(
        failed(
            BootStep::WriteMarker { commitment: Word::new([0; 4]), text: String::new() },
            BootEvent::MarkerWritten(Err(no()))
        ),
        "write marker: no"
    );
    assert!(matches!(
        FacilitatorKey::load_or_create(BootStep::CreateDir, BootEvent::MarkerFound(true)),
        BootStep::CreateDir
    ));
}

#[test]
fn the_facilitator_signs_words() {
    let secret = agent_key();
    let commitment = secret.commitment();
    let msg = merge(Word::new([1, 2, 3, 4]), Word::new([5, 6, 7, 8]));
    let key = match FacilitatorKey::load_or_create(
        BootStep::LoadKey { commitment },
        BootEvent::KeyLoaded(Ok(secret)),
    ) {
        BootStep::Done(k) => k,
        _ => panic!("the boot should be done"),
    };
    let secret = agent_key();
    let text = key.sign_word_hex(msg).unwrap();
    let poly = secret.sign(msg);
    assert_eq!(text, format!("0x{}", hex::encode(secret.encode(&poly).unwrap())));
    assert_eq!(key.signature_hex(&poly).unwrap(), text);
    assert_eq!(
        internal(key.signature_hex(&long_poly())),
        "sign: the signature does not fit its encoding"
    );
    let bytes = hex::decode(&text[2..]).unwrap();
    assert_eq!(
        signature_commitment(&bytes).unwrap().elements(),
        commitment.elements()
    );
    let prepared = key.sign_prepared(msg).unwrap();
    assert_eq!(prepared, secret.prepare(&poly, msg));
    assert!(prepared.len() > 512);
}
