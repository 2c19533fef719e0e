//! Words, identifiers, texts, clock and settings.

use miden_protocol::note::NoteStorage;
use miden_protocol::{Felt, Hasher};
use x402_adn::account::AccountId;
use x402_adn::bytes::{push_be_u64, push_le_u64, read_be_u64, read_le_u64};
use x402_adn::clock::{micros_or_zero, now_micros};
use x402_adn::config::{data_dir, http_port, rpc_timeout_ms, snapshot_bytes};
use x402_adn::error::FacilitatorError;
use x402_adn::storage::AgentDebitNoteStorage;
use x402_adn::text::{decimal_text, hex16, parse_decimal, strip_hex_prefix, trim_text};
use x402_adn::word::{hash, merge, parse_word_hex, word_to_hex, Word};

const ORDER: u64 = 0xffff_ffff_0000_0001;

#[test]
fn words_hold_field_elements() {
    assert_eq!(
        Word::new([ORDER, ORDER + 5, ORDER - 1, u64::MAX]).elements(),
        [0, 5, ORDER - 1, 0xffff_fffe]
    );
}

#[test]
fn word_text_round_trip() {
    let w = Word::new([1, 2, ORDER - 1, 0x0102_0304_0506_0708]);
    let text = word_to_hex(w);
    assert_eq!(
        text,
        "0x0100000000000000020000000000000000000000ffffffff0807060504030201"
    );
    assert_eq!(parse_word_hex(&text).unwrap().elements(), w.elements());
    assert_eq!(parse_word_hex(&text[2..]).unwrap().elements(), w.elements());
    assert_eq!(
        parse_word_hex(&text[2..].to_uppercase()).unwrap().elements(),
        w.elements()
    );
}

#[test]
fn text_that_is_no_word_is_malformed() {
    match parse_word_hex("0x123") {
        Err(FacilitatorError::Malformed(m)) => assert_eq!(m, "hex Word: Odd number of digits"),
        _ => panic!("odd number of digits"),
    }
    match parse_word_hex("0x12") {
        Err(FacilitatorError::Malformed(m)) => assert!(m.starts_with("Word from bytes: ")),
        _ => panic!("too short"),
    }
    match parse_word_hex(&"ff".repeat(32)) {
        Err(e) => assert!(e.text().starts_with("Word from bytes: ")),
        Ok(_) => panic!("not canonical"),
    }
    assert_eq!(parse_word_hex(&"00".repeat(33)).unwrap().elements(), [0; 4]);
}

#[test]
fn digests_are_poseidon2() {
    let a = [1, 2, 3, 4];
    let b = [5, 6, 7, 8];
    let outside = Hasher::merge(&[
        miden_protocol::Word::new(a.map(Felt::new)),
        miden_protocol::Word::new(b.map(Felt::new)),
    ]);
    assert_eq!(
        merge(Word::new(a), Word::new(b)).elements(),
        outside.into_elements().map(|f| f.as_canonical_u64())
    );
    assert_ne!(
        merge(Word::new(b), Word::new(a)).elements(),
        merge(Word::new(a), Word::new(b)).elements()
    );
    assert_eq!(
        hash(b"debit").elements(),
        Hasher::hash(b"debit").into_elements().map(|f| f.as_canonical_u64())
    );
}

#[test]
fn identifier_text_round_trip() {
    let text = "0x86535dca74a83d100febdc1560fbe8";
    let id = AccountId::from_hex(text).unwrap();
    assert_eq!(id.prefix(), 0x8653_5dca_74a8_3d10);
    assert_eq!(id.suffix(), 0x0feb_dc15_60fb_e800);
    assert_eq!(id.to_hex(), text);
    assert_eq!(
        AccountId::from_hex("0x86535DCA74A83D100FEBDC1560FBE8").unwrap().to_hex(),
        text
    );
}

#[test]
fn text_that_is_no_identifier_is_refused() {
    for text in [
        "",
        "86535dca74a83d100febdc1560fbe8",
        "0x86535dca74a83d100febdc1560fbe",
        "0x86535dca74a83d100febdc1560fbe8ff",
        "0x86535dca74a83d100febdc1560fbg8",
        "0x86535dca74a83d110febdc1560fbe8",
        "0x86535dca74a83dd00febdc1560fbe8",
        "0x86535dca74a83d108febdc1560fbe8",
        "0xffffffffffffff100febdc1560fbe8",
    ] {
        let outside = miden_protocol::account::AccountId::from_hex(text).unwrap_err();
        assert_eq!(AccountId::from_hex(text).unwrap_err(), outside.to_string());
    }
}

#[test]
fn note_storage_has_seven_items() {
    let user = AccountId::from_hex("0x86535dca74a83d100febdc1560fbe8").unwrap();
    let storage = AgentDebitNoteStorage::new(Word::new([11, 12, 13, 14]), user, 1_000_000);
    let items: Vec<u64> =
        NoteStorage::from(storage).items().iter().map(|f| f.as_canonical_u64()).collect();
    assert_eq!(
        items,
        vec![11, 12, 13, 14, 0x0feb_dc15_60fb_e800, 0x8653_5dca_74a8_3d10, 1_000_000]
    );
}

#[test]
fn prefixes_are_stripped_repeatedly() {
    assert_eq!(strip_hex_prefix("0x0x12"), "12");
    assert_eq!(strip_hex_prefix("0X12"), "0X12");
    assert_eq!(strip_hex_prefix("0"), "0");
    assert_eq!(strip_hex_prefix("x0x"), "x0x");
    assert_eq!(strip_hex_prefix(""), "");
}

#[test]
fn white_space_is_trimmed_as_std_does() {
    for s in ["  a b\n", "\u{3000}\u{2003}x\u{85}\u{a0}", "", " \t\r\n ", "\u{200b}y\u{200b}", "é "] {
        assert_eq!(trim_text(s), s.trim());
    }
}

#[test]
fn numbers_are_written_as_std_does() {
    for v in [0u64, 9, 10, 255, 1_000_000_007, u64::MAX] {
        assert_eq!(hex16(v), format!("{:016x}", v));
        assert_eq!(decimal_text(v), v.to_string());
    }
}

#[test]
fn decimal_numbers_are_read_as_std_does() {
    for s in ["0", "+7", "007", "65535", "65536", "", "+", "-1", " 1", "1 ", "1a", "99999999999"] {
        assert_eq!(
            parse_decimal(s, 0xffff),
            s.parse::<u16>().ok().map(|v| v as u64),
            "{}",
            s
        );
        assert_eq!(parse_decimal(s, u64::MAX), s.parse::<u64>().ok(), "{}", s);
    }
    assert_eq!(parse_decimal("18446744073709551615", u64::MAX), Some(u64::MAX));
    assert_eq!(parse_decimal("18446744073709551616", u64::MAX), None);
}

#[test]
fn fixed_width_bytes() {
    let mut out = vec![9];
    push_be_u64(&mut out, 0x0102_0304_0506_0708);
    push_le_u64(&mut out, 0x0102_0304_0506_0708);
    assert_eq!(out, vec![9, 1, 2, 3, 4, 5, 6, 7, 8, 8, 7, 6, 5, 4, 3, 2, 1]);
    assert_eq!(read_be_u64(&out, 1), 0x0102_0304_0506_0708);
    assert_eq!(read_le_u64(&out, 9), 0x0102_0304_0506_0708);
    assert_eq!(read_le_u64(&[0xff; 8], 0), u64::MAX);
}

#[test]
fn clock_counts_microseconds() {
    assert_eq!(micros_or_zero(None), 0);
    assert_eq!(micros_or_zero(Some(17)), 17);
    assert_eq!(micros_or_zero(Some((1u128 << 64) + 3)), 3);
    assert!(now_micros() > 1_600_000_000_000_000);
}

#[test]
fn settings_have_defaults() {
    assert_eq!(http_port(None), 7002);
    assert_eq!(http_port(Some("8080".to_string())), 8080);
    assert_eq!(http_port(Some("70000".to_string())), 7002);
    assert_eq!(http_port(Some("http".to_string())), 7002);
    assert_eq!(rpc_timeout_ms(None), 20_000);
    assert_eq!(rpc_timeout_ms(Some("5".to_string())), 5);
    assert_eq!(rpc_timeout_ms(Some("5s".to_string())), 20_000);
    assert_eq!(data_dir(None), "./.x402-data");
    assert_eq!(data_dir(Some("/tmp/d".to_string())), "/tmp/d");
}

#[test]
fn snapshots_are_base64() {
    assert_eq!(snapshot_bytes(" aGVsbG8=\n").unwrap(), b"hello".to_vec());
    assert_eq!(snapshot_bytes("").unwrap(), Vec::<u8>::new());
    assert_eq!(snapshot_bytes("////").unwrap(), vec![0xff, 0xff, 0xff]);
    assert_eq!(snapshot_bytes("/w==").unwrap(), vec![0xff]);
    assert!(snapshot_bytes("/x==").is_err());
    assert!(snapshot_bytes("aGVsbG8").is_err());
    assert_eq!(snapshot_bytes("a*==").unwrap_err(), "Invalid symbol 42, offset 1.");
}
