//! Base-16 and base-64 text.

use vstd::prelude::*;

use crate::text;

verus! {

/// The lower-case base-16 text of `data`, two digits to a byte.
pub open spec fn hex_of(data: Seq<u8>) -> Seq<char> {
    Seq::new(
        2 * data.len(),
        |i: int|
            if i % 2 == 0 {
                text::digit_char(data[i / 2] as int / 16)
            } else {
                text::digit_char(data[i / 2] as int % 16)
            },
    )
}

/// Base-16 text that decodes: an even number of digits of either case.
pub open spec fn is_hex(s: Seq<char>) -> bool {
    s.len() % 2 == 0 && text::all_hex(s)
}

/// The bytes that base-16 text stands for.
pub open spec fn hex_bytes(s: Seq<char>) -> Seq<u8> {
    Seq::new(
        s.len() / 2,
        |i: int|
            (text::digit_value(s[2 * i])->0 * 16 + text::digit_value(s[2 * i + 1])->0) as u8,
    )
}

/// The first character from `i` on that is no digit.
pub open spec fn first_bad(s: Seq<char>, i: int) -> int
    decreases s.len() - i,
{
    if i >= s.len() || text::digit_value(s[i]) is None {
        i
    } else {
        first_bad(s, i + 1)
    }
}

/// A character that is quoted as it is.
pub open spec fn quoted_plainly(c: char) -> bool {
    ' ' <= c <= '~' && c != '\'' && c != '"' && c != '\\'
}

/// What is said of ASCII text that is not base 16, where its number of digits is odd, or its first
/// character that is no digit is quoted as it is.
pub open spec fn plain_hex_error(s: Seq<char>) -> Option<Seq<char>> {
    let i = first_bad(s, 0);
    if !vstd::utf8::is_ascii_chars(s) {
        None
    } else if s.len() % 2 == 1 {
        Some("Odd number of digits"@)
    } else if quoted_plainly(s[i]) {
        Some("Invalid character '"@ + seq![s[i]] + "' at position "@ + text::decimal(i as nat))
    } else {
        None
    }
}

/// What `hex::FromHexError` says of other text that is not base 16.
pub uninterp spec fn other_hex_error(s: Seq<char>) -> Seq<char>;

/// What is said of text that is not base 16.
pub open spec fn hex_error(s: Seq<char>) -> Seq<char> {
    match plain_hex_error(s) {
        Some(e) => e,
        None => other_hex_error(s),
    }
}

/// The character of the standard base-64 alphabet with index `v`.
pub open spec fn base64_char(v: int) -> u8 {
    if 0 <= v < 26 {
        ('A' as int + v) as u8
    } else if v < 52 {
        ('a' as int + v - 26) as u8
    } else if v < 62 {
        ('0' as int + v - 52) as u8
    } else if v == 62 {
        '+' as u8
    } else {
        '/' as u8
    }
}

/// The padded standard base-64 text of `data`, in ASCII.
pub open spec fn base64_of(data: Seq<u8>) -> Seq<u8>
    decreases data.len(),
{
    if data.len() == 0 {
        Seq::empty()
    } else {
        let a = data[0] as int;
        let b = if data.len() > 1 {
            data[1] as int
        } else {
            0
        };
        let c = if data.len() > 2 {
            data[2] as int
        } else {
            0
        };
        let pad = '=' as u8;
        let third = if data.len() > 1 {
            base64_char(b % 16 * 4 + c / 64)
        } else {
            pad
        };
        let fourth = if data.len() > 2 {
            base64_char(c % 64)
        } else {
            pad
        };
        let group = seq![base64_char(a / 4), base64_char(a % 4 * 16 + b / 16), third, fourth];
        if data.len() <= 3 {
            group
        } else {
            group + base64_of(data.skip(3))
        }
    }
}

/// What `base64::DecodeError` says of text that does not decode.
pub uninterp spec fn base64_error(s: Seq<u8>) -> Seq<char>;

/// `hex::encode`: two lower-case digits for each byte, the high half first.
#[verifier::external_body]
pub(crate) fn hex_encode(data: &[u8]) -> (r: String)
    ensures
        r@ == hex_of(data@),
{
    hex::encode(data)
}

/// `hex::decode`: accepts an even number of digits of either case and nothing else. Its error says
/// that the number is odd, or quotes the first character that is no digit.
#[verifier::external_body]
pub(crate) fn hex_decode(s: &str) -> (r: Result<Vec<u8>, String>)
    ensures
        match r {
            Ok(v) => is_hex(s@) && v@ == hex_bytes(s@),
            Err(e) => !is_hex(s@) && e@ == (match plain_hex_error(s@) {
                Some(m) => m,
                None => other_hex_error(s@),
            }),
        },
{
    hex::decode(s).map_err(|e| e.to_string())
}

/// `Engine::decode` of base64's `STANDARD` engine, which demands canonical padding and zero
/// trailing bits: it accepts exactly the text that encoding gives, and returns the bytes encoded.
/// What its error says is a function of the text.
#[verifier::external_body]
pub(crate) fn base64_decode(s: &[u8]) -> (r: Result<Vec<u8>, String>)
    ensures
        match r {
            Ok(v) => s@ == base64_of(v@),
            Err(e) => (forall|v: Seq<u8>| #[trigger] base64_of(v) != s@) && e@ == base64_error(s@),
        },
{
    base64::Engine::decode(&base64::engine::general_purpose::STANDARD, s).map_err(|e| e.to_string())
}

/// Base-16 text decodes to the bytes it was made from.
pub proof fn lemma_hex_of_round_trip(data: Seq<u8>)
    ensures
        is_hex(hex_of(data)),
        hex_bytes(hex_of(data)) == data,
{
    let s = hex_of(data);
    assert forall|i: int| 0 <= i < s.len() implies text::digit_value(#[trigger] s[i]) is Some by {
        text::lemma_digit_round_trip(data[i / 2] as int / 16);
        text::lemma_digit_round_trip(data[i / 2] as int % 16);
    }
    assert forall|i: int| 0 <= i < data.len() implies hex_bytes(s)[i] == data[i] by {
        assert((2 * i) / 2 == i && (2 * i) % 2 == 0);
        assert((2 * i + 1) / 2 == i && (2 * i + 1) % 2 == 1);
        text::lemma_digit_round_trip(data[i] as int / 16);
        text::lemma_digit_round_trip(data[i] as int % 16);
    }
    assert(hex_bytes(s) =~= data);
}

proof fn lemma_base64_char(v: int, w: int)
    requires
        0 <= v < 64,
        0 <= w < 64,
        base64_char(v) == base64_char(w),
    ensures
        v == w,
        base64_char(v) != '=' as u8,
{
}

proof fn lemma_base64_len(data: Seq<u8>)
    ensures
        base64_of(data).len() == (data.len() + 2) / 3 * 4,
    decreases data.len(),
{
    if data.len() > 3 {
        lemma_base64_len(data.skip(3));
    }
}

/// Byte `i` of `data`, and 0 beyond its end.
spec fn byte_or_zero(data: Seq<u8>, i: int) -> int {
    if i < data.len() {
        data[i] as int
    } else {
        0
    }
}

proof fn lemma_base64_head(data: Seq<u8>)
    requires
        data.len() > 0,
    ensures
        base64_of(data).len() >= 4,
        base64_of(data)[0] == base64_char(byte_or_zero(data, 0) / 4),
        base64_of(data)[1] == base64_char(
            byte_or_zero(data, 0) % 4 * 16 + byte_or_zero(data, 1) / 16,
        ),
        data.len() > 1 ==> base64_of(data)[2] == base64_char(
            byte_or_zero(data, 1) % 16 * 4 + byte_or_zero(data, 2) / 64,
        ),
        data.len() > 2 ==> base64_of(data)[3] == base64_char(byte_or_zero(data, 2) % 64),
        data.len() > 1 <==> base64_of(data)[2] != '=' as u8,
        data.len() > 2 <==> base64_of(data)[3] != '=' as u8,
        data.len() > 3 ==> base64_of(data).skip(4) == base64_of(data.skip(3)),
{
    let c = byte_or_zero(data, 1) % 16 * 4 + byte_or_zero(data, 2) / 64;
    let d = byte_or_zero(data, 2) % 64;
    lemma_base64_char(c, c);
    lemma_base64_char(d, d);
    if data.len() > 3 {
        assert(base64_of(data).skip(4) =~= base64_of(data.skip(3)));
    }
}

/// Base-64 text stands for one sequence of bytes only.
pub proof fn law_base64_unique(a: Seq<u8>, b: Seq<u8>)
    requires
        base64_of(a) == base64_of(b),
    ensures
        a == b,
    decreases a.len(),
{
    lemma_base64_len(a);
    lemma_base64_len(b);
    if a.len() == 0 || b.len() == 0 {
        assert(a =~= b);
    } else {
        let (a0, a1, a2) = (byte_or_zero(a, 0), byte_or_zero(a, 1), byte_or_zero(a, 2));
        let (b0, b1, b2) = (byte_or_zero(b, 0), byte_or_zero(b, 1), byte_or_zero(b, 2));
        lemma_base64_head(a);
        lemma_base64_head(b);
        lemma_base64_char(a0 / 4, b0 / 4);
        lemma_base64_char(a0 % 4 * 16 + a1 / 16, b0 % 4 * 16 + b1 / 16);
        if a.len() > 1 {
            lemma_base64_char(a1 % 16 * 4 + a2 / 64, b1 % 16 * 4 + b2 / 64);
        }
        if a.len() > 2 {
            lemma_base64_char(a2 % 64, b2 % 64);
        }
        if a.len() > 3 || b.len() > 3 {
            law_base64_unique(a.skip(3), b.skip(3));
            assert(a =~= a.take(3) + a.skip(3));
            assert(b =~= b.take(3) + b.skip(3));
            assert(a.take(3) =~= b.take(3));
        } else {
            assert(a =~= b);
        }
    }
}

/// Base-16 text is of digits of either case, two to a byte.
pub proof fn law_is_hex(s: Seq<char>)
    ensures
        is_hex(s) <==> s.len() % 2 == 0 && forall|i: int|
            0 <= i < s.len() ==> '0' <= #[trigger] s[i] <= '9' || 'a' <= s[i] <= 'f' || 'A' <= s[i]
                <= 'F',
{
    if is_hex(s) {
        assert forall|i: int| 0 <= i < s.len() implies '0' <= #[trigger] s[i] <= '9' || 'a' <= s[i]
            <= 'f' || 'A' <= s[i] <= 'F' by {
            assert(text::digit_value(s[i]) is Some);
        }
    }
}

proof fn lemma_two_digits(a: char, b: char)
    requires
        text::digit_value(a) is Some,
        text::digit_value(b) is Some,
    ensures
        text::hex_value(seq![a, b]) == text::digit_value(a)->0 * 16 + text::digit_value(b)->0,
{
    let s = seq![a, b];
    assert(s.drop_last() =~= seq![a]);
    assert(s.drop_last().drop_last() =~= Seq::<char>::empty());
    assert(text::hex_value(s.drop_last().drop_last()) == 0);
    assert(text::hex_value(s.drop_last()) == text::digit_value(a)->0);
}

/// Each pair of digits of base-16 text spells the byte in its place.
pub proof fn law_hex_bytes(s: Seq<char>)
    requires
        is_hex(s),
    ensures
        2 * hex_bytes(s).len() == s.len(),
        forall|i: int|
            0 <= i < hex_bytes(s).len() ==> #[trigger] hex_bytes(s)[i] == text::hex_value(
                s.subrange(2 * i, 2 * i + 2),
            ),
{
    assert forall|i: int| 0 <= i < hex_bytes(s).len() implies #[trigger] hex_bytes(s)[i]
        == text::hex_value(s.subrange(2 * i, 2 * i + 2)) by {
        assert(text::digit_value(s[2 * i]) is Some);
        assert(text::digit_value(s[2 * i + 1]) is Some);
        lemma_two_digits(s[2 * i], s[2 * i + 1]);
        assert(s.subrange(2 * i, 2 * i + 2) =~= seq![s[2 * i], s[2 * i + 1]]);
    }
}

/// The text of bytes has two lower-case digits for each, which spell it.
pub proof fn law_hex_of(data: Seq<u8>)
    ensures
        hex_of(data).len() == 2 * data.len(),
        forall|i: int|
            0 <= i < hex_of(data).len() ==> '0' <= #[trigger] hex_of(data)[i] <= '9' || 'a'
                <= hex_of(data)[i] <= 'f',
        forall|i: int|
            0 <= i < data.len() ==> #[trigger] data[i] == text::hex_value(
                hex_of(data).subrange(2 * i, 2 * i + 2),
            ),
{
    lemma_hex_of_round_trip(data);
    law_hex_bytes(hex_of(data));
    assert forall|i: int| 0 <= i < data.len() implies #[trigger] data[i] == text::hex_value(
        hex_of(data).subrange(2 * i, 2 * i + 2),
    ) by {
        assert(hex_bytes(hex_of(data))[i] == data[i]);
    }
}

proof fn lemma_first_bad(good: Seq<char>, c: char, rest: Seq<char>, i: int)
    requires
        text::all_hex(good),
        text::digit_value(c) is None,
        0 <= i <= good.len(),
    ensures
        first_bad(good + seq![c] + rest, i) == good.len(),
    decreases good.len() - i,
{
    let s = good + seq![c] + rest;
    if i < good.len() {
        assert(s[i] == good[i]);
        lemma_first_bad(good, c, rest, i + 1);
    } else {
        assert(s[i] == c);
    }
}

/// Of ASCII text with an even number of characters, the first that is no digit is quoted with its
/// place; an odd number is said to be odd.
pub proof fn law_hex_error(good: Seq<char>, c: char, rest: Seq<char>)
    requires
        text::all_hex(good),
        text::digit_value(c) is None,
        ' ' <= c <= '~',
        c != '\'' && c != '"' && c != '\\',
        vstd::utf8::is_ascii_chars(rest),
    ensures
        (good.len() + rest.len()) % 2 == 1 ==> hex_error(good + seq![c] + rest)
            == "Invalid character '"@ + seq![c] + "' at position "@ + text::decimal(good.len()),
        (good.len() + rest.len()) % 2 == 0 ==> hex_error(good + seq![c] + rest)
            == "Odd number of digits"@,
        good.len() % 2 == 1 ==> hex_error(good) == "Odd number of digits"@,
{
    let s = good + seq![c] + rest;
    lemma_first_bad(good, c, rest, 0);
    assert(s[good.len() as int] == c);
    assert forall|i: int| 0 <= i < good.len() implies '\0' <= #[trigger] good[i] <= '\u{7f}' by {
        assert(text::digit_value(good[i]) is Some);
    }
    assert forall|i: int| 0 <= i < s.len() implies '\0' <= #[trigger] s[i] <= '\u{7f}' by {
        if i < good.len() {
            assert(s[i] == good[i]);
        } else if i > good.len() {
            assert(s[i] == rest[i - good.len() - 1]);
        }
    }
}

/// The base-64 alphabet.
pub proof fn law_base64_char(v: int)
    requires
        0 <= v < 64,
    ensures
        base64_char(v) as int
            == "ABCDEFGHIJKLMNOPQRSTUVWXYZabcdefghijklmnopqrstuvwxyz0123456789+/"@[v] as int,
{
    reveal_strlit("ABCDEFGHIJKLMNOPQRSTUVWXYZabcdefghijklmnopqrstuvwxyz0123456789+/");
}

/// Three bytes are written as the four base-64 digits of the number whose bytes they are; one or
/// two are written as if zeros followed, with a pad for each byte that is not there.
pub proof fn law_base64_group(a: u8, b: u8, c: u8)
    ensures
        ({
            let n = a * 65536 + b * 256 + c;
            base64_of(seq![a, b, c]) == seq![
                base64_char(n / 262144),
                base64_char(n / 4096 % 64),
                base64_char(n / 64 % 64),
                base64_char(n % 64),
            ]
        }),
        ({
            let n = a * 65536 + b * 256;
            base64_of(seq![a, b]) == seq![
                base64_char(n / 262144),
                base64_char(n / 4096 % 64),
                base64_char(n / 64 % 64),
                61u8,
            ]
        }),
        ({
            let n = a * 65536;
            base64_of(seq![a]) == seq![
                base64_char(n / 262144),
                base64_char(n / 4096 % 64),
                61u8,
                61u8,
            ]
        }),
        base64_of(Seq::empty()) == Seq::<u8>::empty(),
{
    lemma_group_digits(a as int, b as int, c as int);
    lemma_group_digits(a as int, b as int, 0);
    lemma_group_digits(a as int, 0, 0);
    lemma_groups(a, b, c);
}

proof fn lemma_group_digits(x: int, y: int, z: int)
    requires
        0 <= x < 256,
        0 <= y < 256,
        0 <= z < 256,
    ensures
        (x * 65536 + y * 256 + z) / 262144 == x / 4,
        (x * 65536 + y * 256 + z) / 4096 % 64 == x % 4 * 16 + y / 16,
        (x * 65536 + y * 256 + z) / 64 % 64 == y % 16 * 4 + z / 64,
        (x * 65536 + y * 256 + z) % 64 == z % 64,
{
    let n = x * 65536 + y * 256 + z;
    assert(n / 262144 == x / 4);
    assert(n / 4096 == x * 16 + y / 16);
    assert((x * 16 + y / 16) % 64 == x % 4 * 16 + y / 16);
    assert(n / 64 == x * 1024 + y * 4 + z / 64);
    assert((x * 1024 + y * 4 + z / 64) % 64 == y % 16 * 4 + z / 64);
}

proof fn lemma_groups(a: u8, b: u8, c: u8)
    ensures
        base64_of(seq![a, b, c]) == seq![
            base64_char(a as int / 4),
            base64_char(a as int % 4 * 16 + b as int / 16),
            base64_char(b as int % 16 * 4 + c as int / 64),
            base64_char(c as int % 64),
        ],
        base64_of(seq![a, b]) == seq![
            base64_char(a as int / 4),
            base64_char(a as int % 4 * 16 + b as int / 16),
            base64_char(b as int % 16 * 4),
            61u8,
        ],
        base64_of(seq![a]) == seq![
            base64_char(a as int / 4),
            base64_char(a as int % 4 * 16),
            61u8,
            61u8,
        ],
{
}

/// Bytes are written three at a time: what follows whole groups is written behind them.
pub proof fn law_base64_of_groups(a: Seq<u8>, b: Seq<u8>)
    requires
        a.len() % 3 == 0,
    ensures
        base64_of(a + b) == base64_of(a) + base64_of(b),
    decreases a.len(),
{
    if a.len() == 0 {
        assert(a + b =~= b);
        assert(base64_of(a) + base64_of(b) =~= base64_of(b));
    } else {
        let t = a + b;
        law_base64_of_groups(a.skip(3), b);
        assert(t.skip(3) =~= a.skip(3) + b);
        if a.len() == 3 {
            assert(a.skip(3) =~= Seq::<u8>::empty());
            assert(a.skip(3) + b =~= b);
            if b.len() == 0 {
                assert(t =~= a);
                assert(base64_of(a) + base64_of(b) =~= base64_of(a));
            } else {
                assert(base64_of(t) =~= base64_of(a) + base64_of(b));
            }
        } else {
            assert(base64_of(t) =~= base64_of(a) + base64_of(b));
        }
    }
}

} // verus!
