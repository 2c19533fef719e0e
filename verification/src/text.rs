//! Text helpers: prefixes, white space, digits and concatenation.

use vstd::prelude::*;

verus! {

/// `s` without any number of leading `0x`.
pub open spec fn strip_0x(s: Seq<char>) -> Seq<char>
    decreases s.len(),
{
    if s.len() >= 2 && s[0] == '0' && s[1] == 'x' {
        strip_0x(s.skip(2))
    } else {
        s
    }
}

/// The characters with the Unicode property `White_Space`.
pub open spec fn is_white_space(c: char) -> bool {
    let u = c as u32;
    ||| 0x9 <= u <= 0xd
    ||| u == 0x20
    ||| u == 0x85
    ||| u == 0xa0
    ||| u == 0x1680
    ||| 0x2000 <= u <= 0x200a
    ||| u == 0x2028
    ||| u == 0x2029
    ||| u == 0x202f
    ||| u == 0x205f
    ||| u == 0x3000
}

/// `s` without its leading white space.
pub open spec fn trim_start(s: Seq<char>) -> Seq<char>
    decreases s.len(),
{
    if s.len() > 0 && is_white_space(s[0]) {
        trim_start(s.skip(1))
    } else {
        s
    }
}

/// `s` without its trailing white space.
pub open spec fn trim_end(s: Seq<char>) -> Seq<char>
    decreases s.len(),
{
    if s.len() > 0 && is_white_space(s.last()) {
        trim_end(s.drop_last())
    } else {
        s
    }
}

/// `s` without the white space at either end.
pub open spec fn trim(s: Seq<char>) -> Seq<char> {
    trim_end(trim_start(s))
}

/// The lower-case digit of `d` in base 16.
pub open spec fn digit_char(d: int) -> char {
    if 0 <= d < 10 {
        ('0' as int + d) as char
    } else {
        ('a' as int + d - 10) as char
    }
}

/// What a base-16 digit of either case stands for.
pub open spec fn digit_value(c: char) -> Option<int> {
    if '0' <= c <= '9' {
        Some(c as int - '0' as int)
    } else if 'a' <= c <= 'f' {
        Some(c as int - 'a' as int + 10)
    } else if 'A' <= c <= 'F' {
        Some(c as int - 'A' as int + 10)
    } else {
        None
    }
}

/// The `n` lower-case base-16 digits of `v`, the most significant first.
pub open spec fn hex_digits(v: nat, n: nat) -> Seq<char>
    decreases n,
{
    if n == 0 {
        Seq::empty()
    } else {
        hex_digits(v / 16, (n - 1) as nat).push(digit_char((v % 16) as int))
    }
}

/// Every character of `s` is a base-16 digit.
pub open spec fn all_hex(s: Seq<char>) -> bool {
    forall|i: int| 0 <= i < s.len() ==> digit_value(#[trigger] s[i]) is Some
}

/// The number that the base-16 digits of `s` spell.
pub open spec fn hex_value(s: Seq<char>) -> nat
    decreases s.len(),
{
    if s.len() == 0 {
        0
    } else {
        hex_value(s.drop_last()) * 16 + (digit_value(s.last())->0) as nat
    }
}

/// The digits of a number that may have a plus sign before them.
pub open spec fn unsigned(s: Seq<char>) -> Seq<char> {
    if s.len() > 0 && s[0] == '+' {
        s.skip(1)
    } else {
        s
    }
}

/// Every character of `s` is a decimal digit.
pub open spec fn all_decimal(s: Seq<char>) -> bool {
    forall|i: int| 0 <= i < s.len() ==> '0' <= #[trigger] s[i] <= '9'
}

/// The number that the decimal digits of `s` spell.
pub open spec fn decimal_value(s: Seq<char>) -> nat
    decreases s.len(),
{
    if s.len() == 0 {
        0
    } else {
        decimal_value(s.drop_last()) * 10 + (s.last() as int - '0' as int) as nat
    }
}

/// The number up to `max` that decimal text spells, with or without a plus sign.
pub open spec fn decimal_number(s: Seq<char>, max: nat) -> Option<nat> {
    let d = unsigned(s);
    if d.len() > 0 && all_decimal(d) && decimal_value(d) <= max {
        Some(decimal_value(d))
    } else {
        None
    }
}

/// The decimal digits of `v`, without leading zeros.
pub open spec fn decimal(v: nat) -> Seq<char>
    decreases v,
{
    if v < 10 {
        seq![digit_char(v as int)]
    } else {
        decimal(v / 10).push(digit_char((v % 10) as int))
    }
}

/// `s` without any number of leading `0x`.
pub fn strip_hex_prefix(s: &str) -> (r: &str)
    ensures
        r@ == strip_0x(s@),
{
    let n: usize = s.unicode_len();
    let mut at: usize = 0;
    assert(s@.skip(0) =~= s@);
    while n - at >= 2 && s.get_char(at) == '0' && s.get_char(at + 1) == 'x'
        invariant
            at <= n,
            n == s@.len(),
            strip_0x(s@) == strip_0x(s@.skip(at as int)),
        decreases n - at,
    {
        assert(s@.skip(at as int).skip(2) =~= s@.skip(at + 2));
        at = at + 2;
    }
    let r = s.substring_char(at, n);
    assert(r@ =~= s@.skip(at as int));
    r
}

fn white_space(c: char) -> (r: bool)
    ensures
        r == is_white_space(c),
{
    let u: u32 = c as u32;
    (0x9 <= u && u <= 0xd) || u == 0x20 || u == 0x85 || u == 0xa0 || u == 0x1680 || (0x2000 <= u
        && u <= 0x200a) || u == 0x2028 || u == 0x2029 || u == 0x202f || u == 0x205f || u == 0x3000
}

/// `s` without the white space at either end.
pub fn trim_text(s: &str) -> (r: &str)
    ensures
        r@ == trim(s@),
{
    let n: usize = s.unicode_len();
    let mut from: usize = 0;
    assert(s@.skip(0) =~= s@);
    while from < n && white_space(s.get_char(from))
        invariant
            from <= n,
            n == s@.len(),
            trim_start(s@) == trim_start(s@.skip(from as int)),
        decreases n - from,
    {
        assert(s@.skip(from as int).skip(1) =~= s@.skip(from + 1));
        from = from + 1;
    }
    let ghost rest = s@.skip(from as int);
    assert(trim_start(s@) == rest);
    let mut to: usize = n;
    assert(s@.subrange(from as int, n as int) =~= rest);
    while to > from && white_space(s.get_char(to - 1))
        invariant
            from <= to <= n,
            n == s@.len(),
            trim_end(rest) == trim_end(s@.subrange(from as int, to as int)),
        decreases to,
    {
        assert(s@.subrange(from as int, to as int).drop_last() =~= s@.subrange(
            from as int,
            to - 1,
        ));
        to = to - 1;
    }
    s.substring_char(from, to)
}

/// The base-16 digit of `d`, as text.
fn digit_text(d: u8) -> (r: &'static str)
    requires
        d < 16,
    ensures
        r@ == seq![digit_char(d as int)],
{
    let table = "0123456789abcdef";
    proof {
        reveal_strlit("0123456789abcdef");
    }
    let r = table.substring_char(d as usize, d as usize + 1);
    assert(r@ =~= seq![digit_char(d as int)]);
    r
}

/// The `n` lower-case base-16 digits of `v`.
fn hex_text(v: u64, n: u8) -> (r: String)
    ensures
        r@ == hex_digits(v as nat, n as nat),
    decreases n,
{
    if n == 0 {
        String::new()
    } else {
        let mut r = hex_text(v / 16, n - 1);
        r.append(digit_text((v % 16) as u8));
        assert(r@ =~= hex_digits(v as nat, n as nat));
        r
    }
}

/// The sixteen lower-case base-16 digits of `v`.
pub fn hex16(v: u64) -> (r: String)
    ensures
        r@ == hex_digits(v as nat, 16),
{
    hex_text(v, 16)
}

/// `v` in decimal.
pub fn decimal_text(v: u64) -> (r: String)
    ensures
        r@ == decimal(v as nat),
    decreases v,
{
    if v < 10 {
        digit_text(v as u8).to_owned()
    } else {
        let mut r = decimal_text(v / 10);
        r.append(digit_text((v % 10) as u8));
        assert(r@ =~= decimal(v as nat));
        r
    }
}

proof fn lemma_decimal_prefix(s: Seq<char>, n: int)
    requires
        0 <= n <= s.len(),
    ensures
        decimal_value(s.take(n)) <= decimal_value(s),
    decreases s.len(),
{
    if n == s.len() {
        assert(s.take(n) =~= s);
    } else {
        lemma_decimal_prefix(s.drop_last(), n);
        assert(s.drop_last().take(n) =~= s.take(n));
    }
}

/// Reads a number up to `max` from decimal text, with or without a plus sign.
pub fn parse_decimal(s: &str, max: u64) -> (r: Option<u64>)
    ensures
        match r {
            Some(v) => decimal_number(s@, max as nat) == Some(v as nat),
            None => decimal_number(s@, max as nat) is None,
        },
{
    let n: usize = s.unicode_len();
    let start: usize = if n > 0 && s.get_char(0) == '+' {
        1
    } else {
        0
    };
    let ghost d = unsigned(s@);
    assert(d =~= s@.skip(start as int));
    if start >= n {
        return None;
    }
    let mut v: u64 = 0;
    let mut i: usize = start;
    assert(d.take(0) =~= Seq::<char>::empty());
    while i < n
        invariant
            n == s@.len(),
            start <= i <= n,
            d == unsigned(s@),
            d == s@.skip(start as int),
            all_decimal(d.take(i - start)),
            v == decimal_value(d.take(i - start)),
            v <= max,
        decreases n - i,
    {
        let c: char = s.get_char(i);
        assert(c == d[i - start]);
        if c < '0' || c > '9' {
            return None;
        }
        let digit: u64 = (c as u32 - '0' as u32) as u64;
        let ghost seen = d.take(i - start);
        let ghost next = d.take(i + 1 - start);
        assert(next.drop_last() =~= seen);
        assert(next.last() == c);
        proof {
            lemma_decimal_prefix(d, i + 1 - start);
        }
        if digit > max || v > (max - digit) / 10 {
            return None;
        }
        v = v * 10 + digit;
        assert forall|j: int| 0 <= j < next.len() implies '0' <= #[trigger] next[j] <= '9' by {
            if j < seen.len() {
                assert(seen[j] == next[j]);
            }
        }
        i = i + 1;
    }
    assert(d.take(n - start) =~= d);
    Some(v)
}

/// `a` followed by `b`.
pub fn join(a: &str, b: &str) -> (r: String)
    ensures
        r@ == a@ + b@,
{
    let mut r = a.to_owned();
    r.append(b);
    r
}

/// 16 to the power `n`.
pub open spec fn pow16(n: nat) -> nat
    decreases n,
{
    if n == 0 {
        1
    } else {
        16 * pow16((n - 1) as nat)
    }
}

/// Sixteen digits hold exactly the numbers below 2^64.
pub proof fn lemma_pow16_16()
    ensures
        pow16(16) == 0x1_0000_0000_0000_0000,
{
    reveal_with_fuel(pow16, 17);
}

/// Digits read back as what they were written for.
pub proof fn lemma_digit_round_trip(d: int)
    requires
        0 <= d < 16,
    ensures
        digit_value(digit_char(d)) == Some(d),
        digit_char(d) != 'x',
{
}

/// The digits of a number that fits spell the number.
pub proof fn lemma_hex_round_trip(v: nat, n: nat)
    requires
        v < pow16(n),
    ensures
        hex_digits(v, n).len() == n,
        all_hex(hex_digits(v, n)),
        hex_value(hex_digits(v, n)) == v,
    decreases n,
{
    if n > 0 {
        lemma_hex_round_trip(v / 16, (n - 1) as nat);
        lemma_digit_round_trip((v % 16) as int);
        assert(hex_digits(v, n).drop_last() =~= hex_digits(v / 16, (n - 1) as nat));
    }
}

/// Text of base-16 digits has no `0x` to lose.
pub proof fn lemma_strip_digits(s: Seq<char>)
    requires
        all_hex(s),
    ensures
        strip_0x(s) == s,
{
    if s.len() >= 2 {
        assert(digit_value(s[1]) is Some);
    }
}

/// Text of base-16 digits behind one `0x` loses just that.
pub proof fn lemma_strip_prefixed(s: Seq<char>)
    requires
        all_hex(s),
    ensures
        strip_0x("0x"@ + s) == s,
{
    reveal_strlit("0x");
    let t = "0x"@ + s;
    assert(t.skip(2) =~= s);
    lemma_strip_digits(s);
}

/// Stripping takes away whole `0x` from the start, as many as there are, and nothing else.
pub proof fn law_strip_0x(s: Seq<char>)
    ensures
        ({
            let r = strip_0x(s);
            let n = s.len() - r.len();
            &&& 0 <= n <= s.len()
            &&& n % 2 == 0
            &&& r == s.skip(n)
            &&& forall|i: int|
                0 <= i < n ==> #[trigger] s[i] == (if i % 2 == 0 {
                    '0'
                } else {
                    'x'
                })
            &&& !(r.len() >= 2 && r[0] == '0' && r[1] == 'x')
        }),
    decreases s.len(),
{
    let n = s.len() - strip_0x(s).len();
    if s.len() >= 2 && s[0] == '0' && s[1] == 'x' {
        law_strip_0x(s.skip(2));
        assert(s.skip(2).skip(n - 2) =~= s.skip(n));
        assert forall|i: int| 0 <= i < n implies #[trigger] s[i] == (if i % 2 == 0 {
            '0'
        } else {
            'x'
        }) by {
            if i >= 2 {
                assert(s.skip(2)[i - 2] == s[i]);
            }
        }
    } else {
        assert(s.skip(0) =~= s);
    }
}

/// White space is the six ASCII characters and the nineteen others that Unicode counts as such.
pub proof fn law_white_space(c: char)
    ensures
        c <= '\u{7f}' ==> (is_white_space(c) <==> c == ' ' || c == '\t' || c == '\n' || c == '\u{b}'
            || c == '\u{c}' || c == '\r'),
        c > '\u{7f}' ==> (is_white_space(c) <==> c == '\u{85}' || c == '\u{a0}' || c == '\u{1680}'
            || '\u{2000}' <= c <= '\u{200a}' || c == '\u{2028}' || c == '\u{2029}' || c
            == '\u{202f}' || c == '\u{205f}' || c == '\u{3000}'),
{
}

/// The end of leading white space.
spec fn start_of(s: Seq<char>) -> int
    decreases s.len(),
{
    if s.len() > 0 && is_white_space(s[0]) {
        1 + start_of(s.skip(1))
    } else {
        0
    }
}

proof fn lemma_trim_start(s: Seq<char>)
    ensures
        0 <= start_of(s) <= s.len(),
        trim_start(s) == s.skip(start_of(s)),
        forall|k: int| 0 <= k < start_of(s) ==> is_white_space(#[trigger] s[k]),
        start_of(s) < s.len() ==> !is_white_space(s[start_of(s)]),
    decreases s.len(),
{
    if s.len() > 0 && is_white_space(s[0]) {
        let t = s.skip(1);
        lemma_trim_start(t);
        assert(t.skip(start_of(t)) =~= s.skip(start_of(s)));
        assert forall|k: int| 0 <= k < start_of(s) implies is_white_space(#[trigger] s[k]) by {
            if k > 0 {
                assert(t[k - 1] == s[k]);
            }
        }
    } else {
        assert(s.skip(0) =~= s);
    }
}

proof fn lemma_trim_end(s: Seq<char>)
    ensures
        trim_end(s).len() <= s.len(),
        trim_end(s) == s.take(trim_end(s).len() as int),
        forall|k: int| trim_end(s).len() <= k < s.len() ==> is_white_space(#[trigger] s[k]),
        trim_end(s).len() > 0 ==> !is_white_space(s[trim_end(s).len() - 1]),
    decreases s.len(),
{
    if s.len() > 0 && is_white_space(s.last()) {
        let t = s.drop_last();
        lemma_trim_end(t);
        let n = trim_end(t).len() as int;
        assert(t.take(n) =~= s.take(n));
        assert forall|k: int| n <= k < s.len() implies is_white_space(#[trigger] s[k]) by {
            if k < t.len() {
                assert(t[k] == s[k]);
            }
        }
    } else {
        assert(s.take(s.len() as int) =~= s);
    }
}

/// Trimming keeps what stands between the first and the last character that is no white space.
pub proof fn law_trim(s: Seq<char>)
    ensures
        exists|i: int, j: int|
            0 <= i <= j <= s.len() && trim(s) == #[trigger] s.subrange(i, j) && (forall|k: int|
                0 <= k < s.len() && (k < i || k >= j) ==> is_white_space(#[trigger] s[k])) && (i < j
                ==> !is_white_space(s[i]) && !is_white_space(s[j - 1])),
{
    lemma_trim_start(s);
    let i = start_of(s);
    let t = s.skip(i);
    lemma_trim_end(t);
    let n = trim_end(t).len() as int;
    let j = i + n;
    assert(t.take(n) =~= s.subrange(i, j));
    assert forall|k: int| 0 <= k < s.len() && (k < i || k >= j) implies is_white_space(
        #[trigger] s[k],
    ) by {
        if k >= j {
            assert(t[k - i] == s[k]);
        }
    }
    if i < j {
        assert(t[n - 1] == s[j - 1]);
        assert(t[0] == s[i]);
    }
}

/// White space around text that neither starts nor ends with any is what trimming takes away.
pub proof fn law_trim_padded(before: Seq<char>, s: Seq<char>, after: Seq<char>)
    requires
        forall|i: int| 0 <= i < before.len() ==> is_white_space(#[trigger] before[i]),
        forall|i: int| 0 <= i < after.len() ==> is_white_space(#[trigger] after[i]),
        s.len() > 0,
        !is_white_space(s[0]),
        !is_white_space(s.last()),
    ensures
        trim(before + s + after) == s,
{
    let t = before + s + after;
    law_trim(t);
    let (i, j) = choose|i: int, j: int|
        0 <= i <= j <= t.len() && trim(t) == #[trigger] t.subrange(i, j) && (forall|k: int|
            0 <= k < t.len() && (k < i || k >= j) ==> is_white_space(#[trigger] t[k])) && (i < j
            ==> !is_white_space(t[i]) && !is_white_space(t[j - 1]));
    let a = before.len() as int;
    let b = a + s.len();
    assert(t[a] == s[0]);
    assert(t[b - 1] == s.last());
    assert(i <= a && b <= j);
    if i < a {
        assert(t[i] == before[i]);
    }
    if j > b {
        assert(t[j - 1] == after[j - 1 - b]);
    }
    assert(t.subrange(a, b) =~= s);
}

/// The sixteen digits are those of the usual alphabet, and are read in either case.
pub proof fn law_digits(d: int, c: char)
    requires
        0 <= d < 16,
    ensures
        digit_char(d) == "0123456789abcdef"@[d],
        digit_value(c) == Some(d) <==> c == "0123456789abcdef"@[d] || c == "0123456789ABCDEF"@[d],
        digit_value(c) matches Some(v) ==> 0 <= v < 16,
{
    reveal_strlit("0123456789abcdef");
    reveal_strlit("0123456789ABCDEF");
}

/// The first of base-16 digits counts most: a power of sixteen for each digit behind it.
pub proof fn law_hex_value_of_the_first_digit(c: char, s: Seq<char>)
    requires
        digit_value(c) is Some,
    ensures
        hex_value(Seq::empty()) == 0,
        hex_value(seq![c] + s) == digit_value(c)->0 * vstd::arithmetic::power::pow(16, s.len())
            + hex_value(s),
    decreases s.len(),
{
    let t = seq![c] + s;
    vstd::arithmetic::power::lemma_pow0(16);
    if s.len() == 0 {
        assert(t.drop_last() =~= Seq::<char>::empty());
        assert(t.last() == c);
        assert(hex_value(t.drop_last()) == 0);
    } else {
        let p = vstd::arithmetic::power::pow(16, (s.len() - 1) as nat);
        law_hex_value_of_the_first_digit(c, s.drop_last());
        assert(t.drop_last() =~= seq![c] + s.drop_last());
        vstd::arithmetic::power::lemma_pow_adds(16, 1, (s.len() - 1) as nat);
        vstd::arithmetic::power::lemma_pow1(16);
        let d = digit_value(c)->0;
        assert(16 * (d * p) == d * (16 * p)) by (nonlinear_arith);
    }
}

/// Base-16 digits spell the number they are written for, at its width and in lower case.
pub proof fn law_hex_digits_spell(v: nat, n: nat)
    requires
        v < vstd::arithmetic::power::pow(16, n),
    ensures
        hex_digits(v, n).len() == n,
        hex_value(hex_digits(v, n)) == v,
        forall|i: int|
            0 <= i < n ==> '0' <= #[trigger] hex_digits(v, n)[i] <= '9' || 'a' <= hex_digits(
                v,
                n,
            )[i] <= 'f',
    decreases n,
{
    if n > 0 {
        vstd::arithmetic::power::lemma_pow_adds(16, 1, (n - 1) as nat);
        vstd::arithmetic::power::lemma_pow1(16);
        law_hex_digits_spell(v / 16, (n - 1) as nat);
        let head = hex_digits(v / 16, (n - 1) as nat);
        assert(hex_digits(v, n).drop_last() =~= head);
        assert forall|i: int| 0 <= i < n implies '0' <= #[trigger] hex_digits(v, n)[i] <= '9'
            || 'a' <= hex_digits(v, n)[i] <= 'f' by {
            if i < n - 1 {
                assert(head[i] == hex_digits(v, n)[i]);
            }
        }
    } else {
        vstd::arithmetic::power::lemma_pow0(16);
    }
}

/// The first of decimal digits counts most: a power of ten for each digit behind it.
pub proof fn law_decimal_value_of_the_first_digit(c: char, s: Seq<char>)
    requires
        '0' <= c <= '9',
        all_decimal(s),
    ensures
        decimal_value(Seq::empty()) == 0,
        decimal_value(seq![c] + s) == (c as int - '0' as int) * vstd::arithmetic::power::pow(
            10,
            s.len(),
        ) + decimal_value(s),
    decreases s.len(),
{
    let t = seq![c] + s;
    vstd::arithmetic::power::lemma_pow0(10);
    if s.len() == 0 {
        assert(t.drop_last() =~= Seq::<char>::empty());
        assert(t.last() == c);
        assert(decimal_value(t.drop_last()) == 0);
    } else {
        let p = vstd::arithmetic::power::pow(10, (s.len() - 1) as nat);
        law_decimal_value_of_the_first_digit(c, s.drop_last());
        assert(t.drop_last() =~= seq![c] + s.drop_last());
        vstd::arithmetic::power::lemma_pow_adds(10, 1, (s.len() - 1) as nat);
        vstd::arithmetic::power::lemma_pow1(10);
        let d = c as int - '0' as int;
        assert(10 * (d * p) == d * (10 * p)) by (nonlinear_arith);
    }
}

/// The decimal text of a number is of digits, spells the number, and starts with no zero but for
/// the number zero.
pub proof fn law_decimal_spells(v: nat)
    ensures
        decimal(v).len() > 0,
        all_decimal(decimal(v)),
        decimal_value(decimal(v)) == v,
        v > 0 ==> decimal(v)[0] != '0',
    decreases v,
{
    if v >= 10 {
        law_decimal_spells(v / 10);
        let head = decimal(v / 10);
        assert(decimal(v).drop_last() =~= head);
        assert forall|i: int| 0 <= i < decimal(v).len() implies '0' <= #[trigger] decimal(v)[i]
            <= '9' by {
            if i < head.len() {
                assert(head[i] == decimal(v)[i]);
            }
        }
        assert(decimal(v)[0] == head[0]);
    } else {
        assert(decimal(v).drop_last() =~= Seq::<char>::empty());
        assert(decimal_value(decimal(v).drop_last()) == 0);
    }
}

/// Decimal text is read as the number that it spells, up to the greatest allowed, with a plus sign
/// or without; other text is not read.
pub proof fn law_decimal_number(s: Seq<char>, v: nat, max: nat)
    ensures
        s.len() > 0 && (forall|i: int| 0 <= i < s.len() ==> '0' <= #[trigger] s[i] <= '9') ==> {
            &&& decimal_value(s) <= max ==> decimal_number(s, max) == Some(decimal_value(s))
            &&& decimal_value(s) > max ==> decimal_number(s, max) is None
            &&& decimal_number(seq!['+'] + s, max) == decimal_number(s, max)
        },
        v <= max ==> decimal_number(decimal(v), max) == Some(v),
        v <= max ==> decimal_number(seq!['+'] + decimal(v), max) == Some(v),
        v > max ==> decimal_number(decimal(v), max) is None,
        decimal_number(s, max) matches Some(n) ==> n <= max && s.len() > 0 && decimal_value(
            if s[0] == '+' {
                s.skip(1)
            } else {
                s
            },
        ) == n,
        s.len() == 0 || s == seq!['+'] ==> decimal_number(s, max) is None,
        (exists|i: int| 0 < i < s.len() && !('0' <= #[trigger] s[i] <= '9'))
            ==> decimal_number(s, max) is None,
        s.len() > 0 && s[0] != '+' && !('0' <= s[0] <= '9') ==> decimal_number(s, max) is None,
{
    law_decimal_spells(v);
    let d = decimal(v);
    assert('0' <= d[0] <= '9');
    assert((seq!['+'] + d).skip(1) =~= d);
    assert((seq!['+'] + s).skip(1) =~= s);
    if exists|i: int| 0 < i < s.len() && !('0' <= #[trigger] s[i] <= '9') {
        let i = choose|i: int| 0 < i < s.len() && !('0' <= #[trigger] s[i] <= '9');
        if s[0] == '+' {
            assert(s.skip(1)[i - 1] == s[i]);
        }
    }
}

pub proof fn lemma_pow16_is_power(n: nat)
    ensures
        pow16(n) == vstd::arithmetic::power::pow(16, n),
    decreases n,
{
    if n == 0 {
        vstd::arithmetic::power::lemma_pow0(16);
    } else {
        lemma_pow16_is_power((n - 1) as nat);
        vstd::arithmetic::power::lemma_pow_adds(16, 1, (n - 1) as nat);
        vstd::arithmetic::power::lemma_pow1(16);
    }
}

} // verus!
