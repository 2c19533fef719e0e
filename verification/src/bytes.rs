//! Fixed-width big-endian and little-endian encodings of unsigned integers.

use vstd::prelude::*;

verus! {

/// The `n` big-endian bytes of `v`, the most significant first.
pub open spec fn be_bytes(v: nat, n: nat) -> Seq<u8>
    decreases n,
{
    if n == 0 {
        Seq::empty()
    } else {
        be_bytes(v / 256, (n - 1) as nat).push((v % 256) as u8)
    }
}

/// The number whose big-endian bytes are `s`.
pub open spec fn be_value(s: Seq<u8>) -> nat
    decreases s.len(),
{
    if s.len() == 0 {
        0
    } else {
        be_value(s.drop_last()) * 256 + s.last() as nat
    }
}

/// The `n` little-endian bytes of `v`, the least significant first.
pub open spec fn le_bytes(v: nat, n: nat) -> Seq<u8>
    decreases n,
{
    if n == 0 {
        Seq::empty()
    } else {
        seq![(v % 256) as u8] + le_bytes(v / 256, (n - 1) as nat)
    }
}

/// The number whose little-endian bytes are `s`.
pub open spec fn le_value(s: Seq<u8>) -> nat
    decreases s.len(),
{
    if s.len() == 0 {
        0
    } else {
        s[0] as nat + 256 * le_value(s.skip(1))
    }
}

/// 256 to the power `n`.
pub open spec fn pow256(n: nat) -> nat
    decreases n,
{
    if n == 0 {
        1
    } else {
        256 * pow256((n - 1) as nat)
    }
}

/// Eight bytes hold exactly the numbers below 2^64.
pub proof fn lemma_pow256_8()
    ensures
        pow256(8) == 0x1_0000_0000_0000_0000,
{
    reveal_with_fuel(pow256, 9);
}

pub proof fn lemma_be_len(v: nat, n: nat)
    ensures
        be_bytes(v, n).len() == n,
    decreases n,
{
    if n > 0 {
        lemma_be_len(v / 256, (n - 1) as nat);
    }
}

pub proof fn lemma_le_len(v: nat, n: nat)
    ensures
        le_bytes(v, n).len() == n,
    decreases n,
{
    if n > 0 {
        lemma_le_len(v / 256, (n - 1) as nat);
    }
}

/// Reading back the big-endian bytes of a number that fits gives the number.
pub proof fn lemma_be_round_trip(v: nat, n: nat)
    requires
        v < pow256(n),
    ensures
        be_bytes(v, n).len() == n,
        be_value(be_bytes(v, n)) == v,
    decreases n,
{
    if n > 0 {
        lemma_be_round_trip(v / 256, (n - 1) as nat);
        let head = be_bytes(v / 256, (n - 1) as nat);
        assert(be_bytes(v, n).drop_last() =~= head);
    }
}

/// Reading back the little-endian bytes of a number that fits gives the number.
pub proof fn lemma_le_round_trip(v: nat, n: nat)
    requires
        v < pow256(n),
    ensures
        le_bytes(v, n).len() == n,
        le_value(le_bytes(v, n)) == v,
    decreases n,
{
    if n > 0 {
        lemma_le_round_trip(v / 256, (n - 1) as nat);
        let tail = le_bytes(v / 256, (n - 1) as nat);
        assert(le_bytes(v, n).skip(1) =~= tail);
    }
}

/// A big-endian value is bounded by its width.
pub proof fn lemma_be_value_bound(s: Seq<u8>)
    ensures
        be_value(s) < pow256(s.len()),
    decreases s.len(),
{
    if s.len() > 0 {
        lemma_be_value_bound(s.drop_last());
    }
}

/// A little-endian value is bounded by its width.
pub proof fn lemma_le_value_bound(s: Seq<u8>)
    ensures
        le_value(s) < pow256(s.len()),
    decreases s.len(),
{
    if s.len() > 0 {
        lemma_le_value_bound(s.skip(1));
    }
}

fn push_be(out: &mut Vec<u8>, v: u64, n: u8)
    ensures
        final(out)@ == old(out)@ + be_bytes(v as nat, n as nat),
    decreases n,
{
    if n > 0 {
        push_be(out, v / 256, n - 1);
        out.push((v % 256) as u8);
    }
    assert(out@ =~= old(out)@ + be_bytes(v as nat, n as nat));
}

/// Appends the eight big-endian bytes of `v` to `out`.
pub fn push_be_u64(out: &mut Vec<u8>, v: u64)
    ensures
        final(out)@ == old(out)@ + be_bytes(v as nat, 8),
{
    push_be(out, v, 8);
}

fn push_le(out: &mut Vec<u8>, v: u64, n: u8)
    ensures
        final(out)@ == old(out)@ + le_bytes(v as nat, n as nat),
    decreases n,
{
    if n > 0 {
        out.push((v % 256) as u8);
        push_le(out, v / 256, n - 1);
    }
    assert(out@ =~= old(out)@ + le_bytes(v as nat, n as nat));
}

/// Appends the eight little-endian bytes of `v` to `out`.
pub fn push_le_u64(out: &mut Vec<u8>, v: u64)
    ensures
        final(out)@ == old(out)@ + le_bytes(v as nat, 8),
{
    push_le(out, v, 8);
}

/// Reads the eight bytes of `s` from `at` on as a big-endian number.
pub fn read_be_u64(s: &[u8], at: usize) -> (v: u64)
    requires
        at + 8 <= s@.len(),
    ensures
        v == be_value(s@.subrange(at as int, at + 8)),
{
    let len: usize = s.len();
    let mut v: u64 = 0;
    let mut i: usize = 0;
    assert(s@.subrange(at as int, at as int) =~= Seq::<u8>::empty());
    while i < 8
        invariant
            i <= 8,
            at + 8 <= len == s@.len(),
            v == be_value(s@.subrange(at as int, at + i)),
        decreases 8 - i,
    {
        proof {
            let seen = s@.subrange(at as int, at + i);
            let next = s@.subrange(at as int, at + i + 1);
            assert(next.drop_last() =~= seen);
            lemma_be_value_bound(next);
            lemma_pow256_mono(i as nat + 1, 8);
            lemma_pow256_8();
        }
        v = v * 256 + s[at + i] as u64;
        i = i + 1;
    }
    v
}

/// Reads the eight bytes of `s` from `at` on as a little-endian number.
pub fn read_le_u64(s: &[u8], at: usize) -> (v: u64)
    requires
        at + 8 <= s@.len(),
    ensures
        v == le_value(s@.subrange(at as int, at + 8)),
{
    let len: usize = s.len();
    let mut v: u64 = 0;
    let mut i: usize = 8;
    assert(s@.subrange(at + 8, at + 8) =~= Seq::<u8>::empty());
    while i > 0
        invariant
            i <= 8,
            at + 8 <= len == s@.len(),
            v == le_value(s@.subrange(at + i, at + 8)),
        decreases i,
    {
        proof {
            let seen = s@.subrange(at + i, at + 8);
            let next = s@.subrange(at + i - 1, at + 8);
            assert(next.skip(1) =~= seen);
            lemma_le_value_bound(next);
            lemma_pow256_mono((9 - i) as nat, 8);
            lemma_pow256_8();
        }
        i = i - 1;
        v = v * 256 + s[at + i] as u64;
    }
    v
}

pub proof fn lemma_pow256_mono(m: nat, n: nat)
    requires
        m <= n,
    ensures
        pow256(m) <= pow256(n),
    decreases n,
{
    if m < n {
        lemma_pow256_mono(m, (n - 1) as nat);
    }
}

/// The first of big-endian bytes counts most: a power of 256 for each byte behind it.
pub proof fn law_be_value_of_the_first_byte(b: u8, s: Seq<u8>)
    ensures
        be_value(Seq::empty()) == 0,
        be_value(seq![b] + s) == b * vstd::arithmetic::power::pow(256, s.len()) + be_value(s),
    decreases s.len(),
{
    let t = seq![b] + s;
    vstd::arithmetic::power::lemma_pow0(256);
    if s.len() == 0 {
        assert(t.drop_last() =~= Seq::<u8>::empty());
        assert(t.last() == b);
        assert(be_value(t.drop_last()) == 0);
    } else {
        let p = vstd::arithmetic::power::pow(256, (s.len() - 1) as nat);
        law_be_value_of_the_first_byte(b, s.drop_last());
        assert(t.drop_last() =~= seq![b] + s.drop_last());
        vstd::arithmetic::power::lemma_pow_adds(256, 1, (s.len() - 1) as nat);
        vstd::arithmetic::power::lemma_pow1(256);
        assert(256 * (b * p) == b * (256 * p)) by (nonlinear_arith);
    }
}

/// Little-endian bytes have the value of the same bytes in big-endian order turned round.
pub proof fn law_le_value_is_be_value_turned_round(s: Seq<u8>)
    ensures
        le_value(s) == be_value(s.reverse()),
    decreases s.len(),
{
    if s.len() > 0 {
        let r = s.reverse();
        law_le_value_is_be_value_turned_round(s.skip(1));
        assert(r.drop_last() =~= s.skip(1).reverse());
        assert(r.last() == s[0]);
    }
}

/// The big-endian bytes of a number have its value and fill the width; the little-endian ones are
/// the same turned round.
pub proof fn law_bytes_have_the_value(v: nat, n: nat)
    requires
        v < vstd::arithmetic::power::pow(256, n),
    ensures
        be_bytes(v, n).len() == n,
        be_value(be_bytes(v, n)) == v,
        le_bytes(v, n) == be_bytes(v, n).reverse(),
{
    lemma_pow256_is_power(n);
    lemma_be_round_trip(v, n);
    lemma_le_is_reversed(v, n);
}

proof fn lemma_pow256_is_power(n: nat)
    ensures
        pow256(n) == vstd::arithmetic::power::pow(256, n),
    decreases n,
{
    if n == 0 {
        vstd::arithmetic::power::lemma_pow0(256);
    } else {
        lemma_pow256_is_power((n - 1) as nat);
        vstd::arithmetic::power::lemma_pow_adds(256, 1, (n - 1) as nat);
        vstd::arithmetic::power::lemma_pow1(256);
    }
}

proof fn lemma_le_is_reversed(v: nat, n: nat)
    ensures
        le_bytes(v, n) == be_bytes(v, n).reverse(),
    decreases n,
{
    if n > 0 {
        lemma_le_is_reversed(v / 256, (n - 1) as nat);
        lemma_be_len(v / 256, (n - 1) as nat);
        let head = be_bytes(v / 256, (n - 1) as nat);
        assert(head.push((v % 256) as u8).reverse() =~= seq![(v % 256) as u8] + head.reverse());
    } else {
        assert(le_bytes(v, n) =~= be_bytes(v, n).reverse());
    }
}

} // verus!
