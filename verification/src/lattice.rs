//! Which polynomials make a key.
//!
//! A key is a short basis of a lattice over the ring of integer polynomials in which the power
//! [`COEFFICIENTS`] is -1: the rows `(g, -f)` and `(G, -F)`, held as `[g, -f, G, -F]`. Signing
//! draws vectors by this basis until one is short enough, so both rows have to be short: the first
//! in itself, and the second in what the first cannot take away from it.

use vstd::prelude::*;

verus! {

/// Coefficients of a polynomial.
pub const COEFFICIENTS: usize = 512;

/// The modulus of the scheme.
pub const MODULUS: i64 = 12289;

/// Most that the squared length of a row may be: 1.17^2 times the modulus, in whole numbers.
pub const MAX_NORM: i64 = 16822;

/// Multipliers of the first row are whole numbers of this part of one.
pub const SCALE: i64 = 65536;

/// The inverse of a polynomial is computed in whole numbers of this part of one.
pub const UNIT: i64 = 0x1000_0000_0000;

/// Computed coefficients are kept within this bound.
pub const LIMIT: i64 = 0x1_0000_0000;

/// Rounds in which the inverse is computed.
pub const ROUNDS: usize = 26;

/// Term `i` of coefficient `k` of a product.
pub open spec fn term(a: Seq<int>, b: Seq<int>, k: int, i: int) -> int {
    if i <= k {
        a[i] * b[k - i]
    } else {
        -(a[i] * b[COEFFICIENTS + k - i])
    }
}

/// The sum of the first `n` terms of coefficient `k` of a product.
pub open spec fn terms(a: Seq<int>, b: Seq<int>, k: int, n: nat) -> int
    decreases n,
{
    if n == 0 {
        0
    } else {
        terms(a, b, k, (n - 1) as nat) + term(a, b, k, n - 1)
    }
}

/// The product of two polynomials.
pub open spec fn product(a: Seq<int>, b: Seq<int>) -> Seq<int> {
    Seq::new(COEFFICIENTS as nat, |k: int| terms(a, b, k, COEFFICIENTS as nat))
}

/// The sum of two polynomials.
pub open spec fn plus(a: Seq<int>, b: Seq<int>) -> Seq<int> {
    Seq::new(COEFFICIENTS as nat, |i: int| a[i] + b[i])
}

/// The difference of two polynomials.
pub open spec fn minus(a: Seq<int>, b: Seq<int>) -> Seq<int> {
    Seq::new(COEFFICIENTS as nat, |i: int| a[i] - b[i])
}

/// A polynomial times a number.
pub open spec fn times(c: int, a: Seq<int>) -> Seq<int> {
    Seq::new(COEFFICIENTS as nat, |i: int| c * a[i])
}

/// The polynomial that is a number.
pub open spec fn constant(c: int) -> Seq<int> {
    Seq::new(
        COEFFICIENTS as nat,
        |i: int|
            if i == 0 {
                c
            } else {
                0
            },
    )
}

/// The polynomial with the inverse of the variable in place of the variable.
pub open spec fn adjoint(a: Seq<int>) -> Seq<int> {
    Seq::new(
        COEFFICIENTS as nat,
        |i: int|
            if i == 0 {
                a[0]
            } else {
                -a[COEFFICIENTS - i]
            },
    )
}

/// The sum of the squares of the first `n` coefficients.
pub open spec fn squares(a: Seq<int>, n: nat) -> int
    decreases n,
{
    if n == 0 {
        0
    } else {
        squares(a, (n - 1) as nat) + a[n - 1] * a[n - 1]
    }
}

/// The squared length of a row.
pub open spec fn norm(a: Seq<int>, b: Seq<int>) -> int {
    squares(a, COEFFICIENTS as nat) + squares(b, COEFFICIENTS as nat)
}

/// A polynomial with coefficients of at most this size.
pub open spec fn small(a: Seq<int>, bound: int) -> bool {
    a.len() == COEFFICIENTS && forall|i: int|
        0 <= i < COEFFICIENTS ==> -bound <= #[trigger] a[i] <= bound
}

/// The basis has coefficients that its encoding has room for, its first row is short, and it
/// solves the key equation `f G - g F = q`.
pub open spec fn solves(basis: Seq<Seq<int>>) -> bool {
    &&& basis.len() == 4
    &&& small(basis[0], 31)
    &&& small(basis[1], 31)
    &&& small(basis[2], 127)
    &&& small(basis[3], 127)
    &&& norm(basis[0], basis[1]) <= MAX_NORM
    &&& minus(product(basis[0], basis[3]), product(basis[1], basis[2])) == constant(MODULUS as int)
}

/// What is left of [`SCALE`] times `a` when `k` times `b` is taken away.
pub open spec fn left_over(a: Seq<int>, b: Seq<int>, k: Seq<int>) -> Seq<int> {
    minus(times(SCALE as int, a), product(k, b))
}

/// The second row is short when `k / SCALE` times the first is taken away from it.
pub open spec fn shortens(basis: Seq<Seq<int>>, k: Seq<int>) -> bool {
    norm(left_over(basis[2], basis[0], k), left_over(basis[3], basis[1], k)) <= SCALE * SCALE * (
    MAX_NORM + 1)
}

/// The basis is that of a key to sign with.
pub open spec fn sound(basis: Seq<Seq<int>>) -> bool {
    solves(basis) && exists|k: Seq<int>| #[trigger] shortens(basis, k)
}

/// `v`, or the bound that it is beyond.
pub open spec fn clamped(v: int) -> int {
    if v > LIMIT {
        LIMIT as int
    } else if v < -LIMIT {
        -LIMIT
    } else {
        v
    }
}

/// The coefficients in whole numbers of `d`, within bounds.
pub open spec fn scaled_down(a: Seq<int>, d: int) -> Seq<int> {
    Seq::new(COEFFICIENTS as nat, |i: int| clamped(a[i] / d))
}

/// The sum of the sizes of the first `n` coefficients.
pub open spec fn sizes(a: Seq<int>, n: nat) -> int
    decreases n,
{
    if n == 0 {
        0
    } else {
        sizes(a, (n - 1) as nat) + if a[n - 1] < 0 {
            -a[n - 1]
        } else {
            a[n - 1]
        }
    }
}

/// The inverse of `a`, which is a sum of products of polynomials and their adjoints, by Newton's
/// method: from the inverse `x` of a bound on it, `x (2 - a x)` again and again.
pub open spec fn inverse(a: Seq<int>, rounds: nat) -> Seq<int>
    decreases rounds,
{
    if rounds == 0 {
        constant(clamped(UNIT as int / (1 + sizes(a, COEFFICIENTS as nat))))
    } else {
        let x = inverse(a, (rounds - 1) as nat);
        scaled_down(product(minus(constant(2 * UNIT), product(a, x)), x), UNIT as int)
    }
}

/// The product of the first row and its adjoint.
pub open spec fn gram(basis: Seq<Seq<int>>) -> Seq<int> {
    plus(product(basis[0], adjoint(basis[0])), product(basis[1], adjoint(basis[1])))
}

/// The product of the second row and the adjoint of the first.
pub open spec fn cross(basis: Seq<Seq<int>>) -> Seq<int> {
    plus(product(basis[2], adjoint(basis[0])), product(basis[3], adjoint(basis[1])))
}

/// The multiple of the first row that takes most away from the second, as nearly as the inverse
/// is computed.
pub open spec fn multiplier(basis: Seq<Seq<int>>) -> Seq<int> {
    scaled_down(
        product(inverse(gram(basis), ROUNDS as nat), cross(basis)),
        UNIT as int / SCALE as int,
    )
}

/// The basis is found to be that of a key.
pub open spec fn accepted(basis: Seq<Seq<int>>) -> bool {
    solves(basis) && shortens(basis, multiplier(basis))
}

/// A basis that is found to be that of a key is one.
pub proof fn law_accepted_is_sound(basis: Seq<Seq<int>>)
    requires
        accepted(basis),
    ensures
        sound(basis),
{
}

/// The coefficients of a polynomial.
pub open spec fn coefficients(a: Seq<i64>) -> Seq<int> {
    Seq::new(a.len(), |i: int| a[i] as int)
}

spec fn sums(a: Seq<i128>) -> Seq<int> {
    Seq::new(a.len(), |i: int| a[i] as int)
}

proof fn lemma_product_bound(x: int, y: int, p: int, q: int)
    requires
        -p <= x <= p,
        -q <= y <= q,
    ensures
        -(p * q) <= x * y <= p * q,
{
    assert(-(p * q) <= x * y <= p * q) by (nonlinear_arith)
        requires
            -p <= x <= p,
            -q <= y <= q,
    ;
}

fn coefficient_at(
    a: &Vec<i64>,
    b: &Vec<i64>,
    k: usize,
    Ghost(p): Ghost<int>,
    Ghost(q): Ghost<int>,
) -> (r: i128)
    requires
        small(coefficients(a@), p),
        small(coefficients(b@), q),
        k < COEFFICIENTS,
        0 <= p * q <= 0x1000_0000_0000_0000_0000_0000_0000,
    ensures
        r == terms(coefficients(a@), coefficients(b@), k as int, COEFFICIENTS as nat),
        -(COEFFICIENTS * (p * q)) <= r <= COEFFICIENTS * (p * q),
{
    let ghost ca = coefficients(a@);
    let ghost cb = coefficients(b@);
    let ghost pq = p * q;
    let mut sum: i128 = 0;
    let mut i: usize = 0;
    while i < COEFFICIENTS
        invariant
            i <= COEFFICIENTS,
            k < COEFFICIENTS,
            ca == coefficients(a@),
            cb == coefficients(b@),
            small(ca, p),
            small(cb, q),
            pq == p * q,
            0 <= pq <= 0x1000_0000_0000_0000_0000_0000_0000,
            sum == terms(ca, cb, k as int, i as nat),
            -(i * pq) <= sum <= i * pq,
        decreases COEFFICIENTS - i,
    {
        let j: usize = if i <= k {
            k - i
        } else {
            COEFFICIENTS + k - i
        };
        let x: i128 = a[i] as i128;
        let y: i128 = b[j] as i128;
        proof {
            assert(ca[i as int] == x && cb[j as int] == y);
            lemma_product_bound(x as int, y as int, p, q);
            assert((i + 1) * pq == i * pq + pq) by (nonlinear_arith);
            assert(i * pq <= COEFFICIENTS * pq) by (nonlinear_arith)
                requires
                    i <= COEFFICIENTS,
                    0 <= pq,
            ;
        }
        if i <= k {
            sum = sum + x * y;
        } else {
            sum = sum - x * y;
        }
        i = i + 1;
    }
    sum
}

fn product_of(
    a: &Vec<i64>,
    b: &Vec<i64>,
    Ghost(p): Ghost<int>,
    Ghost(q): Ghost<int>,
) -> (r: Vec<i128>)
    requires
        small(coefficients(a@), p),
        small(coefficients(b@), q),
        0 <= p * q <= 0x1000_0000_0000_0000_0000_0000_0000,
    ensures
        sums(r@) == product(coefficients(a@), coefficients(b@)),
        small(sums(r@), COEFFICIENTS * (p * q)),
{
    let mut r: Vec<i128> = Vec::new();
    let mut k: usize = 0;
    while k < COEFFICIENTS
        invariant
            k <= COEFFICIENTS,
            r@.len() == k,
            small(coefficients(a@), p),
            small(coefficients(b@), q),
            0 <= p * q <= 0x1000_0000_0000_0000_0000_0000_0000,
            forall|i: int|
                0 <= i < k ==> #[trigger] r@[i] == terms(
                    coefficients(a@),
                    coefficients(b@),
                    i,
                    COEFFICIENTS as nat,
                ) && -(COEFFICIENTS * (p * q)) <= r@[i] <= COEFFICIENTS * (p * q),
        decreases COEFFICIENTS - k,
    {
        r.push(coefficient_at(a, b, k, Ghost(p), Ghost(q)));
        k = k + 1;
    }
    assert(sums(r@) =~= product(coefficients(a@), coefficients(b@)));
    r
}

/// `v` in whole numbers of `d`, rounded down.
fn floor_div(v: i128, d: i128) -> (r: i128)
    requires
        d > 0,
        d <= 0x1_0000_0000_0000,
        -0x1_0000_0000_0000_0000_0000_0000_0000 <= v <= 0x1_0000_0000_0000_0000_0000_0000_0000,
    ensures
        r == v as int / d as int,
        -0x1_0000_0000_0000_0000_0000_0000_0000 <= r <= 0x1_0000_0000_0000_0000_0000_0000_0000,
{
    if v >= 0 {
        proof {
            assert(0 <= v as int / d as int <= v) by (nonlinear_arith)
                requires
                    v >= 0,
                    d > 0,
            ;
        }
        v / d
    } else {
        let n: i128 = -v + (d - 1);
        let q: i128 = n / d;
        proof {
            let rest = d * q + v;
            assert(n as int == d * q + n as int % d as int) by {
                vstd::arithmetic::div_mod::lemma_fundamental_div_mod(n as int, d as int);
            }
            assert(0 <= n as int % d as int && (n as int % d as int) < d);
            assert(v == d * (-q) + rest) by (nonlinear_arith)
                requires
                    rest == d * q + v,
            ;
            vstd::arithmetic::div_mod::lemma_fundamental_div_mod_converse(
                v as int,
                d as int,
                -q,
                rest,
            );
            assert(0 <= q <= n) by (nonlinear_arith)
                requires
                    q == n as int / d as int,
                    n >= 0,
                    d > 0,
            ;
            assert(q <= -v) by (nonlinear_arith)
                requires
                    n == -v + (d - 1),
                    v < 0,
                    d > 0,
                    n == d * q + n as int % d as int,
                    0 <= n as int % d as int,
                    0 <= q,
            ;
        }
        -q
    }
}

fn scale_down(a: &Vec<i128>, d: i128) -> (r: Vec<i64>)
    requires
        small(sums(a@), 0x1_0000_0000_0000_0000_0000_0000_0000),
        0 < d <= 0x1_0000_0000_0000,
    ensures
        coefficients(r@) == scaled_down(sums(a@), d as int),
        small(coefficients(r@), LIMIT as int),
{
    let mut r: Vec<i64> = Vec::new();
    let mut i: usize = 0;
    while i < COEFFICIENTS
        invariant
            i <= COEFFICIENTS,
            r@.len() == i,
            small(sums(a@), 0x1_0000_0000_0000_0000_0000_0000_0000),
            0 < d <= 0x1_0000_0000_0000,
            forall|j: int|
                0 <= j < i ==> #[trigger] r@[j] == scaled_down(sums(a@), d as int)[j],
        decreases COEFFICIENTS - i,
    {
        assert(sums(a@)[i as int] == a@[i as int]);
        let v: i128 = floor_div(a[i], d);
        let c: i64 = if v > LIMIT as i128 {
            LIMIT
        } else if v < -(LIMIT as i128) {
            -LIMIT
        } else {
            v as i64
        };
        r.push(c);
        i = i + 1;
    }
    assert(coefficients(r@) =~= scaled_down(sums(a@), d as int));
    r
}

fn sum_of(a: &Vec<i128>, b: &Vec<i128>) -> (r: Vec<i64>)
    requires
        small(sums(a@), 0x1000_0000),
        small(sums(b@), 0x1000_0000),
    ensures
        coefficients(r@) == plus(sums(a@), sums(b@)),
{
    let mut r: Vec<i64> = Vec::new();
    let mut i: usize = 0;
    while i < COEFFICIENTS
        invariant
            i <= COEFFICIENTS,
            r@.len() == i,
            small(sums(a@), 0x1000_0000),
            small(sums(b@), 0x1000_0000),
            forall|j: int| 0 <= j < i ==> #[trigger] r@[j] == sums(a@)[j] + sums(b@)[j],
        decreases COEFFICIENTS - i,
    {
        assert(sums(a@)[i as int] == a@[i as int] && sums(b@)[i as int] == b@[i as int]);
        r.push((a[i] + b[i]) as i64);
        i = i + 1;
    }
    assert(coefficients(r@) =~= plus(sums(a@), sums(b@)));
    r
}

fn adjoint_of(a: &Vec<i64>) -> (r: Vec<i64>)
    requires
        small(coefficients(a@), 127),
    ensures
        coefficients(r@) == adjoint(coefficients(a@)),
{
    assert(coefficients(a@)[0] == a@[0]);
    let mut r: Vec<i64> = vec![a[0]];
    let mut i: usize = 1;
    while i < COEFFICIENTS
        invariant
            1 <= i <= COEFFICIENTS,
            r@.len() == i,
            small(coefficients(a@), 127),
            r@[0] == a@[0],
            forall|j: int| 1 <= j < i ==> #[trigger] r@[j] == -a@[COEFFICIENTS - j],
        decreases COEFFICIENTS - i,
    {
        assert(coefficients(a@)[COEFFICIENTS - i] == a@[COEFFICIENTS - i]);
        r.push(-a[COEFFICIENTS - i]);
        i = i + 1;
    }
    assert(coefficients(r@) =~= adjoint(coefficients(a@)));
    r
}

/// Twice [`UNIT`] minus the polynomial.
fn two_minus(a: &Vec<i128>) -> (r: Vec<i64>)
    requires
        small(sums(a@), 0x2000_0000_0000_0000),
    ensures
        coefficients(r@) == minus(constant(2 * UNIT), sums(a@)),
        small(coefficients(r@), 0x3000_0000_0000_0000),
{
    let mut r: Vec<i64> = Vec::new();
    let mut i: usize = 0;
    while i < COEFFICIENTS
        invariant
            i <= COEFFICIENTS,
            r@.len() == i,
            small(sums(a@), 0x2000_0000_0000_0000),
            forall|j: int|
                0 <= j < i ==> #[trigger] r@[j] == minus(constant(2 * UNIT), sums(a@))[j],
        decreases COEFFICIENTS - i,
    {
        assert(sums(a@)[i as int] == a@[i as int]);
        let v: i64 = a[i] as i64;
        if i == 0 {
            r.push(2 * UNIT - v);
        } else {
            r.push(-v);
        }
        i = i + 1;
    }
    proof {
        let want = minus(constant(2 * UNIT), sums(a@));
        assert(coefficients(r@) =~= want);
        assert forall|j: int| 0 <= j < COEFFICIENTS implies -0x3000_0000_0000_0000
            <= #[trigger] coefficients(r@)[j] <= 0x3000_0000_0000_0000 by {
            assert(sums(a@)[j] == a@[j]);
        }
    }
    r
}

fn left_over_of(a: &Vec<i64>, b: &Vec<i64>, k: &Vec<i64>) -> (r: Vec<i64>)
    requires
        small(coefficients(a@), 127),
        small(coefficients(b@), 31),
        small(coefficients(k@), LIMIT as int),
    ensures
        coefficients(r@) == left_over(coefficients(a@), coefficients(b@), coefficients(k@)),
        small(coefficients(r@), 0x8000_0000_0000),
{
    let p = product_of(k, b, Ghost(LIMIT as int), Ghost(31));
    let ghost want = left_over(coefficients(a@), coefficients(b@), coefficients(k@));
    let mut r: Vec<i64> = Vec::new();
    let mut i: usize = 0;
    while i < COEFFICIENTS
        invariant
            i <= COEFFICIENTS,
            r@.len() == i,
            small(coefficients(a@), 127),
            small(sums(p@), COEFFICIENTS * (LIMIT * 31)),
            sums(p@) == product(coefficients(k@), coefficients(b@)),
            want == left_over(coefficients(a@), coefficients(b@), coefficients(k@)),
            forall|j: int|
                0 <= j < i ==> #[trigger] r@[j] == want[j] && -0x8000_0000_0000 <= r@[j]
                    <= 0x8000_0000_0000,
        decreases COEFFICIENTS - i,
    {
        assert(sums(p@)[i as int] == p@[i as int]);
        assert(coefficients(a@)[i as int] == a@[i as int]);
        r.push(SCALE * a[i] - p[i] as i64);
        i = i + 1;
    }
    assert(coefficients(r@) =~= want);
    r
}

fn squares_of(a: &Vec<i64>) -> (r: i128)
    requires
        small(coefficients(a@), 0x8000_0000_0000),
    ensures
        r == squares(coefficients(a@), COEFFICIENTS as nat),
        0 <= r <= COEFFICIENTS * 0x4000_0000_0000_0000_0000_0000,
{
    let ghost c = coefficients(a@);
    let mut sum: i128 = 0;
    let mut i: usize = 0;
    while i < COEFFICIENTS
        invariant
            i <= COEFFICIENTS,
            c == coefficients(a@),
            small(c, 0x8000_0000_0000),
            sum == squares(c, i as nat),
            0 <= sum <= i * 0x4000_0000_0000_0000_0000_0000,
        decreases COEFFICIENTS - i,
    {
        let x: i128 = a[i] as i128;
        proof {
            assert(c[i as int] == x);
            lemma_product_bound(x as int, x as int, 0x8000_0000_0000, 0x8000_0000_0000);
            assert(x * x >= 0) by (nonlinear_arith);
        }
        sum = sum + x * x;
        i = i + 1;
    }
    sum
}

fn sizes_of(a: &Vec<i64>) -> (r: i64)
    requires
        small(coefficients(a@), 0x10_0000),
    ensures
        r == sizes(coefficients(a@), COEFFICIENTS as nat),
        0 <= r <= COEFFICIENTS * 0x10_0000,
{
    let ghost c = coefficients(a@);
    let mut sum: i64 = 0;
    let mut i: usize = 0;
    while i < COEFFICIENTS
        invariant
            i <= COEFFICIENTS,
            c == coefficients(a@),
            small(c, 0x10_0000),
            sum == sizes(c, i as nat),
            0 <= sum <= i * 0x10_0000,
        decreases COEFFICIENTS - i,
    {
        assert(c[i as int] == a@[i as int]);
        let x: i64 = a[i];
        sum = sum + if x < 0 {
            -x
        } else {
            x
        };
        i = i + 1;
    }
    sum
}

/// Where the computation of an inverse starts.
fn start(a: &Vec<i64>) -> (r: Vec<i64>)
    requires
        small(coefficients(a@), 0x10_0000),
    ensures
        coefficients(r@) == inverse(coefficients(a@), 0),
        small(coefficients(r@), LIMIT as int),
{
    let total: i64 = 1 + sizes_of(a);
    let quotient: i64 = UNIT / total;
    proof {
        assert(0 <= UNIT as int / total as int) by (nonlinear_arith)
            requires
                total > 0,
                UNIT == 0x1000_0000_0000,
        ;
    }
    let first: i64 = if quotient > LIMIT {
        LIMIT
    } else {
        quotient
    };
    let mut r: Vec<i64> = vec![first];
    let mut i: usize = 1;
    while i < COEFFICIENTS
        invariant
            1 <= i <= COEFFICIENTS,
            r@.len() == i,
            r@[0] == first,
            forall|j: int| 1 <= j < i ==> #[trigger] r@[j] == 0,
        decreases COEFFICIENTS - i,
    {
        r.push(0);
        i = i + 1;
    }
    assert(coefficients(r@) =~= constant(first as int));
    r
}

fn inverse_of(a: &Vec<i64>) -> (r: Vec<i64>)
    requires
        small(coefficients(a@), 0x10_0000),
    ensures
        coefficients(r@) == inverse(coefficients(a@), ROUNDS as nat),
        small(coefficients(r@), LIMIT as int),
{
    let ghost c = coefficients(a@);
    let mut x = start(a);
    let mut n: usize = 0;
    while n < ROUNDS
        invariant
            n <= ROUNDS,
            c == coefficients(a@),
            small(c, 0x10_0000),
            coefficients(x@) == inverse(c, n as nat),
            small(coefficients(x@), LIMIT as int),
        decreases ROUNDS - n,
    {
        let p = product_of(a, &x, Ghost(0x10_0000), Ghost(LIMIT as int));
        let e = two_minus(&p);
        let y = product_of(&e, &x, Ghost(0x3000_0000_0000_0000), Ghost(LIMIT as int));
        x = scale_down(&y, UNIT as i128);
        n = n + 1;
    }
    x
}

/// The coefficients of four polynomials.
pub open spec fn rows(basis: [Vec<i64>; 4]) -> Seq<Seq<int>> {
    Seq::new(4, |i: int| coefficients(basis@[i]@))
}

fn multiplier_of(basis: &[Vec<i64>; 4]) -> (r: Vec<i64>)
    requires
        small(rows(*basis)[0], 31),
        small(rows(*basis)[1], 31),
        small(rows(*basis)[2], 127),
        small(rows(*basis)[3], 127),
    ensures
        coefficients(r@) == multiplier(rows(*basis)),
        small(coefficients(r@), LIMIT as int),
{
    let a0 = adjoint_of(&basis[0]);
    let a1 = adjoint_of(&basis[1]);
    let g = sum_of(
        &product_of(&basis[0], &a0, Ghost(31), Ghost(31)),
        &product_of(&basis[1], &a1, Ghost(31), Ghost(31)),
    );
    let c = sum_of(
        &product_of(&basis[2], &a0, Ghost(127), Ghost(31)),
        &product_of(&basis[3], &a1, Ghost(127), Ghost(31)),
    );
    assert(coefficients(g@) == gram(rows(*basis)));
    assert(coefficients(c@) == cross(rows(*basis)));
    let x = inverse_of(&g);
    let y = product_of(&x, &c, Ghost(LIMIT as int), Ghost(0x40_0000));
    scale_down(&y, (UNIT / SCALE) as i128)
}

fn is_small(a: &Vec<i64>, bound: i64) -> (r: bool)
    requires
        0 <= bound <= 127,
    ensures
        r == small(coefficients(a@), bound as int),
{
    if a.len() != COEFFICIENTS {
        return false;
    }
    let mut i: usize = 0;
    while i < COEFFICIENTS
        invariant
            i <= a@.len() == COEFFICIENTS,
            0 <= bound <= 127,
            forall|j: int| 0 <= j < i ==> -bound <= #[trigger] a@[j] <= bound,
        decreases COEFFICIENTS - i,
    {
        if a[i] < -bound || a[i] > bound {
            assert(coefficients(a@)[i as int] == a@[i as int]);
            return false;
        }
        i = i + 1;
    }
    true
}

/// Whether the basis solves the key equation, given the two products in it.
fn is_modulus(a: &Vec<i128>, b: &Vec<i128>) -> (r: bool)
    requires
        small(sums(a@), 0x1000_0000),
        small(sums(b@), 0x1000_0000),
    ensures
        r == (minus(sums(a@), sums(b@)) == constant(MODULUS as int)),
{
    let ghost found = minus(sums(a@), sums(b@));
    let mut i: usize = 0;
    while i < COEFFICIENTS
        invariant
            i <= COEFFICIENTS,
            found == minus(sums(a@), sums(b@)),
            small(sums(a@), 0x1000_0000),
            small(sums(b@), 0x1000_0000),
            forall|j: int| 0 <= j < i ==> #[trigger] found[j] == constant(MODULUS as int)[j],
        decreases COEFFICIENTS - i,
    {
        assert(sums(a@)[i as int] == a@[i as int] && sums(b@)[i as int] == b@[i as int]);
        let wanted: i128 = if i == 0 {
            MODULUS as i128
        } else {
            0
        };
        if a[i] - b[i] != wanted {
            assert(found[i as int] != constant(MODULUS as int)[i as int]);
            return false;
        }
        i = i + 1;
    }
    assert(found =~= constant(MODULUS as int));
    true
}

/// Whether the basis is found to be that of a key.
pub fn is_accepted(basis: &[Vec<i64>; 4]) -> (r: bool)
    ensures
        r == accepted(rows(*basis)),
        r ==> sound(rows(*basis)),
{
    let ghost b = rows(*basis);
    if !is_small(&basis[0], 31) || !is_small(&basis[1], 31) || !is_small(&basis[2], 127)
        || !is_small(&basis[3], 127) {
        return false;
    }
    if squares_of(&basis[0]) + squares_of(&basis[1]) > MAX_NORM as i128 {
        return false;
    }
    let left = product_of(&basis[0], &basis[3], Ghost(31), Ghost(127));
    let right = product_of(&basis[1], &basis[2], Ghost(31), Ghost(127));
    if !is_modulus(&left, &right) {
        return false;
    }
    let k = multiplier_of(basis);
    let first = left_over_of(&basis[2], &basis[0], &k);
    let second = left_over_of(&basis[3], &basis[1], &k);
    let bound: i128 = SCALE as i128 * SCALE as i128 * (MAX_NORM + 1) as i128;
    let r = squares_of(&first) + squares_of(&second) <= bound;
    proof {
        assert(r == shortens(b, multiplier(b)));
    }
    r
}

proof fn lemma_terms_of_sum(a: Seq<int>, b: Seq<int>, c: Seq<int>, k: int, n: nat)
    requires
        a.len() == COEFFICIENTS,
        b.len() == COEFFICIENTS,
        c.len() == COEFFICIENTS,
        n <= COEFFICIENTS,
        0 <= k < COEFFICIENTS,
    ensures
        terms(plus(a, b), c, k, n) == terms(a, c, k, n) + terms(b, c, k, n),
        terms(c, plus(a, b), k, n) == terms(c, a, k, n) + terms(c, b, k, n),
    decreases n,
{
    if n > 0 {
        let i = n - 1;
        lemma_terms_of_sum(a, b, c, k, i as nat);
        let j = if i <= k {
            k - i
        } else {
            COEFFICIENTS + k - i
        };
        assert((a[i] + b[i]) * c[j] == a[i] * c[j] + b[i] * c[j]) by (nonlinear_arith);
        assert(c[i] * (a[j] + b[j]) == c[i] * a[j] + c[i] * b[j]) by (nonlinear_arith);
        assert(plus(a, b)[i] == a[i] + b[i]);
        assert(plus(a, b)[j] == a[j] + b[j]);
    }
}

/// A product of sums is the sum of the products.
pub proof fn law_product_of_sums(a: Seq<int>, b: Seq<int>, c: Seq<int>)
    requires
        a.len() == COEFFICIENTS,
        b.len() == COEFFICIENTS,
        c.len() == COEFFICIENTS,
    ensures
        product(plus(a, b), c) == plus(product(a, c), product(b, c)),
        product(c, plus(a, b)) == plus(product(c, a), product(c, b)),
{
    assert forall|k: int| 0 <= k < COEFFICIENTS implies #[trigger] product(plus(a, b), c)[k]
        == product(a, c)[k] + product(b, c)[k] by {
        lemma_terms_of_sum(a, b, c, k, COEFFICIENTS as nat);
    }
    assert forall|k: int| 0 <= k < COEFFICIENTS implies #[trigger] product(c, plus(a, b))[k]
        == product(c, a)[k] + product(c, b)[k] by {
        lemma_terms_of_sum(a, b, c, k, COEFFICIENTS as nat);
    }
    assert(product(plus(a, b), c) =~= plus(product(a, c), product(b, c)));
    assert(product(c, plus(a, b)) =~= plus(product(c, a), product(c, b)));
}

/// The polynomial with one coefficient.
pub open spec fn monomial(i: int, c: int) -> Seq<int> {
    Seq::new(
        512,
        |k: int|
            if k == i {
                c
            } else {
                0
            },
    )
}

proof fn lemma_terms_of_monomials(i: int, c: int, j: int, d: int, k: int, n: nat)
    requires
        0 <= i < 512,
        0 <= j < 512,
        0 <= k < 512,
        n <= 512,
    ensures
        terms(monomial(i, c), monomial(j, d), k, n) == (if n <= i {
            0
        } else if i + j == k {
            c * d
        } else if i + j == k + 512 {
            -(c * d)
        } else {
            0
        }),
    decreases n,
{
    if n > 0 {
        let m = n - 1;
        lemma_terms_of_monomials(i, c, j, d, k, m as nat);
        let at = if m <= k {
            k - m
        } else {
            512 + k - m
        };
        if m != i {
            assert(monomial(i, c)[m] == 0);
            assert(0 * monomial(j, d)[at] == 0);
        } else if at != j {
            assert(monomial(j, d)[at] == 0);
            assert(c * 0 == 0);
        }
    }
}

/// Powers multiply by adding their exponents, and the power 512 is -1.
pub proof fn law_product_of_monomials(i: int, c: int, j: int, d: int)
    requires
        0 <= i < 512,
        0 <= j < 512,
    ensures
        i + j < 512 ==> product(monomial(i, c), monomial(j, d)) == monomial(i + j, c * d),
        i + j >= 512 ==> product(monomial(i, c), monomial(j, d)) == monomial(
            i + j - 512,
            -(c * d),
        ),
{
    let p = product(monomial(i, c), monomial(j, d));
    let q = if i + j < 512 {
        monomial(i + j, c * d)
    } else {
        monomial(i + j - 512, -(c * d))
    };
    assert forall|k: int| 0 <= k < 512 implies #[trigger] p[k] == q[k] by {
        lemma_terms_of_monomials(i, c, j, d, k, 512);
    }
    assert(p =~= q);
}

proof fn lemma_squares_of_update(a: Seq<int>, i: int, c: int, n: nat)
    requires
        0 <= i < a.len(),
        n <= a.len(),
    ensures
        squares(a.update(i, c), n) == squares(a, n) + (if i < n {
            c * c - a[i] * a[i]
        } else {
            0
        }),
    decreases n,
{
    if n > 0 {
        lemma_squares_of_update(a, i, c, (n - 1) as nat);
    }
}

proof fn lemma_squares_of_zero(n: nat)
    requires
        n <= 512,
    ensures
        squares(constant(0), n) == 0,
    decreases n,
{
    if n > 0 {
        lemma_squares_of_zero((n - 1) as nat);
    }
}

/// The squared length of a row is the sum of the squares of all its coefficients: it is zero for
/// zeros, and changes by the squares of what changes.
pub proof fn law_norm(a: Seq<int>, b: Seq<int>, i: int, c: int)
    requires
        a.len() == 512,
        b.len() == 512,
        0 <= i < 512,
    ensures
        norm(constant(0), constant(0)) == 0,
        norm(a.update(i, c), b) == norm(a, b) + c * c - a[i] * a[i],
        norm(a, b.update(i, c)) == norm(a, b) + c * c - b[i] * b[i],
        constant(c) == monomial(0, c),
{
    lemma_squares_of_zero(512);
    lemma_squares_of_update(a, i, c, 512);
    lemma_squares_of_update(b, i, c, 512);
    assert(constant(c) =~= monomial(0, c));
}

/// The adjoint of a power is its inverse: their product is the square of the coefficient.
pub proof fn law_adjoint(i: int, c: int)
    requires
        0 <= i < 512,
    ensures
        product(monomial(i, c), adjoint(monomial(i, c))) == monomial(0, c * c),
{
    let m = monomial(i, c);
    if i == 0 {
        assert(adjoint(m) =~= monomial(0, c));
        law_product_of_monomials(0, c, 0, c);
    } else {
        assert(adjoint(m) =~= monomial(512 - i, -c));
        law_product_of_monomials(i, c, 512 - i, -c);
        assert(-(c * -c) == c * c) by (nonlinear_arith);
    }
}

/// What is a basis that solves the key equation, and what makes it sound, in numbers: the scheme's
/// bounds on coefficients and on the lengths of the rows.
pub proof fn law_sound(basis: Seq<Seq<int>>)
    ensures
        solves(basis) <==> {
            &&& basis.len() == 4
            &&& forall|r: int| 0 <= r < 4 ==> #[trigger] basis[r].len() == 512
            &&& forall|i: int| 0 <= i < 512 ==> -32 < #[trigger] basis[0][i] < 32
            &&& forall|i: int| 0 <= i < 512 ==> -32 < #[trigger] basis[1][i] < 32
            &&& forall|i: int| 0 <= i < 512 ==> -128 < #[trigger] basis[2][i] < 128
            &&& forall|i: int| 0 <= i < 512 ==> -128 < #[trigger] basis[3][i] < 128
            &&& norm(basis[0], basis[1]) <= 16822
            &&& plus(monomial(0, 12289), product(basis[1], basis[2])) == product(
                basis[0],
                basis[3],
            )
        },
        solves(basis) && norm(basis[2], basis[3]) <= 16823 ==> sound(basis),
        accepted(basis) ==> sound(basis),
{
    let p = product(basis[0], basis[3]);
    let q = product(basis[1], basis[2]);
    if minus(p, q) == constant(12289) {
        assert forall|k: int| 0 <= k < 512 implies #[trigger] p[k] == monomial(0, 12289)[k]
            + q[k] by {
            assert(minus(p, q)[k] == constant(12289)[k]);
        }
        assert(plus(monomial(0, 12289), q) =~= p);
    }
    if plus(monomial(0, 12289), q) == p {
        assert forall|k: int| 0 <= k < 512 implies #[trigger] minus(p, q)[k] == constant(
            12289,
        )[k] by {
            assert(plus(monomial(0, 12289), q)[k] == p[k]);
        }
        assert(minus(p, q) =~= constant(12289));
    }
    if solves(basis) && norm(basis[2], basis[3]) <= 16823 {
        let zero = constant(0);
        lemma_left_over_of_zero(basis[2], basis[0]);
        lemma_left_over_of_zero(basis[3], basis[1]);
        lemma_squares_scaled(basis[2], 512);
        lemma_squares_scaled(basis[3], 512);
        let x = squares(basis[2], 512);
        let y = squares(basis[3], 512);
        assert(65536 * 65536 * x + 65536 * 65536 * y <= 65536 * 65536 * 16823) by (nonlinear_arith)
            requires
                x + y <= 16823,
        ;
        assert(shortens(basis, zero));
    }
}

proof fn lemma_terms_of_zero(b: Seq<int>, k: int, n: nat)
    requires
        0 <= k < 512,
        n <= 512,
    ensures
        terms(constant(0), b, k, n) == 0,
    decreases n,
{
    if n > 0 {
        lemma_terms_of_zero(b, k, (n - 1) as nat);
        let i = n - 1;
        let j = if i <= k {
            k - i
        } else {
            512 + k - i
        };
        assert(constant(0)[i] == 0);
        assert(0 * b[j] == 0);
    }
}

proof fn lemma_left_over_of_zero(a: Seq<int>, b: Seq<int>)
    requires
        a.len() == 512,
    ensures
        left_over(a, b, constant(0)) == times(65536, a),
{
    assert forall|k: int| 0 <= k < 512 implies #[trigger] left_over(a, b, constant(0))[k]
        == 65536 * a[k] by {
        lemma_terms_of_zero(b, k, 512);
    }
    assert(left_over(a, b, constant(0)) =~= times(65536, a));
}

proof fn lemma_squares_scaled(a: Seq<int>, n: nat)
    requires
        a.len() == 512,
        n <= 512,
    ensures
        squares(times(65536, a), n) == 65536 * 65536 * squares(a, n),
    decreases n,
{
    if n > 0 {
        lemma_squares_scaled(a, (n - 1) as nat);
        let x = a[n - 1];
        let s = squares(a, (n - 1) as nat);
        assert((65536 * x) * (65536 * x) == 65536 * 65536 * (x * x)) by (nonlinear_arith);
        assert(65536 * 65536 * (s + x * x) == 65536 * 65536 * s + 65536 * 65536 * (x * x))
            by (nonlinear_arith);
    }
}

/// A basis is accepted where it solves the key equation and the computed multiple of its first row
/// makes the second short, and for nothing else.
pub proof fn law_accepted(basis: Seq<Seq<int>>, k: Seq<int>)
    ensures
        accepted(basis) <==> solves(basis) && shortens(basis, multiplier(basis)),
        shortens(basis, k) <==> norm(
            minus(times(65536, basis[2]), product(k, basis[0])),
            minus(times(65536, basis[3]), product(k, basis[1])),
        ) <= 65536 * 65536 * 16823,
{
}

/// The multiple is the product of both rows over that of the first with itself: 26 rounds of
/// Newton's method give the inverse, in units of 2^-44, and the quotient is in units of 2^-16.
pub proof fn law_multiplier(basis: Seq<Seq<int>>, a: Seq<int>, rounds: nat, i: int)
    requires
        0 <= i < 512,
    ensures
        ({
            let first = plus(
                product(basis[0], adjoint(basis[0])),
                product(basis[1], adjoint(basis[1])),
            );
            let both = plus(
                product(basis[2], adjoint(basis[0])),
                product(basis[3], adjoint(basis[1])),
            );
            let q = product(inverse(first, 26), both)[i] / 0x1000_0000;
            -0x1_0000_0000 <= q <= 0x1_0000_0000 ==> multiplier(basis)[i] == q
        }),
        ({
            let x = inverse(a, rounds);
            let y = product(minus(monomial(0, 0x2000_0000_0000), product(a, x)), x)[i]
                / 0x1000_0000_0000;
            -0x1_0000_0000 <= y <= 0x1_0000_0000 ==> inverse(a, rounds + 1)[i] == y
        }),
        inverse(a, 0).len() == 512,
        inverse(a, 0)[0] > 0 && inverse(a, 0)[0] < 0x1_0000_0000 ==> inverse(a, 0)[0] * (1 + sizes(
            a,
            512,
        )) <= 0x1000_0000_0000 < (inverse(a, 0)[0] + 1) * (1 + sizes(a, 512)),
        i > 0 ==> inverse(a, 0)[i] == 0,
{
    assert(constant(2 * UNIT) =~= monomial(0, 0x2000_0000_0000));
    let t = 1 + sizes(a, 512);
    lemma_sizes(a, 512);
    let q = 0x1000_0000_0000int / t;
    vstd::arithmetic::div_mod::lemma_fundamental_div_mod(0x1000_0000_0000, t);
    assert(q * t <= 0x1000_0000_0000 < (q + 1) * t) by (nonlinear_arith)
        requires
            0x1000_0000_0000 == t * q + 0x1000_0000_0000int % t,
            0 <= 0x1000_0000_0000int % t < t,
    ;
}

proof fn lemma_sizes(a: Seq<int>, n: nat)
    ensures
        sizes(a, n) >= 0,
    decreases n,
{
    if n > 0 {
        lemma_sizes(a, (n - 1) as nat);
    }
}

/// The basis that is tested is the one that is given.
pub proof fn law_rows(basis: [Vec<i64>; 4], r: int)
    requires
        0 <= r < 4,
    ensures
        rows(basis).len() == 4,
        rows(basis)[r].len() == basis@[r]@.len(),
        forall|i: int|
            0 <= i < basis@[r]@.len() ==> #[trigger] rows(basis)[r][i] == basis@[r]@[i],
{
}

} // verus!
