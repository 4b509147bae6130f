//! The cosine between two vectors of counts, as an exact ratio.

use vstd::prelude::*;
use crate::wide::Wide;

verus! {

/// The sum of the products `a[i] * b[i]` over the first `n` places.
pub open spec fn dot_sum(a: Seq<u64>, b: Seq<u64>, n: nat) -> nat
    recommends
        n <= a.len(),
        n <= b.len(),
    decreases n,
{
    if n == 0 {
        0
    } else {
        dot_sum(a, b, (n - 1) as nat) + a[n - 1] as nat * b[n - 1] as nat
    }
}

/// The sum of the squares of the first `n` entries of `v`.
pub open spec fn square_sum(v: Seq<u64>, n: nat) -> nat
    recommends
        n <= v.len(),
{
    dot_sum(v, v, n)
}

/// The number of places that both vectors have: the length of the shorter.
pub open spec fn overlap(a: Seq<u64>, b: Seq<u64>) -> nat {
    if a.len() <= b.len() {
        a.len()
    } else {
        b.len()
    }
}

/// What a cosine is, as a mathematical value.
pub ghost enum CosineValue {
    /// Zero, because one of the vectors has no length to divide by.
    Zero,
    /// The ratio `dot / (sqrt(norm_a_sq) * sqrt(norm_b_sq))`, with both
    /// squared norms positive.
    Ratio { dot: nat, norm_a_sq: nat, norm_b_sq: nat },
}

/// The cosine between `a` and `b`, taken over the places that both have.
/// Entries of the longer vector beyond those do not count.
pub open spec fn cosine_of(a: Seq<u64>, b: Seq<u64>) -> CosineValue {
    let n = overlap(a, b);
    if square_sum(a, n) == 0 || square_sum(b, n) == 0 {
        CosineValue::Zero
    } else {
        CosineValue::Ratio {
            dot: dot_sum(a, b, n),
            norm_a_sq: square_sum(a, n),
            norm_b_sq: square_sum(b, n),
        }
    }
}

/// A cosine as computed: the three sums it is made of, or zero where a
/// squared norm is zero.
#[derive(Clone, Copy, Debug, PartialEq, Eq, Structural)]
pub enum Cosine {
    Zero,
    Ratio { dot: Wide, norm_a_sq: Wide, norm_b_sq: Wide },
}

impl View for Cosine {
    type V = CosineValue;

    open spec fn view(&self) -> CosineValue {
        match *self {
            Cosine::Zero => CosineValue::Zero,
            Cosine::Ratio { dot, norm_a_sq, norm_b_sq } => CosineValue::Ratio {
                dot: dot@,
                norm_a_sq: norm_a_sq@,
                norm_b_sq: norm_b_sq@,
            },
        }
    }
}

impl CosineValue {
    /// Whether the value is the number zero: the ratio is zero exactly when its
    /// dot product is.
    pub open spec fn is_zero(self) -> bool {
        match self {
            CosineValue::Zero => true,
            CosineValue::Ratio { dot, .. } => dot == 0,
        }
    }

    /// Whether the value is at most one: the square of the dot product is at
    /// most the product of the two squared norms.
    pub open spec fn at_most_one(self) -> bool {
        match self {
            CosineValue::Zero => true,
            CosineValue::Ratio { dot, norm_a_sq, norm_b_sq } => dot * dot <= norm_a_sq
                * norm_b_sq,
        }
    }

    /// Whether the value is the number one: the dot product is positive and
    /// its square is the product of the two squared norms.
    pub open spec fn is_one(self) -> bool {
        match self {
            CosineValue::Zero => false,
            CosineValue::Ratio { dot, norm_a_sq, norm_b_sq } => dot > 0 && dot * dot
                == norm_a_sq * norm_b_sq,
        }
    }
}

impl Cosine {
    /// Whether the cosine is the number zero.
    pub fn is_zero(&self) -> (zero: bool)
        ensures
            zero == self@.is_zero(),
    {
        match self {
            Cosine::Zero => true,
            Cosine::Ratio { dot, .. } => dot.is_zero(),
        }
    }
}

/// The product of two entries, which always fits in 128 bits.
fn product(x: u64, y: u64) -> (p: u128)
    ensures
        p == x as nat * y as nat,
{
    proof {
        assert(x as nat * y as nat <= 0xFFFF_FFFF_FFFF_FFFF * 0xFFFF_FFFF_FFFF_FFFF)
            by (nonlinear_arith)
            requires
                x <= 0xFFFF_FFFF_FFFF_FFFF,
                y <= 0xFFFF_FFFF_FFFF_FFFF,
        ;
    }
    (x as u128) * (y as u128)
}

/// The squared length of `v`: the sum of the squares of its entries.
pub fn squared_norm(v: &[u64]) -> (norm_sq: Wide)
    ensures
        norm_sq@ == square_sum(v@, v@.len()),
{
    let mut norm_sq = Wide::zero();
    let mut i: usize = 0;
    while i < v.len()
        invariant
            i <= v@.len(),
            norm_sq@ == square_sum(v@, i as nat),
            norm_sq.high <= i,
        decreases v@.len() - i,
    {
        norm_sq = norm_sq.plus(product(v[i], v[i]));
        i = i + 1;
    }
    norm_sq
}

/// The cosine between `a` and `b` over the places that both have.
pub fn cosine(a: &[u64], b: &[u64]) -> (c: Cosine)
    ensures
        c@ == cosine_of(a@, b@),
{
    let n: usize = if a.len() <= b.len() {
        a.len()
    } else {
        b.len()
    };
    let mut dot = Wide::zero();
    let mut norm_a_sq = Wide::zero();
    let mut norm_b_sq = Wide::zero();
    let mut i: usize = 0;
    while i < n
        invariant
            i <= n,
            n == overlap(a@, b@),
            dot@ == dot_sum(a@, b@, i as nat),
            norm_a_sq@ == square_sum(a@, i as nat),
            norm_b_sq@ == square_sum(b@, i as nat),
            dot.high <= i,
            norm_a_sq.high <= i,
            norm_b_sq.high <= i,
        decreases n - i,
    {
        dot = dot.plus(product(a[i], b[i]));
        norm_a_sq = norm_a_sq.plus(product(a[i], a[i]));
        norm_b_sq = norm_b_sq.plus(product(b[i], b[i]));
        i = i + 1;
    }
    if norm_a_sq.is_zero() || norm_b_sq.is_zero() {
        Cosine::Zero
    } else {
        Cosine::Ratio { dot, norm_a_sq, norm_b_sq }
    }
}

/// A sum of squares is zero exactly when every entry it covers is zero.
pub proof fn lemma_square_sum_zero(v: Seq<u64>, n: nat)
    requires
        n <= v.len(),
    ensures
        square_sum(v, n) == 0 <==> forall|i: int| 0 <= i < n ==> v[i] == 0,
    decreases n,
{
    if n > 0 {
        lemma_square_sum_zero(v, (n - 1) as nat);
        let last = v[n - 1] as nat;
        assert(last * last == 0 <==> last == 0) by (nonlinear_arith);
    }
}

/// A sum over the first `n` places depends on those places only.
pub proof fn lemma_dot_sum_agree(a: Seq<u64>, b: Seq<u64>, c: Seq<u64>, d: Seq<u64>, n: nat)
    requires
        n <= a.len(),
        n <= b.len(),
        n <= c.len(),
        n <= d.len(),
        forall|i: int| 0 <= i < n ==> a[i] == c[i] && b[i] == d[i],
    ensures
        dot_sum(a, b, n) == dot_sum(c, d, n),
    decreases n,
{
    if n > 0 {
        lemma_dot_sum_agree(a, b, c, d, (n - 1) as nat);
    }
}

/// The step of the bound below: if `d * d <= a * b`, the same holds after `x * y`
/// is added to `d`, `x * x` to `a` and `y * y` to `b`.
proof fn lemma_bound_step(d: int, a: int, b: int, x: int, y: int)
    requires
        0 <= d,
        0 <= a,
        0 <= b,
        0 <= x,
        0 <= y,
        d * d <= a * b,
    ensures
        (d + x * y) * (d + x * y) <= (a + x * x) * (b + y * y),
{
    let p = x * y;
    let u = d * p;
    let s = a * (y * y);
    let t = b * (x * x);
    assert(0 <= p && 0 <= y * y && 0 <= x * x) by (nonlinear_arith)
        requires
            0 <= x,
            0 <= y,
            p == x * y,
    ;
    assert(0 <= u && 0 <= s && 0 <= t) by (nonlinear_arith)
        requires
            0 <= d,
            0 <= a,
            0 <= b,
            0 <= p,
            0 <= y * y,
            0 <= x * x,
            u == d * p,
            s == a * (y * y),
            t == b * (x * x),
    ;
    assert(u * u <= (a * b) * (p * p)) by (nonlinear_arith)
        requires
            d * d <= a * b,
            u == d * p,
    ;
    assert((a * b) * (p * p) == s * t) by (nonlinear_arith)
        requires
            p == x * y,
            s == a * (y * y),
            t == b * (x * x),
    ;
    assert(4 * (s * t) <= (s + t) * (s + t)) by (nonlinear_arith);
    assert((2 * u) * (2 * u) == 4 * (u * u)) by (nonlinear_arith);
    assert(2 * u <= s + t) by (nonlinear_arith)
        requires
            0 <= u,
            0 <= s + t,
            (2 * u) * (2 * u) <= (s + t) * (s + t),
    ;
    assert((d + p) * (d + p) == d * d + 2 * u + p * p) by (nonlinear_arith)
        requires
            u == d * p,
    ;
    assert((a + x * x) * (b + y * y) == a * b + s + t + p * p) by (nonlinear_arith)
        requires
            p == x * y,
            s == a * (y * y),
            t == b * (x * x),
    ;
}

/// The square of a dot product is at most the product of the two sums of
/// squares.
pub proof fn lemma_dot_sum_bound(a: Seq<u64>, b: Seq<u64>, n: nat)
    ensures
        dot_sum(a, b, n) * dot_sum(a, b, n) <= square_sum(a, n) * square_sum(b, n),
    decreases n,
{
    if n > 0 {
        let m = (n - 1) as nat;
        lemma_dot_sum_bound(a, b, m);
        lemma_bound_step(
            dot_sum(a, b, m) as int,
            square_sum(a, m) as int,
            square_sum(b, m) as int,
            a[n - 1] as int,
            b[n - 1] as int,
        );
    }
}

/// A cosine of counts lies between zero and one.
pub proof fn lemma_cosine_at_most_one(a: Seq<u64>, b: Seq<u64>)
    ensures
        cosine_of(a, b).at_most_one(),
{
    lemma_dot_sum_bound(a, b, overlap(a, b));
}

/// The cosine of a vector with itself is one: the three sums are the same
/// positive number, as soon as the vector has an entry that is not zero.
pub proof fn lemma_cosine_self(v: Seq<u64>)
    requires
        exists|i: int| 0 <= i < v.len() && v[i] != 0,
    ensures
        square_sum(v, v.len()) > 0,
        cosine_of(v, v) == (CosineValue::Ratio {
            dot: square_sum(v, v.len()),
            norm_a_sq: square_sum(v, v.len()),
            norm_b_sq: square_sum(v, v.len()),
        }),
        cosine_of(v, v).is_one(),
{
    lemma_square_sum_zero(v, v.len());
}

/// The cosine is the zero of the first kind exactly when one of the vectors is
/// zero at every place that both have.
pub proof fn lemma_cosine_zero_prefix(a: Seq<u64>, b: Seq<u64>)
    ensures
        cosine_of(a, b) == CosineValue::Zero <==> {
            ||| forall|i: int| 0 <= i < overlap(a, b) ==> a[i] == 0
            ||| forall|i: int| 0 <= i < overlap(a, b) ==> b[i] == 0
        },
{
    lemma_square_sum_zero(a, overlap(a, b));
    lemma_square_sum_zero(b, overlap(a, b));
}

/// With an empty vector on either side the cosine is zero.
pub proof fn lemma_cosine_empty(a: Seq<u64>, b: Seq<u64>)
    requires
        a.len() == 0 || b.len() == 0,
    ensures
        cosine_of(a, b) == CosineValue::Zero,
{
}

/// What the longer vector holds beyond the end of the shorter does not count:
/// the cosine is that of the two vectors cut to the length of the shorter.
pub proof fn lemma_cosine_truncates(a: Seq<u64>, b: Seq<u64>)
    ensures
        cosine_of(a, b) == cosine_of(
            a.take(overlap(a, b) as int),
            b.take(overlap(a, b) as int),
        ),
{
    let n = overlap(a, b);
    let (short_a, short_b) = (a.take(n as int), b.take(n as int));
    assert(overlap(short_a, short_b) == n);
    lemma_dot_sum_agree(a, b, short_a, short_b, n);
    lemma_dot_sum_agree(a, a, short_a, short_a, n);
    lemma_dot_sum_agree(b, b, short_b, short_b, n);
}

} // verus!
