//! Golden ratio arithmetic on integers: Fibonacci numbers, continued
//! fractions and their convergents.
//!
//! The golden ratio has the continued fraction [1; 1, 1, 1, ...], all ones,
//! which converges more slowly than any other; its convergents are the ratios
//! of consecutive Fibonacci numbers.
use vstd::prelude::*;

verus! {

/// The n-th Fibonacci number, with `fib(0) == 0` and `fib(1) == 1`.
pub open spec fn fib(n: nat) -> nat
    decreases n,
{
    if n == 0 {
        0
    } else if n == 1 {
        1
    } else {
        fib((n - 2) as nat) + fib((n - 1) as nat)
    }
}

/// The state of the convergent recurrence after the coefficients
/// `c[0..k]` have been taken in: `(p_k, q_k, p_(k-1), q_(k-1))`, where
/// `p_1 = c[0]`, `q_1 = 1`, `p_0 = 1`, `q_0 = 0` and
/// `p_(k+1) = c[k] * p_k + p_(k-1)`, `q_(k+1) = c[k] * q_k + q_(k-1)`.
pub open spec fn cf_state(c: Seq<u64>, k: nat) -> (nat, nat, nat, nat)
    decreases k,
{
    if k <= 1 {
        (c[0] as nat, 1, 1, 0)
    } else {
        let s = cf_state(c, (k - 1) as nat);
        let a = c[k - 1] as nat;
        (a * s.0 + s.2, a * s.1 + s.3, s.0, s.1)
    }
}

/// The value of the continued fraction `[c[0]; c[1], c[2], ...]` as a
/// fraction `(numerator, denominator)`; `(1, 1)` for no coefficients.
pub open spec fn cf_value(c: Seq<u64>) -> (nat, nat) {
    if c.len() == 0 {
        (1, 1)
    } else {
        let s = cf_state(c, c.len());
        (s.0, s.1)
    }
}

/// Every numerator and denominator met while evaluating `c` fits in a `u64`.
pub open spec fn cf_fits(c: Seq<u64>) -> bool {
    forall|k: nat|
        1 <= k <= c.len() ==> #[trigger] cf_state(c, k).0 <= u64::MAX && cf_state(c, k).1
            <= u64::MAX
}

/// The continued fraction of the golden ratio cut to `depth` coefficients.
pub open spec fn all_ones(depth: nat) -> Seq<u64> {
    Seq::new(depth, |i: int| 1u64)
}

/// The golden ratio and the integer side of its arithmetic.
#[derive(Debug, Clone, Copy)]
pub struct GoldenRatio;

impl GoldenRatio {
    /// Continued fraction coefficients of the golden ratio: `depth` ones.
    pub fn continued_fraction(depth: usize) -> (r: Vec<u64>)
        ensures
            r@ == all_ones(depth as nat),
    {
        let r = vec![1u64; depth];
        assert(r@ =~= all_ones(depth as nat));
        r
    }

    /// Evaluate a continued fraction `[a0; a1, a2, ...]` to the fraction
    /// `(numerator, denominator)`; the empty fraction gives `(1, 1)`.
    pub fn evaluate_cf(coeffs: &[u64]) -> (r: (u64, u64))
        requires
            cf_fits(coeffs@),
        ensures
            (r.0 as nat, r.1 as nat) == cf_value(coeffs@),
    {
        if coeffs.len() == 0 {
            return (1, 1);
        }
        let mut num: u64 = coeffs[0];
        let mut den: u64 = 1;
        let mut prev_num: u64 = 1;
        let mut prev_den: u64 = 0;
        let mut i: usize = 1;
        while i < coeffs.len()
            invariant
                1 <= i <= coeffs@.len(),
                cf_fits(coeffs@),
                cf_state(coeffs@, i as nat) == (
                    num as nat,
                    den as nat,
                    prev_num as nat,
                    prev_den as nat,
                ),
            decreases coeffs@.len() - i,
        {
            let c = coeffs[i];
            assert(cf_state(coeffs@, (i + 1) as nat).0 <= u64::MAX);
            assert(cf_state(coeffs@, (i + 1) as nat).1 <= u64::MAX);
            let new_num = c * num + prev_num;
            let new_den = c * den + prev_den;
            prev_num = num;
            prev_den = den;
            num = new_num;
            den = new_den;
            i = i + 1;
        }
        (num, den)
    }

    /// Successive rational approximations to the golden ratio: the values of
    /// its continued fraction cut to depth 1, 2, ..., n, which are ratios of
    /// consecutive Fibonacci numbers.
    pub fn rational_approximations(n: usize) -> (r: Vec<(u64, u64)>)
        requires
            fib(n as nat + 1) <= u64::MAX,
        ensures
            r@.len() == n,
            forall|i: int|
                0 <= i < n ==> (#[trigger] r@[i].0 as nat, r@[i].1 as nat) == cf_value(
                    all_ones((i + 1) as nat),
                ),
            forall|i: int|
                0 <= i < n ==> #[trigger] r@[i].0 == fib((i + 2) as nat) && r@[i].1 == fib(
                    (i + 1) as nat,
                ),
    {
        let mut r: Vec<(u64, u64)> = Vec::new();
        let mut done: usize = 0;
        while done < n
            invariant
                done <= n,
                r@.len() == done,
                fib(n as nat + 1) <= u64::MAX,
                forall|i: int|
                    0 <= i < done ==> (#[trigger] r@[i].0 as nat, r@[i].1 as nat) == cf_value(
                        all_ones((i + 1) as nat),
                    ),
                forall|i: int|
                    0 <= i < done ==> #[trigger] r@[i].0 == fib((i + 2) as nat) && r@[i].1 == fib(
                        (i + 1) as nat,
                    ),
            decreases n - done,
        {
            let depth = done + 1;
            let cf = Self::continued_fraction(depth);
            proof {
                lemma_fib_monotone(depth as nat + 1, n as nat + 1);
                lemma_all_ones_fits(depth as nat);
                lemma_all_ones_value(depth as nat);
            }
            let p = Self::evaluate_cf(cf.as_slice());
            let ghost before = r@;
            r.push(p);
            assert(forall|i: int| 0 <= i < done ==> r@[i] == before[i]);
            assert(r@[done as int] == p);
            assert(p.0 == fib(depth as nat + 1) && p.1 == fib(depth as nat));
            done = depth;
        }
        r
    }

    /// Compute the nth Fibonacci number (0-indexed).
    pub fn fibonacci(n: u64) -> (r: u64)
        requires
            fib(n as nat) <= u64::MAX,
        ensures
            r == fib(n as nat),
    {
        if n == 0 {
            return 0;
        }
        let mut a: u64 = 0;
        let mut b: u64 = 1;
        let mut i: u64 = 1;
        while i < n
            invariant
                1 <= i <= n,
                a == fib((i - 1) as nat),
                b == fib(i as nat),
                fib(n as nat) <= u64::MAX,
            decreases n - i,
        {
            proof {
                lemma_fib_monotone(i as nat + 1, n as nat);
            }
            let tmp = a + b;
            a = b;
            b = tmp;
            i = i + 1;
        }
        b
    }
}

/// The convergents of the all-ones continued fraction are ratios of
/// consecutive Fibonacci numbers.
pub proof fn lemma_all_ones_state(d: nat, k: nat)
    requires
        1 <= k <= d,
    ensures
        cf_state(all_ones(d), k) == (fib(k + 1), fib(k), fib(k), fib((k - 1) as nat)),
    decreases k,
{
    if k > 1 {
        lemma_all_ones_state(d, (k - 1) as nat);
        assert(fib(k + 1) == fib((k - 1) as nat) + fib(k));
    }
}

/// The golden continued fraction cut to depth `d >= 1` has the value
/// `fib(d + 1) / fib(d)`.
pub proof fn lemma_all_ones_value(d: nat)
    requires
        d >= 1,
    ensures
        cf_value(all_ones(d)) == (fib(d + 1), fib(d)),
{
    lemma_all_ones_state(d, d);
}

/// The golden continued fraction cut to depth `d` can be evaluated in `u64`
/// exactly when `fib(d + 1)` fits in a `u64`.
pub proof fn lemma_all_ones_fits(d: nat)
    ensures
        cf_fits(all_ones(d)) <==> (d == 0 || fib(d + 1) <= u64::MAX),
{
    if d >= 1 && fib(d + 1) <= u64::MAX {
        assert forall|k: nat| 1 <= k <= d implies #[trigger] cf_state(all_ones(d), k).0
            <= u64::MAX && cf_state(all_ones(d), k).1 <= u64::MAX by {
            lemma_all_ones_state(d, k);
            lemma_fib_monotone(k + 1, d + 1);
            lemma_fib_monotone(k, d + 1);
        }
    }
    if d >= 1 && cf_fits(all_ones(d)) {
        lemma_all_ones_state(d, d);
        assert(cf_state(all_ones(d), d).0 <= u64::MAX);
    }
}

/// `fib` never decreases.
pub proof fn lemma_fib_monotone(i: nat, j: nat)
    requires
        i <= j,
    ensures
        fib(i) <= fib(j),
    decreases j - i,
{
    if i < j {
        lemma_fib_monotone(i, (j - 1) as nat);
        if j >= 2 {
            assert(fib(j) == fib((j - 2) as nat) + fib((j - 1) as nat));
        }
    }
}

/// Cassini's identity: `fib(n + 1) * fib(n - 1) - fib(n)^2 == (-1)^n`.
pub proof fn lemma_cassini(n: nat)
    requires
        n >= 1,
    ensures
        fib(n + 1) * fib((n - 1) as nat) - fib(n) * fib(n) == if n % 2 == 0 {
            1int
        } else {
            -1int
        },
    decreases n,
{
    if n == 1 {
        assert(fib(2) == 1) by {
            reveal_with_fuel(fib, 3);
        }
        assert(fib(1) == 1);
        assert(fib(0) == 0);
        assert(fib(2) * fib(0) - fib(1) * fib(1) == -1int) by (nonlinear_arith)
            requires
                fib(2) == 1,
                fib(1) == 1,
                fib(0) == 0,
        ;
    } else {
        lemma_cassini((n - 1) as nat);
        let a = fib((n - 2) as nat) as int;
        let b = fib((n - 1) as nat) as int;
        let c = fib(n) as int;
        let d = fib(n + 1) as int;
        assert(c == a + b);
        assert(d == b + c);
        assert(d * b - c * c == -(c * a - b * b)) by (nonlinear_arith)
            requires
                c == a + b,
                d == b + c,
        ;
        assert(((n - 1) as nat + 1) == n);
        assert(((n - 1) as nat - 1) as nat == (n - 2) as nat);
        assert(c * a - b * b == if (n - 1) as nat % 2 == 0 {
            1int
        } else {
            -1int
        });
        assert(fib(n + 1) * fib((n - 1) as nat) - fib(n) * fib(n) == d * b - c * c);
    }
}

/// Neighbouring approximations `p/q` and `p'/q'` of the golden ratio (depth
/// `d` and `d + 1`) are as far apart as two fractions with these
/// denominators can be close: `p' * q - p * q'` is `1` or `-1`, alternating.
pub proof fn lemma_neighbouring_approximations(d: nat)
    requires
        d >= 1,
    ensures
        ({
            let (p, q) = cf_value(all_ones(d));
            let (p2, q2) = cf_value(all_ones(d + 1));
            p2 * q - p * q2 == if d % 2 == 0 {
                -1int
            } else {
                1int
            }
        }),
{
    lemma_all_ones_value(d);
    lemma_all_ones_value(d + 1);
    lemma_cassini(d + 1);
}

/// The convergents of any continued fraction are unimodular neighbours:
/// `p_k * q_(k-1) - p_(k-1) * q_k == (-1)^k`.
pub proof fn lemma_cf_determinant(c: Seq<u64>, k: nat)
    requires
        1 <= k <= c.len(),
    ensures
        ({
            let s = cf_state(c, k);
            s.0 * s.3 - s.2 * s.1 == if k % 2 == 0 {
                1int
            } else {
                -1int
            }
        }),
    decreases k,
{
    if k > 1 {
        lemma_cf_determinant(c, (k - 1) as nat);
        let s = cf_state(c, (k - 1) as nat);
        let a = c[k - 1] as int;
        let p = s.0 as int;
        let q = s.1 as int;
        let p0 = s.2 as int;
        let q0 = s.3 as int;
        assert((a * p + p0) * q - p * (a * q + q0) == -(p * q0 - p0 * q)) by (nonlinear_arith);
        let t = cf_state(c, k);
        assert(t.0 == a * p + p0 && t.1 == a * q + q0 && t.2 == p && t.3 == q);
        assert(p * q0 - p0 * q == if (k - 1) as nat % 2 == 0 {
            1int
        } else {
            -1int
        });
        assert(t.0 * t.3 - t.2 * t.1 == (a * p + p0) * q - p * (a * q + q0));
    } else {
        let t = cf_state(c, k);
        assert(t.3 == 0 && t.2 == 1 && t.1 == 1);
        assert(t.0 * t.3 == 0);
    }
}

/// The recurrence state depends only on the coefficients it has taken in.
pub proof fn lemma_cf_state_prefix(c1: Seq<u64>, c2: Seq<u64>, k: nat)
    requires
        k >= 1,
        forall|i: int| 0 <= i < k ==> c1[i] == c2[i],
    ensures
        cf_state(c1, k) == cf_state(c2, k),
    decreases k,
{
    if k > 1 {
        lemma_cf_state_prefix(c1, c2, (k - 1) as nat);
        assert(c1[k - 1] == c2[k - 1]);
    }
}

/// A single coefficient `[a0]` is the fraction `a0 / 1`, and no coefficients
/// give `1 / 1`.
pub proof fn lemma_cf_value_short(a0: u64)
    ensures
        cf_value(seq![a0]) == (a0 as nat, 1nat),
        cf_value(Seq::<u64>::empty()) == (1nat, 1nat),
{
}

/// Appending a coefficient `a` follows the convergent recurrence with the
/// coefficient as given: the new fraction is `a` times the last one plus the
/// one before it (for one coefficient `[a0]`, the one before is `1 / 0`).
pub proof fn lemma_cf_value_push(c: Seq<u64>, a: u64)
    requires
        c.len() >= 1,
    ensures
        c.len() == 1 ==> cf_value(c.push(a)) == ((a * c[0] + 1) as nat, a as nat),
        c.len() >= 2 ==> cf_value(c.push(a)) == (
            (a * cf_value(c).0 + cf_value(c.drop_last()).0) as nat,
            (a * cf_value(c).1 + cf_value(c.drop_last()).1) as nat,
        ),
{
    let n = c.len();
    let d = c.push(a);
    lemma_cf_state_prefix(d, c, n);
    assert(d[n as int] == a);
    assert(d.len() == n + 1);
    let s1 = cf_state(d, n);
    assert(cf_state(d, n + 1) == (
        (a * s1.0 + s1.2) as nat,
        (a * s1.1 + s1.3) as nat,
        s1.0,
        s1.1,
    ));
    if n == 1 {
        assert(s1 == (c[0] as nat, 1nat, 1nat, 0nat));
    } else {
        lemma_cf_state_prefix(c, c.drop_last(), (n - 1) as nat);
    }
}

/// The Fibonacci numbers start `0, 1` and each is the sum of the two before.
pub proof fn lemma_fib_recurrence(n: nat)
    ensures
        fib(0) == 0,
        fib(1) == 1,
        fib(n + 2) == fib(n) + fib(n + 1),
{
}

/// The golden continued fraction of depth `d` is `d` coefficients, all `1`.
pub proof fn lemma_all_ones_shape(d: nat)
    ensures
        all_ones(d).len() == d,
        forall|i: int| 0 <= i < d ==> #[trigger] all_ones(d)[i] == 1,
{
}

/// Unfolding from the front: `[a0; a1, ..., an] == a0 + 1 / [a1; ..., an]`
/// as fractions, that is the value is `(a0 * p + q, p)` where `p / q` is the
/// value of the fraction without its first coefficient.
pub proof fn lemma_cf_value_head(c: Seq<u64>)
    requires
        c.len() >= 2,
    ensures
        cf_value(c) == (
            (c[0] * cf_value(c.drop_first()).0 + cf_value(c.drop_first()).1) as nat,
            cf_value(c.drop_first()).0,
        ),
    decreases c.len(),
{
    let n = c.len();
    let b = c.drop_last();
    let a = c.last();
    assert(c =~= b.push(a));
    lemma_cf_value_push(b, a);
    assert(c.drop_first() =~= b.drop_first().push(a));
    if n == 2 {
        assert(c.drop_first() =~= seq![c[1]]);
        lemma_cf_value_short(c[1]);
        let a0 = c[0] as int;
        let a1 = c[1] as int;
        assert(a1 * a0 + 1 == a0 * a1 + 1) by (nonlinear_arith);
    } else if n == 3 {
        lemma_cf_value_push(b.drop_first(), a);
        lemma_cf_value_head(b);
        assert(b.drop_first() =~= seq![c[1]]);
        assert(b.drop_last() =~= seq![c[0]]);
        lemma_cf_value_short(c[1]);
        lemma_cf_value_short(c[0]);
        let a0 = c[0] as int;
        let a1 = c[1] as int;
        let x = a as int;
        assert(x * (a0 * a1 + 1) + a0 == a0 * (x * a1 + 1) + x) by (nonlinear_arith);
        assert(x * a1 + 1 == a1 * x + 1) by (nonlinear_arith);
    } else {
        lemma_cf_value_push(b.drop_first(), a);
        lemma_cf_value_head(b);
        lemma_cf_value_head(b.drop_last());
        assert(b.drop_first().drop_last() =~= b.drop_last().drop_first());
        assert(b[0] == c[0]);
        assert(b.drop_last()[0] == c[0]);
        let a0 = c[0] as int;
        let x = a as int;
        let v0 = cf_value(b.drop_first()).0 as int;
        let v1 = cf_value(b.drop_first()).1 as int;
        let w0 = cf_value(b.drop_last().drop_first()).0 as int;
        let w1 = cf_value(b.drop_last().drop_first()).1 as int;
        assert(x * (a0 * v0 + v1) + (a0 * w0 + w1) == a0 * (x * v0 + w0) + (x * v1 + w1))
            by (nonlinear_arith);
    }
}

} // verus!
