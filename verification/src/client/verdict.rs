//! What the share of inversions says about a run.
//!
//! The share is taken in double precision: both counts are rounded to a double, and so is their
//! quotient.
use vstd::prelude::*;

verus! {

/// Every integer below this has a double of its own.
pub const EXACT_LIMIT: u64 = 9_007_199_254_740_992;

/// The distance between neighbouring doubles around `n`, or 1 where every integer is a double.
pub open spec fn spacing(n: nat) -> nat
    decreases n,
{
    if n < EXACT_LIMIT {
        1
    } else {
        2 * spacing(n / 2)
    }
}

/// The double nearest to `n`; of two that are equally near, the one with the even significand.
pub open spec fn nearest_double(n: nat) -> nat {
    let step = spacing(n);
    let below = n / step;
    let rest = n % step;
    if n < EXACT_LIMIT {
        n
    } else if 2 * rest < step || (2 * rest == step && below % 2 == 0) {
        below * step
    } else {
        (below + 1) * step
    }
}

/// Whether `a / b`, rounded to the nearest double, is at most a quarter. The next double after a
/// quarter is `(1 + 2 / EXACT_LIMIT) / 4`, and the point half-way to it is still rounded down: the
/// factors are `4 * EXACT_LIMIT` and `EXACT_LIMIT + 1`.
pub open spec fn at_most_a_quarter(a: nat, b: nat) -> bool {
    36_028_797_018_963_968 * a <= 9_007_199_254_740_993 * b
}

/// Whether `a / b`, rounded to the nearest double, is at most a half. The factors are
/// `2 * EXACT_LIMIT` and `EXACT_LIMIT + 1`.
pub open spec fn at_most_a_half(a: nat, b: nat) -> bool {
    18_014_398_509_481_984 * a <= 9_007_199_254_740_993 * b
}

/// The verdict on a number of inversions among a number of pairs.
pub open spec fn verdict(pairs: nat, inversions: nat) -> Seq<char> {
    let p = nearest_double(pairs);
    let i = nearest_double(inversions);
    if pairs == 0 {
        "insufficient data"@
    } else if inversions == 0 {
        "priorities honored"@
    } else if at_most_a_quarter(i, p) {
        "mostly honored"@
    } else if at_most_a_half(i, p) {
        "mixed"@
    } else {
        "not honored"@
    }
}

proof fn lemma_spacing(n: nat)
    ensures
        1 <= spacing(n),
        n >= EXACT_LIMIT ==> spacing(n) >= 2 && EXACT_LIMIT <= 2 * (n / spacing(n)),
        n / spacing(n) < EXACT_LIMIT,
    decreases n,
{
    if n >= EXACT_LIMIT {
        let half = n / 2;
        let s = spacing(half);
        lemma_spacing(half);
        assert(n / (2 * s) == half / s) by {
            vstd::arithmetic::div_mod::lemma_div_denominator(n as int, 2, s as int);
        }
        if half < EXACT_LIMIT {
            assert(half / 1 == half);
        }
    } else {
        assert(n / 1 == n);
    }
}

proof fn lemma_nearest_double(n: nat)
    ensures
        n < EXACT_LIMIT ==> nearest_double(n) == n,
        n >= EXACT_LIMIT ==> nearest_double(n) >= EXACT_LIMIT,
        nearest_double(n) <= 2 * n,
{
    if n >= EXACT_LIMIT {
        let s = spacing(n);
        let q = n / s;
        lemma_spacing(n);
        vstd::arithmetic::div_mod::lemma_fundamental_div_mod(n as int, s as int);
        vstd::arithmetic::div_mod::lemma_mod_bound(n as int, s as int);
        assert(s * q == q * s && (q + 1) * s == q * s + s) by (nonlinear_arith);
        assert(q * s >= EXACT_LIMIT) by (nonlinear_arith)
            requires
                s >= 2,
                2 * q >= EXACT_LIMIT,
        ;
        assert(q * s >= s) by (nonlinear_arith)
            requires
                q >= 1,
                s >= 0,
        ;
    }
}

/// Rounds a count to the nearest double.
fn round_to_double(n: u64) -> (r: u128)
    ensures
        r == nearest_double(n as nat),
        r <= 2 * n,
{
    if n < EXACT_LIMIT {
        return n as u128;
    }
    let mut step: u64 = 1;
    let mut m: u64 = n;
    while m >= EXACT_LIMIT
        invariant
            step >= 1,
            step * m <= n,
            spacing(n as nat) == step * spacing(m as nat),
        decreases m,
    {
        let ghost before = spacing(m as nat);
        assert(before == 2 * spacing((m / 2) as nat));
        assert(2 * step <= n && (2 * step) * (m / 2) <= n) by (nonlinear_arith)
            requires
                step >= 1,
                m >= 2,
                step * m <= n,
        ;
        assert(step * (2 * spacing((m / 2) as nat)) == (2 * step) * spacing((m / 2) as nat))
            by (nonlinear_arith);
        step = step * 2;
        m = m / 2;
    }
    assert(step * 1 == step);
    let below: u128 = (n / step) as u128;
    let rest: u128 = (n % step) as u128;
    proof {
        lemma_nearest_double(n as nat);
        vstd::arithmetic::div_mod::lemma_fundamental_div_mod(n as int, step as int);
    }
    assert(below * step <= n && (below + 1) * step <= n + step) by (nonlinear_arith)
        requires
            n == step * below + rest,
            rest >= 0,
    ;
    let wide: u128 = step as u128;
    if 2 * rest < wide || (2 * rest == wide && below % 2 == 0) {
        below * wide
    } else {
        (below + 1) * wide
    }
}

/// Judges a run by its number of inversions among a number of pairs.
pub fn verdict_from_ratio(pairs: usize, inversions: usize) -> (r: &'static str)
    ensures
        r@ == verdict(pairs as nat, inversions as nat),
{
    if pairs == 0 {
        return "insufficient data";
    }
    if inversions == 0 {
        return "priorities honored";
    }
    let p = round_to_double(pairs as u64);
    let i = round_to_double(inversions as u64);
    if 36_028_797_018_963_968 * i <= 9_007_199_254_740_993 * p {
        "mostly honored"
    } else if 18_014_398_509_481_984 * i <= 9_007_199_254_740_993 * p {
        "mixed"
    } else {
        "not honored"
    }
}

/// As long as the number of pairs has a double of its own, rounding plays no role: with inversions,
/// priorities are mostly honored up to a quarter of the pairs, and mixed up to a half.
pub proof fn law_verdict_goes_by_the_exact_share(pairs: nat, inversions: nat)
    requires
        0 < pairs < EXACT_LIMIT,
        0 < inversions,
    ensures
        verdict(pairs, inversions) == if 4 * inversions <= pairs {
            "mostly honored"@
        } else if 2 * inversions <= pairs {
            "mixed"@
        } else {
            "not honored"@
        },
{
    lemma_nearest_double(pairs);
    lemma_nearest_double(inversions);
}

/// Without pairs there is no verdict, and without inversions priorities are honored.
pub proof fn law_clear_verdicts(pairs: nat, inversions: nat)
    ensures
        verdict(0, inversions) == "insufficient data"@,
        pairs > 0 ==> verdict(pairs, 0) == "priorities honored"@,
{
}

proof fn lemma_spacing_is_power(n: nat) -> (e: nat)
    ensures
        spacing(n) == vstd::arithmetic::power2::pow2(e),
    decreases n,
{
    if n < EXACT_LIMIT {
        vstd::arithmetic::power2::lemma2_to64();
        0
    } else {
        let e = lemma_spacing_is_power(n / 2);
        vstd::arithmetic::power2::lemma_pow2_unfold(e + 1);
        e + 1
    }
}

/// Rounding a count gives a double that is off by at most half the distance between its
/// neighbours, and off by nothing where the count is below 2^53. That distance is a power of two
/// that leaves the count 53 binary digits.
pub proof fn law_rounding_is_to_the_nearest(n: nat)
    ensures
        n < 9_007_199_254_740_992 ==> nearest_double(n) == n,
        n >= 9_007_199_254_740_992 ==> {
            let step = spacing(n);
            &&& exists|e: nat| step == #[trigger] vstd::arithmetic::power2::pow2(e)
            &&& 4_503_599_627_370_496 <= n / step < 9_007_199_254_740_992
            &&& nearest_double(n) % step == 0
            &&& 2 * (nearest_double(n) - n) <= step
            &&& 2 * (n - nearest_double(n)) <= step
            &&& 2 * (nearest_double(n) - n) == step || 2 * (n - nearest_double(n)) == step ==> (
            nearest_double(n) / step) % 2 == 0
        },
{
    if n >= EXACT_LIMIT {
        let s = spacing(n);
        let q = n / s;
        let r = n % s;
        lemma_spacing(n);
        let e = lemma_spacing_is_power(n);
        vstd::arithmetic::div_mod::lemma_fundamental_div_mod(n as int, s as int);
        vstd::arithmetic::div_mod::lemma_mod_bound(n as int, s as int);
        assert(s * q == q * s && (q + 1) * s == q * s + s) by (nonlinear_arith);
        vstd::arithmetic::div_mod::lemma_mod_multiples_basic(q as int, s as int);
        vstd::arithmetic::div_mod::lemma_mod_multiples_basic(q as int + 1, s as int);
        vstd::arithmetic::div_mod::lemma_div_by_multiple(q as int, s as int);
        vstd::arithmetic::div_mod::lemma_div_by_multiple(q as int + 1, s as int);
    }
}

/// With pairs and inversions, the rounded counts decide: a share whose double is at most a quarter
/// is mostly honored, one at most a half is mixed, any other is not honored. The largest share
/// whose double is a quarter is `(2^53 + 1) / 2^55`, and likewise `(2^53 + 1) / 2^54` for a half.
pub proof fn law_verdict_goes_by_the_rounded_share(pairs: nat, inversions: nat)
    requires
        pairs > 0,
        inversions > 0,
    ensures
        verdict(pairs, inversions) == {
            let i = nearest_double(inversions) as int;
            let p = nearest_double(pairs) as int;
            if 36_028_797_018_963_968 * i <= 9_007_199_254_740_993 * p {
                "mostly honored"@
            } else if 18_014_398_509_481_984 * i <= 9_007_199_254_740_993 * p {
                "mixed"@
            } else {
                "not honored"@
            }
        },
{
}

} // verus!
