//! Scaling an edge by a ratio of edges exactly as double-precision
//! arithmetic does, in integers: the ratio is rounded to 53 significant
//! bits, the product again, and the result is rounded or truncated to a
//! whole pixel.
use vstd::arithmetic::power2::{
    lemma2_to64, lemma2_to64_rest, lemma_pow2_adds, lemma_pow2_strictly_increases, lemma_pow2_unfold, pow2,
};
use vstd::prelude::*;

verus! {

/// `num / den` rounded to the nearest integer, ties to the even one.
pub open spec fn div_nearest_even(num: int, den: int) -> int {
    let q = num / den;
    let r = num % den;
    if 2 * r < den {
        q
    } else if 2 * r > den {
        q + 1
    } else if q % 2 == 0 {
        q
    } else {
        q + 1
    }
}

/// The first exponent from `k` on at which `num * 2^k` reaches
/// `2^52 * den`: the scale at which `num / den` has 53 integer bits.
pub open spec fn normalizing_exponent(num: nat, den: nat, k: nat) -> nat
    decreases 128 - k,
{
    if k >= 128 || num * pow2(k) >= pow2(52) * den {
        k
    } else {
        normalizing_exponent(num, den, k + 1)
    }
}

/// The first shift from `s` on that leaves `t` at most 53 bits long.
pub open spec fn significand_shift(t: nat, s: nat) -> nat
    decreases 128 - s,
{
    if s >= 128 || t < pow2(53 + s) {
        s
    } else {
        significand_shift(t, s + 1)
    }
}

/// `num / den` as a double-precision number, written as a significand
/// over `2^exponent`: the quotient scaled to 53 integer bits and rounded
/// to the nearest integer, ties to even.
pub open spec fn double_quotient(num: nat, den: nat) -> (int, nat) {
    let k = normalizing_exponent(num, den, 0);
    (div_nearest_even((num * pow2(k)) as int, den as int), k)
}

/// An integer `t` rounded to 53 significant bits, ties to even: the
/// double-precision value of `t / 2^k` for any scale `2^k`, times `2^k`.
pub open spec fn double_round(t: nat) -> int {
    let s = significand_shift(t, 0);
    div_nearest_even(t as int, pow2(s) as int) * pow2(s)
}

/// `edge * (limit / longest)` evaluated in double precision (the quotient
/// rounded, then the product rounded), as a numerator over
/// [`double_scale`].
pub open spec fn double_product(edge: nat, limit: nat, longest: nat) -> int {
    let (q, k) = double_quotient(limit, longest);
    double_round((edge * q) as nat)
}

/// The power of two that [`double_product`] is a numerator over.
pub open spec fn double_scale(limit: nat, longest: nat) -> nat {
    pow2(double_quotient(limit, longest).1)
}

/// `edge * (limit / longest)` in double precision, rounded to the nearest
/// integer with halves away from zero.
pub open spec fn double_scaled_edge(edge: nat, limit: nat, longest: nat) -> int {
    (2 * double_product(edge, limit, longest) + double_scale(limit, longest)) / (2 * double_scale(limit, longest) as int)
}

/// `edge * (limit / longest)` in double precision, rounded down.
pub open spec fn double_scaled_floor(edge: nat, limit: nat, longest: nat) -> int {
    double_product(edge, limit, longest) / (double_scale(limit, longest) as int)
}

/// 2^52.
const TWO_POW_52: u128 = 0x10_0000_0000_0000;

/// 2^53.
const TWO_POW_53: u128 = 0x20_0000_0000_0000;

fn div_nearest_even_u128(num: u128, den: u128) -> (r: u128)
    requires
        0 < den < 0x8000_0000_0000_0000_0000_0000_0000_0000,
        num < 0x8000_0000_0000_0000_0000_0000_0000_0000,
    ensures
        r == div_nearest_even(num as int, den as int),
        r <= num / den + 1,
{
    let q = num / den;
    let rem = num % den;
    proof {
        assert(q <= num) by (nonlinear_arith)
            requires
                den > 0,
                q == num / den,
        ;
    }
    if 2 * rem < den {
        q
    } else if 2 * rem > den {
        q + 1
    } else if q % 2 == 0 {
        q
    } else {
        q + 1
    }
}

/// `edge * (limit / longest)` in double precision, as the numerator and the
/// power of two it is over; see [`double_product`].
fn scaled_product(edge: u32, limit: u32, longest: u32) -> (r: (u128, u128))
    requires
        1 <= limit <= longest,
        edge <= longest,
    ensures
        r.0 == double_product(edge as nat, limit as nat, longest as nat),
        r.1 == double_scale(limit as nat, longest as nat),
        1 <= r.1 <= 0x100_0000_0000_0000_0000_0000,
        r.0 < 0x40_0000_0000_0000_0000_0000,
{
    proof {
        lemma2_to64();
        lemma2_to64_rest();
        lemma_pow2_adds(52, 32);
        lemma_pow2_adds(53, 32);
        lemma_pow2_adds(53, 33);
    }
    let ghost two84: int = pow2(84) as int;
    let bound: u128 = (longest as u128) * TWO_POW_52;
    let mut k: u32 = 0;
    let mut scaled: u128 = limit as u128;
    let mut power: u128 = 1;
    while scaled < bound
        invariant
            1 <= limit <= longest,
            pow2(52) == TWO_POW_52,
            two84 == pow2(84),
            two84 == TWO_POW_52 * 0x1_0000_0000,
            bound == longest * TWO_POW_52,
            k <= 84,
            power == pow2(k as nat),
            power >= 1,
            scaled == limit * power,
            power <= scaled,
            scaled < 2 * bound,
            normalizing_exponent(limit as nat, longest as nat, 0) == normalizing_exponent(
                limit as nat,
                longest as nat,
                k as nat,
            ),
        decreases 84 - k,
    {
        proof {
            if k == 84 {
                assert(bound < two84) by (nonlinear_arith)
                    requires
                        bound == longest * TWO_POW_52,
                        longest < 0x1_0000_0000,
                        two84 == TWO_POW_52 * 0x1_0000_0000,
                ;
            }
            lemma_pow2_unfold((k + 1) as nat);
            assert(2 * scaled == limit * (2 * power)) by (nonlinear_arith)
                requires
                    scaled == limit * power,
            ;
        }
        scaled = 2 * scaled;
        power = 2 * power;
        k = k + 1;
    }
    let q = div_nearest_even_u128(scaled, longest as u128);
    proof {
        assert(scaled / (longest as u128) < TWO_POW_53) by (nonlinear_arith)
            requires
                scaled < 2 * bound,
                bound == longest * TWO_POW_52,
                longest >= 1,
        ;
        assert((edge as int) * (q as int) <= 0xffff_ffff * TWO_POW_53) by (nonlinear_arith)
            requires
                q <= TWO_POW_53,
                edge <= 0xffff_ffff,
        ;
    }
    let t: u128 = (edge as u128) * q;
    let mut s: u32 = 0;
    let mut unit: u128 = 1;
    let mut top: u128 = TWO_POW_53;
    while t >= top
        invariant
            pow2(53) == TWO_POW_53,
            pow2(86) == TWO_POW_53 * 0x2_0000_0000,
            t <= 0xffff_ffff * TWO_POW_53,
            s <= 33,
            unit == pow2(s as nat),
            top == pow2((53 + s) as nat),
            top == TWO_POW_53 * unit,
            significand_shift(t as nat, 0) == significand_shift(t as nat, s as nat),
        decreases 33 - s,
    {
        proof {
            lemma_pow2_unfold((s + 1) as nat);
            lemma_pow2_unfold((53 + s + 1) as nat);
            if s == 33 {
                assert(top == pow2(86));
            }
        }
        unit = 2 * unit;
        top = 2 * top;
        s = s + 1;
    }
    let rounded = div_nearest_even_u128(t, unit);
    proof {
        assert(rounded * unit <= t + unit) by (nonlinear_arith)
            requires
                rounded <= t / unit + 1,
                unit > 0,
        ;
        assert(unit <= 0x2_0000_0000) by {
            lemma_pow2_adds(0, 33);
            if s < 33 {
                lemma_pow2_strictly_increases(s as nat, 33);
            }
        }
    }
    let n: u128 = rounded * unit;
    (n, power)
}

/// `edge * (limit / longest)` in double precision, rounded to the nearest
/// integer with halves away from zero.
pub fn round_scaled_edge(edge: u32, limit: u32, longest: u32) -> (r: u128)
    requires
        1 <= limit <= longest,
        edge <= longest,
    ensures
        r == double_scaled_edge(edge as nat, limit as nat, longest as nat),
{
    let (n, power) = scaled_product(edge, limit, longest);
    (2 * n + power) / (2 * power)
}

/// `edge * (limit / longest)` in double precision, rounded down.
pub fn floor_scaled_edge(edge: u32, limit: u32, longest: u32) -> (r: u128)
    requires
        1 <= limit <= longest,
        edge <= longest,
    ensures
        r == double_scaled_floor(edge as nat, limit as nat, longest as nat),
{
    let (n, power) = scaled_product(edge, limit, longest);
    n / power
}

/// The exponent search stops at the first scale at which `num * 2^k`
/// reaches `2^52 * den`, which for a quotient of at least `2^-32` comes by
/// 84.
proof fn lemma_normalizing_exponent(num: nat, den: nat, k0: nat)
    requires
        1 <= num,
        1 <= den < 0x1_0000_0000,
        k0 <= 84,
    ensures
        ({
            let k = normalizing_exponent(num, den, k0);
            &&& k0 <= k <= 84
            &&& num * pow2(k) >= pow2(52) * den
            &&& k == k0 || num * pow2((k - 1) as nat) < pow2(52) * den
        }),
    decreases 84 - k0,
{
    if num * pow2(k0) < pow2(52) * den {
        if k0 == 84 {
            lemma2_to64();
            lemma2_to64_rest();
            lemma_pow2_adds(52, 32);
            assert(num * pow2(84) >= pow2(52) * den) by (nonlinear_arith)
                requires
                    num >= 1,
                    den < 0x1_0000_0000,
                    pow2(84) == pow2(52) * 0x1_0000_0000,
                    pow2(52) > 0,
            ;
        }
        lemma_normalizing_exponent(num, den, k0 + 1);
    }
}

/// The shift search stops at the first shift that leaves at most 53 bits.
proof fn lemma_significand_shift(t: nat, s0: nat)
    requires
        t < pow2(86),
        s0 <= 33,
    ensures
        ({
            let s = significand_shift(t, s0);
            &&& s0 <= s <= 33
            &&& t < pow2(53 + s)
            &&& s == s0 || t >= pow2(52 + s)
        }),
    decreases 33 - s0,
{
    if t >= pow2(53 + s0) {
        if s0 == 33 {
            assert(false);
        }
        lemma_significand_shift(t, s0 + 1);
    }
}

/// Rounding `num / den` to the nearest integer is off by at most half a
/// unit: `|r * den - num| <= den / 2`.
proof fn lemma_div_nearest_even_error(num: int, den: int)
    requires
        den > 0,
    ensures
        2 * (div_nearest_even(num, den) * den - num) <= den,
        2 * (num - div_nearest_even(num, den) * den) <= den,
{
    vstd::arithmetic::div_mod::lemma_fundamental_div_mod(num, den);
    let q = num / den;
    let r = num % den;
    assert(0 <= r < den) by {
        vstd::arithmetic::div_mod::lemma_mod_bound(num, den);
    }
    assert(q * den == den * q && (q + 1) * den == q * den + den) by (nonlinear_arith);
    assert(num - q * den == r);
}

/// Scaling the longest edge itself gives exactly the limit: the two
/// double-precision roundings move the product by far less than half a
/// pixel.
pub proof fn lemma_double_scaled_longest(limit: nat, longest: nat)
    requires
        1 <= limit <= longest < 0x1_0000_0000,
    ensures
        double_scaled_edge(longest, limit, longest) == limit,
{
    lemma2_to64();
    lemma2_to64_rest();
    lemma_pow2_adds(53, 33);
    lemma_normalizing_exponent(limit, longest, 0);
    let k = normalizing_exponent(limit, longest, 0);
    let p = pow2(k);
    let two52 = pow2(52);
    assert(p >= two52) by (nonlinear_arith)
        requires
            limit * p >= two52 * longest,
            1 <= limit <= longest,
            two52 > 0,
    ;
    assert(k > 0) by {
        if k == 0 {
            assert(limit * p >= two52 * longest);
            assert(p == 1);
        }
    }
    lemma_pow2_unfold(k);
    assert(limit * p < 2 * two52 * longest) by (nonlinear_arith)
        requires
            limit * pow2((k - 1) as nat) < two52 * longest,
            p == 2 * pow2((k - 1) as nat),
    ;
    let q = div_nearest_even((limit * p) as int, longest as int);
    lemma_div_nearest_even_error((limit * p) as int, longest as int);
    let t = longest * q;
    assert(0 <= t <= 2 * two52 * longest + longest && t < pow2(86)) by (nonlinear_arith)
        requires
            2 * (q * longest - limit * p) <= longest,
            limit * p < 2 * two52 * longest,
            t == longest * q,
            longest < 0x1_0000_0000,
            two52 == 0x10_0000_0000_0000,
            pow2(86) == 0x20_0000_0000_0000 * 0x2_0000_0000,
            limit * p >= 0,
            2 * (limit * p - q * longest) <= longest,
    ;
    lemma_significand_shift(t as nat, 0);
    let s = significand_shift(t as nat, 0);
    let u = pow2(s);
    lemma_pow2_adds(52, s);
    let r = div_nearest_even(t, u as int);
    lemma_div_nearest_even_error(t, u as int);
    let n = r * u;
    // The quotient's scale dwarfs both the edge and the product's last unit.
    assert(longest * 0x10_0000 < p) by (nonlinear_arith)
        requires
            limit * p >= two52 * longest,
            limit < 0x1_0000_0000,
            two52 == 0x10_0000_0000_0000,
            longest >= 1,
    ;
    assert(u * 0x8_0000 < p) by (nonlinear_arith)
        requires
            s == 0 ==> u == 1,
            s > 0 ==> t >= two52 * u,
            p >= two52,
            2 * (t - limit * p) <= longest,
            limit < 0x1_0000_0000,
            longest * 0x10_0000 < p,
            two52 == 0x10_0000_0000_0000,
            u >= 1,
    ;
    assert(2 * limit * p <= 2 * n + p < 2 * limit * p + 2 * p) by (nonlinear_arith)
        requires
            2 * (n - t) <= u,
            2 * (t - n) <= u,
            2 * (t - limit * p) <= longest,
            2 * (limit * p - t) <= longest,
            longest * 0x10_0000 < p,
            u * 0x8_0000 < p,
            longest >= 1,
            u >= 1,
    ;
    assert((limit as int) * (2 * p as int) == 2 * limit * p) by (nonlinear_arith);
    vstd::arithmetic::div_mod::lemma_fundamental_div_mod_converse(
        2 * n + p,
        2 * p as int,
        limit as int,
        2 * n + p - 2 * limit * p,
    );
}

} // verus!
