//! Binary floating point numbers of at least zero, in integers.
//!
//! A number with so many significant bits is an integer below `limit`, the
//! power of two with that exponent, times a power of two. A result that is not
//! such a number is rounded to the nearest one, and of two equally near ones to
//! the one that is even.
use vstd::arithmetic::power2::{
    lemma2_to64, lemma2_to64_rest, lemma_pow2_strictly_increases, lemma_pow2_unfold, pow2,
};
use vstd::prelude::*;

use crate::system::stats::MOST_TIME;
use crate::units::{nearest, round_nearest};

verus! {

/// The limit for the 53 bits of a double.
pub const DOUBLE: u128 = 9007199254740992;

/// The limit for the 24 bits of a single.
pub const SINGLE: u128 = 16777216;

/// The largest number that is taken in: twice the most processor time.
pub const MOST: u128 = 368934881474191032300;

/// `num / den` rounded, where it is too large for an integer below the limit.
pub open spec fn shrunk(num: nat, den: nat, limit: nat) -> nat
    decreases num - den,
{
    if den == 0 || num < 2 * den || num < den * limit {
        nearest(num, den)
    } else {
        2 * shrunk(num, 2 * den, limit)
    }
}

/// `num / den` rounded, where it is no larger than the limit, as a fraction
/// whose denominator is a power of two.
pub open spec fn grown(num: nat, den: nat, limit: nat) -> (nat, nat)
    decreases den * limit - num,
{
    if num == 0 || 2 * num >= den * limit {
        (nearest(num, den), 1)
    } else {
        let r = grown(2 * num, den, limit);
        (r.0, 2 * r.1)
    }
}

/// `num / den` rounded, as a fraction whose denominator is a power of two.
pub open spec fn quotient(num: nat, den: nat, limit: nat) -> (nat, nat) {
    if num >= den * limit {
        (shrunk(num, den, limit), 1)
    } else {
        grown(num, den, limit)
    }
}

/// An integer rounded.
pub open spec fn rounded(n: nat, limit: nat) -> nat {
    if n < limit {
        n
    } else {
        shrunk(n, 1, limit)
    }
}

/// How many percent `part` is of `whole`, as a double: the quotient times a
/// hundred. The denominator of the quotient is a power of two, so that only the
/// numerator of the product is rounded.
pub open spec fn double_percent(part: nat, whole: nat) -> (nat, nat) {
    let q = quotient(rounded(part, DOUBLE as nat), rounded(whole, DOUBLE as nat), DOUBLE as nat);
    (rounded(q.0 * 100, DOUBLE as nat), q.1)
}

/// How many percent `part` is of `whole`, as a double that was made a single.
pub open spec fn single_percent(part: nat, whole: nat) -> (nat, nat) {
    let p = double_percent(part, whole);
    (rounded(p.0, SINGLE as nat), p.1)
}

// ----- computing -----

pub proof fn lemma_nearest(num: nat, den: nat)
    requires
        den > 0,
    ensures
        2 * (nearest(num, den) * den) <= 2 * num + den,
        2 * num <= 2 * (nearest(num, den) * den) + den,
{
    let q = num / den;
    let r = num % den;
    assert(num == q * den + r) by {
        vstd::arithmetic::div_mod::lemma_fundamental_div_mod(num as int, den as int);
        vstd::arithmetic::mul::lemma_mul_is_commutative(q as int, den as int);
    }
    assert((q + 1) * den == q * den + den) by (nonlinear_arith);
}

fn shrink(num: u128, den: u128, limit: u128) -> (r: u128)
    requires
        0 < den <= num <= 400 * MOST,
        2 <= limit <= DOUBLE,
        den * limit <= 2 * num,
    ensures
        r == shrunk(num as nat, den as nat, limit as nat),
        1 <= r <= 2 * num,
        r * den <= 2 * num,
    decreases num - den,
{
    proof {
        assert(2 * den <= den * limit) by (nonlinear_arith)
            requires
                limit >= 2,
        ;
        lemma_nearest(num as nat, den as nat);
    }
    if num < den * limit {
        let m = round_nearest(num, den);
        proof {
            assert(m >= 1) by (nonlinear_arith)
                requires
                    2 * num <= 2 * (m * den) + den,
                    den <= num,
                    den > 0,
            ;
            assert(m <= m * den) by (nonlinear_arith)
                requires
                    den >= 1,
            ;
        }
        m
    } else {
        assert((2 * den) * limit == 2 * (den * limit)) by (nonlinear_arith);
        let m = shrink(num, 2 * den, limit);
        proof {
            assert((2 * m) * den == m * (2 * den)) by (nonlinear_arith);
            assert(2 * m <= (2 * m) * den) by (nonlinear_arith)
                requires
                    den >= 1,
            ;
        }
        2 * m
    }
}

fn grow(num: u128, den: u128, limit: u128) -> (r: (u128, u128))
    requires
        0 < den <= MOST,
        2 <= limit <= DOUBLE,
        num < den * limit,
    ensures
        r.0 == grown(num as nat, den as nat, limit as nat).0,
        r.1 == grown(num as nat, den as nat, limit as nat).1,
        r.0 <= limit,
        1 <= r.1 <= den * limit,
        r.1 * num <= den * limit,
    decreases den * limit - num,
{
    proof {
        assert(den * limit <= MOST * DOUBLE) by (nonlinear_arith)
            requires
                den <= MOST,
                limit <= DOUBLE,
        ;
    }
    if num == 0 || 2 * num >= den * limit {
        proof {
            lemma_nearest(num as nat, den as nat);
        }
        let m = round_nearest(num, den);
        assert(m <= limit) by (nonlinear_arith)
            requires
                2 * (m * den) <= 2 * num + den,
                num < den * limit,
                den > 0,
        ;
        (m, 1)
    } else {
        let (m, b) = grow(2 * num, den, limit);
        proof {
            assert(b * (2 * num) == (2 * b) * num) by (nonlinear_arith);
            assert(2 * b <= (2 * b) * num) by (nonlinear_arith)
                requires
                    num >= 1,
            ;
        }
        (m, 2 * b)
    }
}

pub(crate) fn divide(num: u128, den: u128, limit: u128) -> (r: (u128, u128))
    requires
        num <= MOST,
        0 < den <= MOST,
        2 <= limit <= DOUBLE,
    ensures
        r.0 == quotient(num as nat, den as nat, limit as nat).0,
        r.1 == quotient(num as nat, den as nat, limit as nat).1,
        r.0 <= 2 * MOST,
        1 <= r.1 <= MOST * DOUBLE,
{
    proof {
        assert(den * limit <= MOST * DOUBLE) by (nonlinear_arith)
            requires
                den <= MOST,
                limit <= DOUBLE,
        ;
        assert(den <= den * limit) by (nonlinear_arith)
            requires
                limit >= 2,
        ;
    }
    if num >= den * limit {
        (shrink(num, den, limit), 1)
    } else {
        grow(num, den, limit)
    }
}

pub(crate) fn round_integer(n: u128, limit: u128) -> (r: u128)
    requires
        n <= 400 * MOST,
        2 <= limit <= DOUBLE,
    ensures
        r == rounded(n as nat, limit as nat),
        r <= 2 * n,
        n > 0 ==> r > 0,
{
    if n < limit {
        n
    } else {
        shrink(n, 1, limit)
    }
}

/// How many percent `part` is of `whole`, as a double.
pub fn percent_as_double(part: u128, whole: u128) -> (r: (u128, u128))
    requires
        part <= MOST_TIME,
        0 < whole <= MOST_TIME,
    ensures
        (r.0 as nat, r.1 as nat) == double_percent(part as nat, whole as nat),
        r.0 <= 400 * MOST,
        1 <= r.1 <= MOST * DOUBLE,
{
    let p = round_integer(part, DOUBLE);
    let w = round_integer(whole, DOUBLE);
    let (m, b) = divide(p, w, DOUBLE);
    (round_integer(m * 100, DOUBLE), b)
}

/// How many percent `part` is of `whole`, as a double that was made a single.
pub fn percent_as_single(part: u128, whole: u128) -> (r: (u128, u128))
    requires
        part <= MOST_TIME,
        0 < whole <= MOST_TIME,
    ensures
        (r.0 as nat, r.1 as nat) == single_percent(part as nat, whole as nat),
        r.0 <= 800 * MOST,
        1 <= r.1 <= MOST * DOUBLE,
{
    let (c, b) = percent_as_double(part, whole);
    (round_integer(c, SINGLE), b)
}

// ----- how far a result is off -----

/// A power of two above one is even.
pub proof fn lemma_even_power(k: nat)
    requires
        pow2(k) > 1,
    ensures
        pow2(k) == 2 * (pow2(k) / 2),
{
    lemma2_to64();
    if k > 0 {
        lemma_pow2_unfold(k);
    }
}

/// The integer that lies less than one half off is the nearest.
pub proof fn lemma_is_nearest(num: nat, den: nat, q: nat)
    requires
        den > 0,
        2 * (q * den) < 2 * num + den,
        2 * num < 2 * (q * den) + den,
    ensures
        nearest(num, den) == q,
{
    lemma_nearest(num, den);
    let n = nearest(num, den);
    assert(n == q) by (nonlinear_arith)
        requires
            den > 0,
            2 * (q * den) < 2 * num + den,
            2 * num < 2 * (q * den) + den,
            2 * (n * den) <= 2 * num + den,
            2 * num <= 2 * (n * den) + den,
    ;
}

proof fn lemma_shrunk(num: nat, den: nat, limit: nat)
    requires
        den > 0,
        limit >= 2,
        num >= den * limit,
    ensures
        limit * (shrunk(num, den, limit) * den) <= limit * num + num,
        limit * num <= limit * (shrunk(num, den, limit) * den) + num,
    decreases num - den,
{
    assert(2 * den <= den * limit) by (nonlinear_arith)
        requires
            limit >= 2,
    ;
    let m = shrunk(num, 2 * den, limit);
    assert((2 * den) * limit == 2 * (den * limit)) by (nonlinear_arith);
    assert((2 * m) * den == m * (2 * den)) by (nonlinear_arith);
    if num >= (2 * den) * limit {
        lemma_shrunk(num, 2 * den, limit);
    } else {
        lemma_nearest(num, 2 * den);
        let x = m * (2 * den);
        assert(limit * x <= limit * num + num && limit * num <= limit * x + num)
            by (nonlinear_arith)
            requires
                2 * x <= 2 * num + 2 * den,
                2 * num <= 2 * x + 2 * den,
                den * limit <= num,
        ;
    }
}

proof fn lemma_rounded(n: nat, limit: nat)
    requires
        limit >= 2,
    ensures
        limit * rounded(n, limit) <= limit * n + n,
        limit * n <= limit * rounded(n, limit) + n,
{
    if n >= limit {
        lemma_shrunk(n, 1, limit);
    }
}

pub proof fn lemma_grown(num: nat, den: nat, limit: nat) -> (k: nat)
    requires
        0 < num < den * limit,
    ensures
        ({
            let (m, b) = grown(num, den, limit);
            &&& b == pow2(k)
            &&& m == nearest(num * b, den)
            &&& den * limit <= 2 * (num * b)
            &&& num * b < den * limit
        }),
    decreases den * limit - num,
{
    if 2 * num >= den * limit {
        lemma2_to64();
        0
    } else {
        let k = lemma_grown(2 * num, den, limit);
        let b = grown(2 * num, den, limit).1;
        lemma_pow2_unfold(k + 1);
        assert((2 * num) * b == num * (2 * b)) by (nonlinear_arith);
        k + 1
    }
}

/// The part up to which a share that lies clear of the middle between two
/// integers is rounded as if it were exact.
pub const CLEAR: u128 = 8796093022208;

/// The same for a share that is made a single.
pub const CLEAR_SINGLE: u128 = 32768;

/// How far a percentage is off, and what it is made of.
proof fn lemma_double_percent(part: nat, whole: nat) -> (k: nat)
    requires
        0 < part <= CLEAR,
        0 < whole < DOUBLE,
    ensures
        ({
            let (c, b) = double_percent(part, whole);
            let m = nearest(part * b, whole);
            &&& b == pow2(k)
            &&& c == rounded(m * 100, DOUBLE as nat)
            &&& c <= 100 * DOUBLE + 100
            &&& whole * DOUBLE <= 2 * (part * b)
            &&& part * b < whole * DOUBLE
            &&& c * whole <= 100 * part * b + 150 * whole
            &&& 100 * part * b <= c * whole + 150 * whole
        }),
{
    let d = DOUBLE as nat;
    assert(part < whole * d) by (nonlinear_arith)
        requires
            part < d,
            whole >= 1,
    ;
    let k = lemma_grown(part, whole, d);
    let (m, b) = grown(part, whole, d);
    let c = rounded(m * 100, d);
    lemma_nearest(part * b, whole);
    assert(m <= d) by (nonlinear_arith)
        requires
            2 * (m * whole) <= 2 * (part * b) + whole,
            part * b < whole * d,
            whole > 0,
    ;
    lemma_rounded(m * 100, d);
    assert(c <= m * 100 + 100 && m * 100 <= c + 100) by (nonlinear_arith)
        requires
            d * c <= d * (m * 100) + m * 100,
            d * (m * 100) <= d * c + m * 100,
            m <= d,
            d > 0,
    ;
    assert(100 * part * b == 100 * (part * b)) by (nonlinear_arith);
    assert(c * whole <= (m * 100 + 100) * whole) by (nonlinear_arith)
        requires
            c <= m * 100 + 100,
    ;
    assert(m * 100 * whole <= (c + 100) * whole) by (nonlinear_arith)
        requires
            m * 100 <= c + 100,
    ;
    assert((m * 100 + 100) * whole == 100 * (m * whole) + 100 * whole) by (nonlinear_arith);
    assert((c + 100) * whole == c * whole + 100 * whole) by (nonlinear_arith);
    assert(m * 100 * whole == 100 * (m * whole)) by (nonlinear_arith);
    k
}

/// A fraction that is this near to a share rounds as the share does, where the
/// share lies clear of the middle between two integers.
proof fn lemma_rounds_alike(x: nat, b: nat, part: nat, whole: nat, e: nat)
    requires
        whole > 0,
        x * whole <= 100 * part * b + e * whole,
        100 * part * b <= x * whole + e * whole,
        2 * (e * whole) < b,
        2 * ((part * 100) % whole) != whole,
    ensures
        nearest(x, b) == nearest(part * 100, whole),
{
    let q = nearest(part * 100, whole);
    let n = part * 100;
    let r = n % whole;
    assert(2 * (q * whole) + 1 <= 2 * n + whole && 2 * n + 1 <= 2 * (q * whole) + whole) by {
        vstd::arithmetic::div_mod::lemma_fundamental_div_mod(n as int, whole as int);
        let d = n / whole;
        assert(n == d * whole + r) by {
            vstd::arithmetic::mul::lemma_mul_is_commutative(d as int, whole as int);
        }
        assert((d + 1) * whole == d * whole + whole) by (nonlinear_arith);
    }
    let qb = q * b;
    assert(2 * qb < 2 * x + b && 2 * x < 2 * qb + b) by {
        let qw = q * whole;
        assert(2 * (n * b) + b <= 2 * (qw * b) + whole * b) by (nonlinear_arith)
            requires
                2 * n + 1 <= 2 * qw + whole,
        ;
        assert(2 * (qw * b) + b <= 2 * (n * b) + whole * b) by (nonlinear_arith)
            requires
                2 * qw + 1 <= 2 * n + whole,
        ;
        assert(n * b == 100 * part * b) by (nonlinear_arith)
            requires
                n == part * 100,
        ;
        assert(qw * b == qb * whole) by (nonlinear_arith)
            requires
                qw == q * whole,
                qb == q * b,
        ;
        assert(2 * (x * whole) < 2 * (qb * whole) + whole * b);
        assert(2 * (qb * whole) < 2 * (x * whole) + whole * b);
        assert(2 * x < 2 * qb + b) by (nonlinear_arith)
            requires
                2 * (x * whole) < 2 * (qb * whole) + whole * b,
                whole > 0,
        ;
        assert(2 * qb < 2 * x + b) by (nonlinear_arith)
            requires
                2 * (qb * whole) < 2 * (x * whole) + whole * b,
                whole > 0,
        ;
    }
    lemma_is_nearest(x, b, q);
}

/// A fraction that is this near to a share lies on the same side of a bound,
/// where the share is not the bound.
proof fn lemma_same_side(x: nat, b: nat, part: nat, whole: nat, e: nat, t: nat)
    requires
        whole > 0,
        x * whole <= 100 * part * b + e * whole,
        100 * part * b <= x * whole + e * whole,
        e * whole < b,
        part * 100 != whole * t,
    ensures
        (x > t * b) == (part * 100 > whole * t),
{
    let n = part * 100;
    let tw = whole * t;
    assert(n * b == 100 * part * b) by (nonlinear_arith)
        requires
            n == part * 100,
    ;
    assert(tw * b == (t * b) * whole) by (nonlinear_arith)
        requires
            tw == whole * t,
    ;
    let tb = t * b;
    if n > tw {
        assert(n * b >= tw * b + b) by (nonlinear_arith)
            requires
                n >= tw + 1,
        ;
        assert(x > tb) by (nonlinear_arith)
            requires
                x * whole > tb * whole,
        ;
    } else {
        assert(n * b + b <= tw * b) by (nonlinear_arith)
            requires
                n + 1 <= tw,
        ;
        assert(x < tb) by (nonlinear_arith)
            requires
                x * whole < tb * whole,
        ;
    }
}

proof fn lemma_bound_constants()
    ensures
        rounded(810647932926689300, DOUBLE as nat) == 90 * DOUBLE,
        rounded(630503947831869400, DOUBLE as nat) == 70 * DOUBLE,
        rounded((90 * DOUBLE) as nat, SINGLE as nat) == 90 * DOUBLE,
        rounded((70 * DOUBLE) as nat, SINGLE as nat) == 70 * DOUBLE,
{
    reveal_with_fuel(shrunk, 40);
}

/// A share of exactly 90 or 70 percent gives exactly that.
proof fn lemma_at_bound(part: nat, whole: nat, t: nat)
    requires
        0 < part <= CLEAR,
        0 < whole < DOUBLE,
        t == 90 || t == 70,
        part * 100 == whole * t,
    ensures
        double_percent(part, whole).0 == t * double_percent(part, whole).1,
        single_percent(part, whole).0 == t * single_percent(part, whole).1,
{
    let k = lemma_double_percent(part, whole);
    let (c, b) = double_percent(part, whole);
    let d = DOUBLE as nat;
    let pb = part * b;
    assert(100 * pb == t * (whole * b)) by (nonlinear_arith)
        requires
            part * 100 == whole * t,
            pb == part * b,
    ;
    assert(50 * d <= t * b && t * b < 100 * d) by (nonlinear_arith)
        requires
            100 * pb == t * (whole * b),
            whole * d <= 2 * pb,
            pb < whole * d,
            whole > 0,
    ;
    lemma2_to64_rest();
    assert(pow2(52) == 4503599627370496 && pow2(53) == d && pow2(54) == 18014398509481984);
    if k < 53 {
        if k < 52 {
            lemma_pow2_strictly_increases(k, 52);
        }
        assert(false);
    }
    if k > 53 {
        if k > 54 {
            lemma_pow2_strictly_increases(54, k);
        }
        assert(false);
    }
    let m: nat = if t == 90 {
        8106479329266893
    } else {
        6305039478318694
    };
    assert(b == d);
    assert(2 * (m * whole) < 2 * pb + whole && 2 * pb < 2 * (m * whole) + whole)
        by (nonlinear_arith)
        requires
            100 * pb == t * (whole * b),
            b == 9007199254740992,
            t == 90 && m == 8106479329266893 || t == 70 && m == 6305039478318694,
            whole > 0,
    ;
    lemma_is_nearest(pb, whole, m);
    lemma_bound_constants();
}

proof fn lemma_single_error(part: nat, whole: nat)
    requires
        0 < part <= CLEAR_SINGLE,
        0 < whole < DOUBLE,
    ensures
        ({
            let (s, b) = single_percent(part, whole);
            let e: nat = 53687091350;
            &&& s * whole <= 100 * part * b + e * whole
            &&& 100 * part * b <= s * whole + e * whole
            &&& 2 * (e * whole) < b
        }),
{
    let k = lemma_double_percent(part, whole);
    let (c, b) = double_percent(part, whole);
    let s = rounded(c, SINGLE as nat);
    lemma_rounded(c, SINGLE as nat);
    let g: nat = 53687091200;
    assert(s <= c + g && c <= s + g);
    assert(s * whole <= c * whole + g * whole && c * whole <= s * whole + g * whole)
        by (nonlinear_arith)
        requires
            s <= c + g,
            c <= s + g,
    ;
    assert(137438953472 * whole <= b) by (nonlinear_arith)
        requires
            whole * 9007199254740992 <= 2 * (part * b),
            part <= 32768,
    ;
}

proof fn lemma_double_room(part: nat, whole: nat)
    requires
        0 < part <= CLEAR,
        0 < whole < DOUBLE,
    ensures
        2 * (150 * whole) < double_percent(part, whole).1,
{
    let k = lemma_double_percent(part, whole);
    let b = double_percent(part, whole).1;
    assert(512 * whole <= b) by (nonlinear_arith)
        requires
            whole * 9007199254740992 <= 2 * (part * b),
            part <= 8796093022208,
    ;
}

proof fn lemma_no_part(whole: nat)
    requires
        whole > 0,
    ensures
        double_percent(0, whole) == (0nat, 1nat),
        single_percent(0, whole) == (0nat, 1nat),
{
    let w = rounded(whole, DOUBLE as nat);
    lemma_rounded(whole, DOUBLE as nat);
    assert(w > 0) by (nonlinear_arith)
        requires
            9007199254740992 * whole <= 9007199254740992 * w + whole,
            whole > 0,
    ;
    assert(0 < w * DOUBLE);
    assert(0nat / w == 0 && 0nat % w == 0) by (nonlinear_arith)
        requires
            w > 0,
    ;
}

/// A share that lies clear of the middle between two integers is rounded as if
/// it were exact.
pub proof fn lemma_clear_double(part: nat, whole: nat)
    requires
        part <= CLEAR,
        0 < whole < DOUBLE,
        2 * ((part * 100) % whole) != whole,
    ensures
        ({
            let (c, b) = double_percent(part, whole);
            nearest(c, b) == nearest(part * 100, whole)
        }),
{
    if part == 0 {
        lemma_no_part(whole);
        assert(0 * whole == 0);
        lemma_is_nearest(0, whole, 0);
        lemma_is_nearest(0, 1, 0);
    } else {
        let k = lemma_double_percent(part, whole);
        lemma_double_room(part, whole);
        let (c, b) = double_percent(part, whole);
        lemma_rounds_alike(c, b, part, whole, 150);
    }
}

/// The same for a share that is made a single.
pub proof fn lemma_clear_single(part: nat, whole: nat)
    requires
        part <= CLEAR_SINGLE,
        0 < whole < DOUBLE,
        2 * ((part * 100) % whole) != whole,
    ensures
        ({
            let (c, b) = single_percent(part, whole);
            nearest(c, b) == nearest(part * 100, whole)
        }),
{
    if part == 0 {
        lemma_no_part(whole);
        assert(0 * whole == 0);
        lemma_is_nearest(0, whole, 0);
        lemma_is_nearest(0, 1, 0);
    } else {
        lemma_single_error(part, whole);
        let (c, b) = single_percent(part, whole);
        lemma_rounds_alike(c, b, part, whole, 53687091350);
    }
}

/// A share lies above 90 or 70 percent as if it were exact.
pub proof fn lemma_above_double(part: nat, whole: nat, t: nat)
    requires
        part <= CLEAR,
        0 < whole < DOUBLE,
        t == 90 || t == 70,
    ensures
        ({
            let (c, b) = double_percent(part, whole);
            (c > t * b) == (part * 100 > whole * t)
        }),
{
    if part == 0 {
        lemma_no_part(whole);
    } else if part * 100 == whole * t {
        lemma_at_bound(part, whole, t);
    } else {
        let k = lemma_double_percent(part, whole);
        lemma_double_room(part, whole);
        let (c, b) = double_percent(part, whole);
        lemma_same_side(c, b, part, whole, 150, t);
    }
}

/// The same for a share that is made a single.
pub proof fn lemma_above_single(part: nat, whole: nat, t: nat)
    requires
        part <= CLEAR_SINGLE,
        0 < whole < DOUBLE,
        t == 90 || t == 70,
    ensures
        ({
            let (c, b) = single_percent(part, whole);
            (c > t * b) == (part * 100 > whole * t)
        }),
{
    if part == 0 {
        lemma_no_part(whole);
    } else if part * 100 == whole * t {
        lemma_at_bound(part, whole, t);
    } else {
        lemma_single_error(part, whole);
        let (c, b) = single_percent(part, whole);
        lemma_same_side(c, b, part, whole, 53687091350, t);
    }
}

} // verus!
