//! Sizes and shares as text.
use vstd::prelude::*;
use vstd::string::*;

use crate::binary::{
    divide, double_percent, grown, lemma_above_double, lemma_above_single, lemma_clear_double,
    lemma_clear_single, lemma_grown, lemma_is_nearest, lemma_nearest, percent_as_double,
    percent_as_single, quotient, round_integer, rounded, single_percent, CLEAR, CLEAR_SINGLE,
    DOUBLE, SINGLE,
};
use crate::system::stats::MOST_TIME;
use crate::text::{decimal, decimal_text};
use crate::GIB;

verus! {

broadcast use vstd::string::group_string_axioms;

/// The integer nearest to `num / den`; of two equally near the even one.
pub open spec fn nearest(num: nat, den: nat) -> nat {
    let q = num / den;
    let r = num % den;
    if 2 * r < den {
        q
    } else if 2 * r > den {
        q + 1
    } else if q % 2 == 0 {
        q
    } else {
        q + 1
    }
}

/// The integer nearest to `num / den`; of two equally near the even one.
pub fn round_nearest(num: u128, den: u128) -> (r: u128)
    requires
        0 < den <= 0x7fff_ffff_ffff_ffff_ffff_ffff_ffff_ffff,
        num < u128::MAX,
    ensures
        r == nearest(num as nat, den as nat),
        r <= num + 1,
{
    let q = num / den;
    let m = num % den;
    proof {
        assert(q <= num) by (nonlinear_arith)
            requires
                den > 0,
                q == num / den,
        ;
    }
    if 2 * m < den {
        q
    } else if 2 * m > den {
        q + 1
    } else if q % 2 == 0 {
        q
    } else {
        q + 1
    }
}

/// A number of tenths with one decimal place.
pub open spec fn tenths_text(t: nat) -> Seq<char> {
    decimal(t / 10).push('.') + decimal(t % 10)
}

/// A number of bytes in GiB with one decimal place. The number of bytes is
/// taken as a double, which is exact below eight million GiB.
pub open spec fn gib_of(bytes: nat) -> Seq<char> {
    tenths_text(nearest(rounded(bytes, DOUBLE as nat) * 10, GIB as nat))
}

/// A number of bytes in GiB with one decimal place.
pub fn gib_text(bytes: u64) -> (r: String)
    ensures
        r@ == gib_of(bytes as nat),
{
    let n = round_integer(bytes as u128, DOUBLE);
    let t = round_nearest(n * 10, GIB as u128);
    assert(t <= u64::MAX) by {
        lemma_gib_small(n as nat);
    }
    let t: u64 = t as u64;
    let mut s = decimal_text(t / 10);
    s.push('.');
    let d = decimal_text(t % 10);
    s.append(d.as_str());
    assert(s@ =~= tenths_text(t as nat));
    s
}

proof fn lemma_gib_small(n: nat)
    requires
        n <= 2 * u64::MAX,
    ensures
        nearest(n * 10, GIB as nat) <= u64::MAX,
{
}

/// Whether a share lies clear of the middle between two integers, with a part
/// that is not too large.
pub open spec fn lies_clear(part: nat, whole: nat, most: nat) -> bool {
    &&& part <= most
    &&& whole < DOUBLE
    &&& 2 * ((part * 100) % whole) != whole
}

/// How many percent `part` is of `whole`, as an integer; none of nothing. A
/// share that does not lie clear of the middle between two integers goes the
/// way that its double goes: 575 of 1000 are 57 percent.
pub open spec fn percent(part: nat, whole: nat) -> nat {
    if whole == 0 {
        0
    } else if lies_clear(part, whole, CLEAR as nat) {
        nearest(part * 100, whole)
    } else {
        nearest(double_percent(part, whole).0, double_percent(part, whole).1)
    }
}

/// How many percent `part` is of `whole`, as text.
pub fn percent_text(part: u64, whole: u64) -> (r: String)
    ensures
        r@ == decimal(percent(part as nat, whole as nat)),
{
    if whole == 0 {
        return decimal_text(0);
    }
    let (c, b) = percent_as_double(part as u128, whole as u128);
    proof {
        law_percent_is_that_of_doubles(part as nat, whole as nat);
    }
    large_decimal(round_nearest(c, b))
}

/// How many percent of its time the processor was busy, as an integer; none of
/// no time. A share that does not lie clear of the middle between two integers
/// goes the way that its single goes.
pub open spec fn busy_percent(busy: nat, total: nat) -> nat {
    if total == 0 {
        0
    } else if lies_clear(busy, total, CLEAR_SINGLE as nat) {
        nearest(busy * 100, total)
    } else {
        nearest(single_percent(busy, total).0, single_percent(busy, total).1)
    }
}

/// How many percent of its time the processor was busy, as text.
pub fn busy_text(busy: u128, total: u128) -> (r: String)
    requires
        busy <= MOST_TIME,
        total <= MOST_TIME,
    ensures
        r@ == decimal(busy_percent(busy as nat, total as nat)),
{
    if total == 0 {
        return decimal_text(0);
    }
    let (c, b) = percent_as_single(busy, total);
    proof {
        law_load_is_that_of_singles(busy as nat, total as nat);
    }
    large_decimal(round_nearest(c, b))
}

/// Thousandths of a degree in whole degrees. Above four thousand degrees they
/// are taken as a single.
pub open spec fn whole_degrees(milli: nat) -> nat {
    if milli < 4194304 {
        nearest(milli, 1000)
    } else {
        let q = quotient(rounded(milli, SINGLE as nat), 1000, SINGLE as nat);
        nearest(q.0, q.1)
    }
}

/// Thousandths of a degree in whole degrees.
pub fn degrees_text(milli: u64) -> (r: String)
    ensures
        r@ == decimal(whole_degrees(milli as nat)),
{
    if milli < 4194304 {
        return large_decimal(round_nearest(milli as u128, 1000));
    }
    let n = round_integer(milli as u128, SINGLE);
    let (m, b) = divide(n, 1000, SINGLE);
    large_decimal(round_nearest(m, b))
}

/// Decimal text of a large number.
pub fn large_decimal(n: u128) -> (r: String)
    ensures
        r@ == decimal(n as nat),
    decreases n,
{
    if n < 10 {
        decimal_text(n as u64)
    } else {
        let mut s = large_decimal(n / 10);
        s.push(crate::text::digit_char((n % 10) as u8));
        s
    }
}

/// How full something is, for its colour.
#[derive(Debug, Clone, Copy, PartialEq, Eq, Structural)]
pub enum Band {
    Green,
    Yellow,
    Red,
}

impl Band {
    /// The name of the colour.
    pub open spec fn name(&self) -> Seq<char> {
        match self {
            Band::Green => "green"@,
            Band::Yellow => "yellow"@,
            Band::Red => "red"@,
        }
    }

    /// The name of the colour.
    pub fn text(&self) -> (r: String)
        ensures
            r@ == self.name(),
    {
        match self {
            Band::Green => "green".to_owned(),
            Band::Yellow => "yellow".to_owned(),
            Band::Red => "red".to_owned(),
        }
    }
}

/// Red above 90, yellow above 70.
pub open spec fn band(num: nat, den: nat) -> Band {
    if num > 90 * den {
        Band::Red
    } else if num > 70 * den {
        Band::Yellow
    } else {
        Band::Green
    }
}

/// Red above 90, yellow above 70.
pub fn band_of(num: u128, den: u128) -> (r: Band)
    requires
        den <= 3600000000000000000000000000000000000,
    ensures
        r == band(num as nat, den as nat),
{
    if num > 90 * den {
        Band::Red
    } else if num > 70 * den {
        Band::Yellow
    } else {
        Band::Green
    }
}

/// Red above 90 percent, yellow above 70. The share of a very large part is
/// that of its double.
pub open spec fn share_band(part: nat, whole: nat) -> Band {
    if part <= CLEAR && whole < DOUBLE {
        band(part * 100, whole)
    } else {
        band(double_percent(part, whole).0, double_percent(part, whole).1)
    }
}

/// Red above 90 percent, yellow above 70; nothing of nothing is green.
pub fn band_of_share(part: u64, whole: u64) -> (r: Band)
    ensures
        r == (if whole == 0 {
            Band::Green
        } else {
            share_band(part as nat, whole as nat)
        }),
{
    if whole == 0 {
        return Band::Green;
    }
    let (c, b) = percent_as_double(part as u128, whole as u128);
    proof {
        law_percent_is_that_of_doubles(part as nat, whole as nat);
    }
    band_of(c, b)
}

/// Red above 90 percent of the time, yellow above 70. The share of a long time
/// is that of its single.
pub open spec fn busy_band(busy: nat, total: nat) -> Band {
    if total == 0 {
        Band::Green
    } else if busy <= CLEAR_SINGLE && total < DOUBLE {
        band(busy * 100, total)
    } else {
        band(single_percent(busy, total).0, single_percent(busy, total).1)
    }
}

/// Red above 90 percent of the time, yellow above 70.
pub fn band_of_load(busy: u128, total: u128) -> (r: Band)
    requires
        busy <= MOST_TIME,
        total <= MOST_TIME,
    ensures
        r == busy_band(busy as nat, total as nat),
{
    if total == 0 {
        return Band::Green;
    }
    let (c, b) = percent_as_single(busy, total);
    proof {
        law_load_is_that_of_singles(busy as nat, total as nat);
    }
    band_of(c, b)
}

// ----- laws -----

/// A share is shown and coloured as the double of its percentage is.
pub proof fn law_percent_is_that_of_doubles(part: nat, whole: nat)
    requires
        whole > 0,
    ensures
        ({
            let (c, b) = double_percent(part, whole);
            &&& percent(part, whole) == nearest(c, b)
            &&& share_band(part, whole) == band(c, b)
        }),
{
    if lies_clear(part, whole, CLEAR as nat) {
        lemma_clear_double(part, whole);
    }
    if part <= CLEAR && whole < DOUBLE {
        lemma_above_double(part, whole, 90);
        lemma_above_double(part, whole, 70);
    }
}

/// The load of the processor is shown and coloured as the single of its
/// percentage is.
pub proof fn law_load_is_that_of_singles(busy: nat, total: nat)
    requires
        total > 0,
    ensures
        ({
            let (c, b) = single_percent(busy, total);
            &&& busy_percent(busy, total) == nearest(c, b)
            &&& busy_band(busy, total) == band(c, b)
        }),
{
    if lies_clear(busy, total, CLEAR_SINGLE as nat) {
        lemma_clear_single(busy, total);
    }
    if busy <= CLEAR_SINGLE && total < DOUBLE {
        lemma_above_single(busy, total, 90);
        lemma_above_single(busy, total, 70);
    }
}

/// A temperature is shown as the single of its degrees is.
pub proof fn law_degrees_are_those_of_singles(milli: nat)
    ensures
        ({
            let q = quotient(rounded(milli, SINGLE as nat), 1000, SINGLE as nat);
            whole_degrees(milli) == nearest(q.0, q.1)
        }),
{
    if 0 < milli < 4194304 {
        let n = milli;
        let k = lemma_grown(n, 1000, SINGLE as nat);
        let (m, b) = grown(n, 1000, SINGLE as nat);
        let nb = n * b;
        lemma_nearest(nb, 1000);
        assert(b > 2000) by (nonlinear_arith)
            requires
                1000 * 16777216 <= 2 * (n * b),
                n < 4194304,
        ;
        let q = nearest(n, 1000);
        let qb = q * b;
        lemma_nearest(n, 1000);
        if 2 * (n % 1000) != 1000 {
            assert(2 * n + 2 <= 2000 * q + 1000 && 2000 * q + 2 <= 2 * n + 1000);
            assert(2 * nb + 2 * b <= 2000 * qb + 1000 * b && 2000 * qb + 2 * b <= 2 * nb + 1000 * b)
                by (nonlinear_arith)
                requires
                    2 * n + 2 <= 2000 * q + 1000,
                    2000 * q + 2 <= 2 * n + 1000,
                    nb == n * b,
                    qb == q * b,
            ;
            lemma_is_nearest(m, b, q);
        } else {
            crate::binary::lemma_even_power(k);
            let h = b / 2;
            let d = n / 1000;
            assert(b == 2 * h);
            assert(n == 1000 * d + 500);
            let dh = (2 * d + 1) * h;
            assert(nb == 1000 * dh) by (nonlinear_arith)
                requires
                    nb == n * b,
                    b == 2 * h,
                    n == 1000 * d + 500,
                    dh == (2 * d + 1) * h,
            ;
            assert(m == dh);
            assert(dh == d * b + h) by (nonlinear_arith)
                requires
                    b == 2 * h,
                    dh == (2 * d + 1) * h,
            ;
            vstd::arithmetic::div_mod::lemma_fundamental_div_mod_converse(
                dh as int,
                b as int,
                d as int,
                h as int,
            );
        }
    } else if milli == 0 {
        assert(nearest(0, 1000) == 0 && nearest(0, 1) == 0);
    }
}

} // verus!
