//! Rounding as binary64 arithmetic does it, in whole numbers.
//!
//! A double holds 53 significant bits, and every operation gives the representable value nearest to
//! the true one, ties going to the even neighbour. The functions here say what such an operation
//! gives as a whole number or a fraction, so that what is printed of it can be stated exactly.
use vstd::prelude::*;
use crate::number::{decimal, decimal_of, padded_decimal, zero_padded};
use crate::text::cat3;

verus! {

/// The number of values that a significand can take.
pub open spec fn significands() -> int {
    0x20_0000_0000_0000
}

/// The whole number nearest to a fraction; of two equally near the even one.
pub open spec fn nearest(n: int, d: int) -> int {
    let q = n / d;
    let r = n % d;
    if 2 * r < d || (2 * r == d && q % 2 == 0) {
        q
    } else {
        q + 1
    }
}

/// The whole number nearest to a fraction.
pub fn nearest_of(n: u128, d: u128) -> (r: u128)
    requires
        0 < d <= 0xffff_ffff_ffff_ffff_ffff_ffff_ffff,
    ensures
        r == nearest(n as int, d as int),
{
    let q: u128 = n / d;
    let m: u128 = n % d;
    proof {
        assert(0 <= m < d && 0 <= q <= n && q * d + m == n) by (nonlinear_arith)
            requires
                d > 0,
                n >= 0,
                q == n / d,
                m == n % d,
        ;
        if q == u128::MAX {
            assert(m == 0) by (nonlinear_arith)
                requires
                    q * d + m == n,
                    q == u128::MAX,
                    n <= u128::MAX,
                    d >= 1,
                    m >= 0,
            ;
        }
    }
    if 2 * m < d || (2 * m == d && q % 2 == 0) {
        q
    } else {
        q + 1
    }
}

/// The step between neighbouring values of 53 significant bits near a whole number: 1 where the
/// number itself is one.
pub open spec fn step(n: int) -> int
    decreases n,
{
    if n < significands() {
        1
    } else {
        2 * step(n / 2)
    }
}

/// The value of 53 significant bits nearest to a whole number.
pub open spec fn whole(n: int) -> int {
    nearest(n, step(n)) * step(n)
}

proof fn lemma_step(n: int)
    requires
        n >= 0,
    ensures
        1 <= step(n),
        n < significands() * step(n),
        step(n) > 1 ==> significands() * step(n) <= 2 * n,
    decreases n,
{
    if n >= significands() {
        lemma_step(n / 2);
    }
}

/// A number of at most 53 bits is held as it is.
pub proof fn small_numbers_are_exact(n: int)
    requires
        0 <= n < significands(),
    ensures
        whole(n) == n,
{
}

/// The value of 53 significant bits nearest to a whole number.
pub fn whole_of(n: u64) -> (r: u128)
    ensures
        r == whole(n as int),
        r <= 0x1_0000_0000_0000_0000,
{
    let mut unit: u64 = 1;
    let mut rest: u64 = n;
    while rest >= 0x20_0000_0000_0000
        invariant
            unit * step(rest as int) == step(n as int),
            1 <= unit,
            unit * rest <= n,
        decreases rest,
    {
        proof {
            assert(unit * (2 * step(rest as int / 2)) == (2 * unit) * step(rest as int / 2))
                by (nonlinear_arith);
            assert((2 * unit) * (rest as int / 2) <= unit * rest) by (nonlinear_arith)
                requires
                    unit >= 1,
                    rest >= 0,
            ;
            assert(2 * unit <= 0xffff_ffff_ffff_ffff) by (nonlinear_arith)
                requires
                    unit * rest <= n,
                    rest >= 0x20_0000_0000_0000,
                    n <= 0xffff_ffff_ffff_ffff,
                    unit >= 1,
            ;
        }
        unit = 2 * unit;
        rest = rest / 2;
    }
    proof {
        assert(unit == step(n as int));
        lemma_step(n as int);
    }
    let count: u128 = nearest_of(n as u128, unit as u128);
    proof {
        let s = step(n as int);
        lemma_whole_bound(n as int, s);
    }
    count * (unit as u128)
}

proof fn lemma_whole_bound(n: int, s: int)
    requires
        0 <= n <= 0xffff_ffff_ffff_ffff,
        s == step(n),
        1 <= s,
    ensures
        0 <= nearest(n, s) * s <= 0x1_0000_0000_0000_0000,
{
    lemma_step(n);
    let q = n / s;
    assert(0 <= q && q * s <= n && n < (q + 1) * s) by (nonlinear_arith)
        requires
            n >= 0,
            s >= 1,
            q == n / s,
    ;
    assert(0 <= nearest(n, s) * s) by (nonlinear_arith)
        requires
            nearest(n, s) >= 0,
            s >= 1,
    ;
    if s == 1 {
        assert(nearest(n, s) == n);
    } else {
        lemma_step_power(n);
        // The next multiple of the step is at most the power of two above `n`.
        let k = 0x1_0000_0000_0000_0000int / s;
        assert(q < k) by (nonlinear_arith)
            requires
                k * s == 0x1_0000_0000_0000_0000,
                q * s <= n,
                n < 0x1_0000_0000_0000_0000,
                s >= 1,
        ;
        assert((q + 1) * s <= 0x1_0000_0000_0000_0000) by (nonlinear_arith)
            requires
                q < k,
                k * s == 0x1_0000_0000_0000_0000,
                s >= 1,
        ;
        assert(q * s <= (q + 1) * s) by (nonlinear_arith)
            requires
                s >= 1,
        ;
    }
}

/// The step near a 64-bit number divides 2 to the 64.
proof fn lemma_step_power(n: int)
    requires
        0 <= n <= 0xffff_ffff_ffff_ffff,
    ensures
        (0x1_0000_0000_0000_0000int / step(n)) * step(n) == 0x1_0000_0000_0000_0000,
{
    reveal_with_fuel(step, 13);
    let s = step(n);
    assert(s == 1 || s == 2 || s == 4 || s == 8 || s == 16 || s == 32 || s == 64 || s == 128 || s
        == 256 || s == 512 || s == 1024 || s == 2048);
}

/// The power of two that lifts a fraction into the range of significands.
pub open spec fn lift(n: int, d: int) -> int
    decreases significands() * d - n,
{
    if n <= 0 || 2 * n >= significands() * d {
        1
    } else {
        2 * lift(2 * n, d)
    }
}

/// The significand of a quotient of whole numbers: the quotient is this over its `lift`.
pub open spec fn significand(n: int, d: int) -> int {
    nearest(n * lift(n, d), d)
}

/// The quotient of two numbers of 32 bits, as a significand and the power of two it is over.
pub fn quotient_of(n: u32, d: u32) -> (r: (u64, u128))
    requires
        d > 0,
    ensures
        r.0 == significand(n as int, d as int),
        r.1 == lift(n as int, d as int),
        r.0 <= 0x20_0000_0000_0000,
        1 <= r.1 <= 0x10_0000_0000_0000_0000_0000_0000,
{
    let wide: u128 = d as u128;
    let mut scaled: u128 = n as u128;
    let mut unit: u128 = 1;
    while scaled > 0 && 2 * scaled < 0x20_0000_0000_0000 * wide
        invariant
            wide == d,
            1 <= wide <= 0xffff_ffff,
            scaled == n * unit,
            unit >= 1,
            n <= 0xffff_ffff,
            scaled < 0x20_0000_0000_0000 * wide,
            lift(n as int, d as int) == unit * lift(scaled as int, d as int),
            unit <= 0x10_0000_0000_0000_0000_0000_0000,
        decreases 0x20_0000_0000_0000 * wide - scaled,
    {
        proof {
            assert(2 * (n * unit) == n * (2 * unit)) by (nonlinear_arith);
            assert(unit * (2 * lift(2 * scaled as int, d as int)) == (2 * unit) * lift(
                2 * scaled as int,
                d as int,
            )) by (nonlinear_arith);
            assert(2 * unit <= 0x20_0000_0000_0000 * wide) by (nonlinear_arith)
                requires
                    scaled == n * unit,
                    scaled > 0,
                    2 * scaled < 0x20_0000_0000_0000 * wide,
                    n >= 0,
                    unit >= 1,
            ;
        }
        scaled = 2 * scaled;
        unit = 2 * unit;
    }
    let m: u128 = nearest_of(scaled, wide);
    proof {
        let q = scaled as int / wide as int;
        assert(q < 0x20_0000_0000_0000) by (nonlinear_arith)
            requires
                q == scaled as int / wide as int,
                scaled < 0x20_0000_0000_0000 * wide,
                wide >= 1,
                scaled >= 0,
        ;
    }
    (m as u64, unit)
}

/// Rounding at most doubles a whole number.
pub proof fn lemma_whole_near(n: int)
    requires
        n >= 0,
    ensures
        0 <= whole(n) <= 2 * n,
{
    lemma_step(n);
    let s = step(n);
    let q = n / s;
    assert(0 <= q && q * s <= n) by (nonlinear_arith)
        requires
            n >= 0,
            s >= 1,
            q == n / s,
    ;
    assert((q + 1) * s == q * s + s) by (nonlinear_arith);
    assert(q * s >= 0) by (nonlinear_arith)
        requires
            q >= 0,
            s >= 1,
    ;
    if s == 1 {
        assert(n / 1 == n && n % 1 == 0);
    }
}

/// A quotient of whole numbers is at most the one that is divided, give or take the rounding.
pub proof fn lemma_significand_bound(n: int, d: int)
    requires
        0 <= n,
        1 <= d,
        1 <= lift(n, d),
    ensures
        0 <= significand(n, d) <= (n + 1) * lift(n, d),
{
    let u = lift(n, d);
    let q = (n * u) / d;
    assert(0 <= q <= n * u) by (nonlinear_arith)
        requires
            q == (n * u) / d,
            n >= 0,
            u >= 1,
            d >= 1,
    ;
    assert((n + 1) * u == n * u + u) by (nonlinear_arith);
}

/// A number of hundredths, tenths or other decimal parts, as text.
pub open spec fn fixed(parts: int, per_whole: int, digits: int) -> Seq<char> {
    decimal(parts / per_whole) + "."@ + zero_padded(decimal(parts % per_whole), digits)
}

/// Writes a number of tenths.
pub fn tenths_text(parts: u64) -> (r: String)
    ensures
        r@ == fixed(parts as int, 10, 1),
{
    cat3(&decimal_of(parts / 10), ".", &padded_decimal(parts % 10, 1))
}

/// Writes a number of hundredths.
pub fn hundredths_text(parts: u64) -> (r: String)
    ensures
        r@ == fixed(parts as int, 100, 2),
{
    cat3(&decimal_of(parts / 100), ".", &padded_decimal(parts % 100, 2))
}

/// Rounding goes to the nearest whole number: no farther than half, and where two are equally near to the
/// even one.
pub proof fn rounding_goes_to_the_nearest(n: int, d: int)
    requires
        0 <= n,
        0 < d,
    ensures
        2 * nearest(n, d) * d <= 2 * n + d,
        2 * n <= 2 * nearest(n, d) * d + d,
        2 * nearest(n, d) * d == 2 * n + d || 2 * n == 2 * nearest(n, d) * d + d ==> nearest(n, d) % 2
            == 0,
{
    let q = n / d;
    let r = n % d;
    assert(n == q * d + r && 0 <= r < d) by (nonlinear_arith)
        requires
            q == n / d,
            r == n % d,
            0 <= n,
            0 < d,
    ;
    assert((q + 1) * d == q * d + d) by (nonlinear_arith);
    let k = nearest(n, d);
    assert(2 * k * d == 2 * (k * d)) by (nonlinear_arith);
    assert(k == q || k == q + 1);
    if k == q + 1 {
        assert(2 * k * d == 2 * (q * d) + 2 * d);
        if 2 * r == d {
            assert(q % 2 == 1);
        }
    } else {
        assert(2 * k * d == 2 * (q * d));
    }
}

/// A number that takes one bit more than a significand holds is held to the nearest even one.
pub proof fn a_number_of_one_bit_more_is_held_to_two(n: int)
    requires
        0x20_0000_0000_0000 <= n < 0x40_0000_0000_0000,
    ensures
        step(n) == 2,
        whole(n) % 2 == 0,
        -1 <= whole(n) - n <= 1,
{
    reveal_with_fuel(step, 3);
    assert(n / 2 < 0x20_0000_0000_0000);
    assert(step(n / 2) == 1);
}

/// A number of decimal parts is written as its whole, a point, and the parts with all their places.
pub proof fn parts_are_written_behind_the_point(whole: int, tenth: int)
    requires
        0 <= whole,
        0 <= tenth < 10,
    ensures
        fixed(10 * whole + tenth, 10, 1) == decimal(whole) + "."@ + seq![('0' as int + tenth) as char],
        fixed(100 * whole + tenth, 100, 2) == decimal(whole) + "."@ + seq![
            '0',
            ('0' as int + tenth) as char,
        ],
{
    assert((10 * whole + tenth) / 10 == whole && (10 * whole + tenth) % 10 == tenth);
    assert((100 * whole + tenth) / 100 == whole && (100 * whole + tenth) % 100 == tenth);
    let digit = decimal(tenth);
    assert(digit == seq![('0' as int + tenth) as char]);
    crate::number::padding_fills_up_with_zeros(digit, Seq::empty());
    crate::number::padding_fills_up_with_zeros(digit, seq!['0']);
    assert(seq!['0'] + digit =~= seq!['0', ('0' as int + tenth) as char]);
}

} // verus!
