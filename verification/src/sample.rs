//! The scalar sample abstraction.
//!
//! Every node of the signal graph computes over one scalar type. The engine
//! itself never fixes that type: it is generic over [`Sample`], which names
//! each arithmetic operation together with a specification function that
//! pins down, per implementation, exactly what the operation returns. All
//! graph-level contracts are stated over those specification functions, so
//! whatever scalar a caller supplies, the graph manipulates it exactly as
//! specified here.
//!
//! [`Fixed`] is the crate's own scalar: a signed 64-bit fixed-point number
//! with a decimal scale of one million, with saturating arithmetic and
//! coarse piecewise-linear trigonometry. Its operations are verified against
//! their specifications, so every engine contract is grounded on at least
//! one fully checked scalar.

use vstd::prelude::*;

verus! {

/// Fixed-point scale: one unit of [`Fixed`] is a millionth.
pub const UNIT: i64 = 1_000_000;

/// A scalar sample type, as the signal graph sees it.
///
/// Each executable operation is pinned to a specification function of the
/// same implementation, so the graph's contracts compose whatever the
/// scalar is. Implementations outside this crate choose their own
/// semantics (an IEEE double wrapper is the usual one); the contracts of
/// the engine only ever promise "the scalar's own `sp_*` result".
pub trait Sample: Sized + Copy {
    /// The additive identity this scalar uses.
    spec fn sp_zero() -> Self;

    /// The multiplicative identity this scalar uses.
    spec fn sp_one() -> Self;

    /// What `add` returns.
    spec fn sp_add(a: Self, b: Self) -> Self;

    /// What `sub` returns.
    spec fn sp_sub(a: Self, b: Self) -> Self;

    /// What `mul` returns.
    spec fn sp_mul(a: Self, b: Self) -> Self;

    /// What `div` returns.
    spec fn sp_div(a: Self, b: Self) -> Self;

    /// What `neg` returns.
    spec fn sp_neg(a: Self) -> Self;

    /// What `eq` returns: the scalar's own sample equality test.
    spec fn sp_eq(a: Self, b: Self) -> bool;

    /// What `lt` returns.
    spec fn sp_lt(a: Self, b: Self) -> bool;

    /// What `le` returns.
    spec fn sp_le(a: Self, b: Self) -> bool;

    /// What `min` returns.
    spec fn sp_min(a: Self, b: Self) -> Self;

    /// What `max` returns.
    spec fn sp_max(a: Self, b: Self) -> Self;

    /// What `abs` returns.
    spec fn sp_abs(a: Self) -> Self;

    /// What `signum` returns.
    spec fn sp_signum(a: Self) -> Self;

    /// What `ratio` returns: the scalar closest in the implementation's own
    /// sense to the fraction `num / den`.
    spec fn sp_ratio(num: i64, den: i64) -> Self;

    /// What `pi` returns.
    spec fn sp_pi() -> Self;

    /// What `sin` returns.
    spec fn sp_sin(a: Self) -> Self;

    /// What `cos` returns.
    spec fn sp_cos(a: Self) -> Self;

    /// What `tan` returns.
    spec fn sp_tan(a: Self) -> Self;

    /// What `pow` returns.
    spec fn sp_pow(a: Self, b: Self) -> Self;

    /// What `index` returns: the scalar truncated to a buffer index.
    spec fn sp_index(a: Self) -> usize;

    /// What `wrap` returns: `a` wrapped into `[0, len)` in the
    /// implementation's own sense.
    spec fn sp_wrap(a: Self, len: Self) -> Self;

    /// What `unit` returns: a scalar in the unit interval derived from the
    /// 64 given bits.
    spec fn sp_unit(u: u64) -> Self;

    fn zero() -> (r: Self)
        ensures
            r == Self::sp_zero(),
    ;

    fn one() -> (r: Self)
        ensures
            r == Self::sp_one(),
    ;

    fn add(a: Self, b: Self) -> (r: Self)
        ensures
            r == Self::sp_add(a, b),
    ;

    fn sub(a: Self, b: Self) -> (r: Self)
        ensures
            r == Self::sp_sub(a, b),
    ;

    fn mul(a: Self, b: Self) -> (r: Self)
        ensures
            r == Self::sp_mul(a, b),
    ;

    fn div(a: Self, b: Self) -> (r: Self)
        ensures
            r == Self::sp_div(a, b),
    ;

    fn neg(a: Self) -> (r: Self)
        ensures
            r == Self::sp_neg(a),
    ;

    fn eq(a: Self, b: Self) -> (r: bool)
        ensures
            r == Self::sp_eq(a, b),
    ;

    fn lt(a: Self, b: Self) -> (r: bool)
        ensures
            r == Self::sp_lt(a, b),
    ;

    fn le(a: Self, b: Self) -> (r: bool)
        ensures
            r == Self::sp_le(a, b),
    ;

    fn min(a: Self, b: Self) -> (r: Self)
        ensures
            r == Self::sp_min(a, b),
    ;

    fn max(a: Self, b: Self) -> (r: Self)
        ensures
            r == Self::sp_max(a, b),
    ;

    fn abs(a: Self) -> (r: Self)
        ensures
            r == Self::sp_abs(a),
    ;

    fn signum(a: Self) -> (r: Self)
        ensures
            r == Self::sp_signum(a),
    ;

    fn ratio(num: i64, den: i64) -> (r: Self)
        ensures
            r == Self::sp_ratio(num, den),
    ;

    fn pi() -> (r: Self)
        ensures
            r == Self::sp_pi(),
    ;

    fn sin(a: Self) -> (r: Self)
        ensures
            r == Self::sp_sin(a),
    ;

    fn cos(a: Self) -> (r: Self)
        ensures
            r == Self::sp_cos(a),
    ;

    fn tan(a: Self) -> (r: Self)
        ensures
            r == Self::sp_tan(a),
    ;

    fn pow(a: Self, b: Self) -> (r: Self)
        ensures
            r == Self::sp_pow(a, b),
    ;

    fn index(a: Self) -> (r: usize)
        ensures
            r == Self::sp_index(a),
    ;

    fn wrap(a: Self, len: Self) -> (r: Self)
        ensures
            r == Self::sp_wrap(a, len),
    ;

    fn unit(u: u64) -> (r: Self)
        ensures
            r == Self::sp_unit(u),
    ;
}

/// Clips a mathematical integer into the `i64` range.
pub open spec fn clip_units(x: int) -> i64 {
    if x > i64::MAX {
        i64::MAX
    } else if x < i64::MIN {
        i64::MIN
    } else {
        x as i64
    }
}

/// The magnitude of a mathematical integer.
pub open spec fn abs_int(x: int) -> int {
    if x < 0 {
        -x
    } else {
        x
    }
}

/// Division truncated toward zero, with zero for a zero divisor.
pub open spec fn tdiv(a: int, b: int) -> int {
    if b == 0 {
        0
    } else {
        let q = abs_int(a) / abs_int(b);
        if (a < 0) != (b < 0) {
            -q
        } else {
            q
        }
    }
}

/// Clips a 128-bit value into the `i64` range.
fn clip128(x: i128) -> (r: i64)
    ensures
        r == clip_units(x as int),
{
    if x > i64::MAX as i128 {
        i64::MAX
    } else if x < i64::MIN as i128 {
        i64::MIN
    } else {
        x as i64
    }
}

/// 128-bit division truncated toward zero, with zero for a zero divisor.
fn tdiv128(a: i128, b: i128) -> (r: i128)
    requires
        -(i128::MAX as int) <= a as int,
        -(i128::MAX as int) <= b as int,
    ensures
        r as int == tdiv(a as int, b as int),
{
    if b == 0 {
        0
    } else {
        let ma: u128 = if a < 0 {
            (-a) as u128
        } else {
            a as u128
        };
        let mb: u128 = if b < 0 {
            (-b) as u128
        } else {
            b as u128
        };
        let q: u128 = ma / mb;
        proof {
            assert(ma as int == abs_int(a as int));
            assert(mb as int == abs_int(b as int));
            vstd::arithmetic::div_mod::lemma_div_is_ordered_by_denominator(
                ma as int,
                1,
                mb as int,
            );
            assert(ma as int / 1 == ma as int);
            assert(q as int <= ma as int);
        }
        if (a < 0) != (b < 0) {
            -(q as i128)
        } else {
            q as i128
        }
    }
}

/// The crate's own scalar: signed 64-bit fixed point, a millionth per unit.
///
/// Arithmetic saturates at the `i64` range instead of wrapping or failing;
/// division by zero yields zero; the trigonometric operations are coarse
/// piecewise-linear stand-ins with exactly the semantics their
/// specification functions state; `pow` truncates its exponent to an
/// integer and caps it at 64.
///
/// In particular `sin` is a triangle wave of the right period, peak and
/// zero crossings. Its energy differs from a true sine's: a full period
/// has RMS `peak/sqrt(3)` where a sine has `peak/sqrt(2)`, so
/// energy-level expectations phrased for sinusoids hold only of scalars
/// whose `sin` is faithful, such as an IEEE-double implementation.
#[derive(Clone, Copy, PartialEq, Eq, Structural, Debug)]
pub struct Fixed {
    pub units: i64,
}

impl Fixed {
    /// The scalar with the given raw unit count.
    pub fn raw(units: i64) -> (r: Fixed)
        ensures
            r.units == units,
    {
        Fixed { units }
    }
}

/// What `Fixed` addition yields, at unit level.
pub open spec fn fx_add(a: i64, b: i64) -> i64 {
    clip_units(a + b)
}

/// What `Fixed` multiplication yields, at unit level.
pub open spec fn fx_mul(a: i64, b: i64) -> i64 {
    clip_units(tdiv(a * b, UNIT as int))
}

/// What `Fixed` division yields, at unit level.
pub open spec fn fx_div(a: i64, b: i64) -> i64 {
    if b == 0 {
        0
    } else {
        clip_units(tdiv(a * (UNIT as int), b as int))
    }
}

/// What `Fixed::ratio` yields, at unit level.
pub open spec fn fx_ratio(num: i64, den: i64) -> i64 {
    if den == 0 {
        0
    } else {
        clip_units(tdiv(num * (UNIT as int), den as int))
    }
}

/// What `Fixed::wrap` yields, at unit level: the Euclidean remainder.
pub open spec fn fx_wrap(a: i64, len: i64) -> i64 {
    if len <= 0 {
        0
    } else {
        (a as int % len as int) as i64
    }
}

/// What `Fixed::pow` yields: `a` multiplied into one `e` times.
pub open spec fn fx_pow_n(a: Fixed, e: nat) -> Fixed
    decreases e,
{
    if e == 0 {
        Fixed { units: UNIT }
    } else {
        Fixed { units: fx_mul(a.units, fx_pow_n(a, (e - 1) as nat).units) }
    }
}

/// The exponent `Fixed::pow` actually uses: truncated and capped at 64.
pub open spec fn fx_exponent(b: Fixed) -> nat {
    let e = Fixed::sp_index(b);
    if e > 64 {
        64
    } else {
        e as nat
    }
}

impl Sample for Fixed {
    open spec fn sp_zero() -> Fixed {
        Fixed { units: 0 }
    }

    open spec fn sp_one() -> Fixed {
        Fixed { units: UNIT }
    }

    open spec fn sp_add(a: Fixed, b: Fixed) -> Fixed {
        Fixed { units: fx_add(a.units, b.units) }
    }

    open spec fn sp_sub(a: Fixed, b: Fixed) -> Fixed {
        Fixed { units: clip_units(a.units - b.units) }
    }

    open spec fn sp_mul(a: Fixed, b: Fixed) -> Fixed {
        Fixed { units: fx_mul(a.units, b.units) }
    }

    open spec fn sp_div(a: Fixed, b: Fixed) -> Fixed {
        Fixed { units: fx_div(a.units, b.units) }
    }

    open spec fn sp_neg(a: Fixed) -> Fixed {
        Fixed { units: clip_units(-(a.units as int)) }
    }

    open spec fn sp_eq(a: Fixed, b: Fixed) -> bool {
        a.units == b.units
    }

    open spec fn sp_lt(a: Fixed, b: Fixed) -> bool {
        a.units < b.units
    }

    open spec fn sp_le(a: Fixed, b: Fixed) -> bool {
        a.units <= b.units
    }

    open spec fn sp_min(a: Fixed, b: Fixed) -> Fixed {
        if a.units <= b.units {
            a
        } else {
            b
        }
    }

    open spec fn sp_max(a: Fixed, b: Fixed) -> Fixed {
        if a.units >= b.units {
            a
        } else {
            b
        }
    }

    open spec fn sp_abs(a: Fixed) -> Fixed {
        Fixed { units: clip_units(abs_int(a.units as int)) }
    }

    open spec fn sp_signum(a: Fixed) -> Fixed {
        if a.units > 0 {
            Fixed { units: UNIT }
        } else if a.units < 0 {
            Fixed { units: -1_000_000i64 }
        } else {
            Fixed { units: 0 }
        }
    }

    open spec fn sp_ratio(num: i64, den: i64) -> Fixed {
        Fixed { units: fx_ratio(num, den) }
    }

    open spec fn sp_pi() -> Fixed {
        Fixed { units: 3_141_593 }
    }

    open spec fn sp_sin(a: Fixed) -> Fixed {
        let two_pi = Fixed { units: 6_283_186 };
        let pi = Fixed { units: 3_141_593 };
        let half_pi = Fixed { units: 1_570_796 };
        let two_over_pi = Fixed { units: 636_620 };
        let u = Fixed { units: fx_wrap(a.units, two_pi.units) };
        if u.units < pi.units {
            Fixed::sp_mul(
                Fixed::sp_sub(half_pi, Fixed::sp_abs(Fixed::sp_sub(u, half_pi))),
                two_over_pi,
            )
        } else {
            Fixed::sp_neg(
                Fixed::sp_mul(
                    Fixed::sp_sub(
                        half_pi,
                        Fixed::sp_abs(Fixed::sp_sub(Fixed::sp_sub(u, pi), half_pi)),
                    ),
                    two_over_pi,
                ),
            )
        }
    }

    open spec fn sp_cos(a: Fixed) -> Fixed {
        Fixed::sp_sin(Fixed::sp_add(a, Fixed { units: 1_570_796 }))
    }

    open spec fn sp_tan(a: Fixed) -> Fixed {
        Fixed::sp_div(Fixed::sp_sin(a), Fixed::sp_cos(a))
    }

    open spec fn sp_pow(a: Fixed, b: Fixed) -> Fixed {
        fx_pow_n(a, fx_exponent(b))
    }

    open spec fn sp_index(a: Fixed) -> usize {
        if a.units <= 0 {
            0
        } else {
            let q = a.units as int / (UNIT as int);
            if q > usize::MAX {
                usize::MAX
            } else {
                q as usize
            }
        }
    }

    open spec fn sp_wrap(a: Fixed, len: Fixed) -> Fixed {
        Fixed { units: fx_wrap(a.units, len.units) }
    }

    open spec fn sp_unit(u: u64) -> Fixed {
        Fixed { units: (u % (UNIT as u64)) as i64 }
    }

    fn zero() -> (r: Fixed) {
        Fixed { units: 0 }
    }

    fn one() -> (r: Fixed) {
        Fixed { units: UNIT }
    }

    fn add(a: Fixed, b: Fixed) -> (r: Fixed) {
        Fixed { units: clip128(a.units as i128 + b.units as i128) }
    }

    fn sub(a: Fixed, b: Fixed) -> (r: Fixed) {
        Fixed { units: clip128(a.units as i128 - b.units as i128) }
    }

    fn mul(a: Fixed, b: Fixed) -> (r: Fixed) {
        proof {
            lemma_mul_i64_fits(a.units as int, b.units as int);
        }
        let p: i128 = a.units as i128 * b.units as i128;
        Fixed { units: clip128(tdiv128(p, UNIT as i128)) }
    }

    fn div(a: Fixed, b: Fixed) -> (r: Fixed) {
        if b.units == 0 {
            Fixed { units: 0 }
        } else {
            proof {
                lemma_mul_i64_fits(a.units as int, UNIT as int);
            }
            let p: i128 = a.units as i128 * UNIT as i128;
            Fixed { units: clip128(tdiv128(p, b.units as i128)) }
        }
    }

    fn neg(a: Fixed) -> (r: Fixed) {
        Fixed { units: clip128(-(a.units as i128)) }
    }

    fn eq(a: Fixed, b: Fixed) -> (r: bool) {
        a.units == b.units
    }

    fn lt(a: Fixed, b: Fixed) -> (r: bool) {
        a.units < b.units
    }

    fn le(a: Fixed, b: Fixed) -> (r: bool) {
        a.units <= b.units
    }

    fn min(a: Fixed, b: Fixed) -> (r: Fixed) {
        if a.units <= b.units {
            a
        } else {
            b
        }
    }

    fn max(a: Fixed, b: Fixed) -> (r: Fixed) {
        if a.units >= b.units {
            a
        } else {
            b
        }
    }

    fn abs(a: Fixed) -> (r: Fixed) {
        if a.units < 0 {
            Fixed { units: clip128(-(a.units as i128)) }
        } else {
            a
        }
    }

    fn signum(a: Fixed) -> (r: Fixed) {
        if a.units > 0 {
            Fixed { units: UNIT }
        } else if a.units < 0 {
            Fixed { units: -1_000_000i64 }
        } else {
            Fixed { units: 0 }
        }
    }

    fn ratio(num: i64, den: i64) -> (r: Fixed) {
        if den == 0 {
            Fixed { units: 0 }
        } else {
            proof {
                lemma_mul_i64_fits(num as int, UNIT as int);
            }
            let p: i128 = num as i128 * UNIT as i128;
            Fixed { units: clip128(tdiv128(p, den as i128)) }
        }
    }

    fn pi() -> (r: Fixed) {
        Fixed { units: 3_141_593 }
    }

    fn sin(a: Fixed) -> (r: Fixed) {
        let two_pi = Fixed { units: 6_283_186 };
        let pi = Fixed { units: 3_141_593 };
        let half_pi = Fixed { units: 1_570_796 };
        let two_over_pi = Fixed { units: 636_620 };
        let u = Fixed::wrap(a, two_pi);
        if u.units < pi.units {
            Fixed::mul(Fixed::sub(half_pi, Fixed::abs(Fixed::sub(u, half_pi))), two_over_pi)
        } else {
            Fixed::neg(
                Fixed::mul(
                    Fixed::sub(half_pi, Fixed::abs(Fixed::sub(Fixed::sub(u, pi), half_pi))),
                    two_over_pi,
                ),
            )
        }
    }

    fn cos(a: Fixed) -> (r: Fixed) {
        Fixed::sin(Fixed::add(a, Fixed { units: 1_570_796 }))
    }

    fn tan(a: Fixed) -> (r: Fixed) {
        Fixed::div(Fixed::sin(a), Fixed::cos(a))
    }

    fn pow(a: Fixed, b: Fixed) -> (r: Fixed) {
        let e0 = Fixed::index(b);
        let e: usize = if e0 > 64 {
            64
        } else {
            e0
        };
        let mut acc = Fixed { units: UNIT };
        let mut i: usize = 0;
        while i < e
            invariant
                i <= e,
                acc == fx_pow_n(a, i as nat),
            decreases e - i,
        {
            acc = Fixed::mul(a, acc);
            i = i + 1;
        }
        proof {
            assert(e as nat == fx_exponent(b));
        }
        acc
    }

    fn index(a: Fixed) -> (r: usize) {
        if a.units <= 0 {
            0
        } else {
            let q: u64 = (a.units as u64) / (UNIT as u64);
            if q > usize::MAX as u64 {
                usize::MAX
            } else {
                q as usize
            }
        }
    }

    fn wrap(a: Fixed, len: Fixed) -> (r: Fixed) {
        if len.units <= 0 {
            Fixed { units: 0 }
        } else if a.units >= 0 {
            Fixed { units: ((a.units as u64) % (len.units as u64)) as i64 }
        } else {
            let big: u128 = (-(a.units as i128)) as u128 % (len.units as u128);
            proof {
                vstd::arithmetic::div_mod::lemma_mod_division_less_than_divisor(
                    (-(a.units as i128)) as int,
                    len.units as int,
                );
            }
            let m: u64 = big as u64;
            let r: i64 = if m == 0 {
                0
            } else {
                len.units - m as i64
            };
            proof {
                lemma_wrap_negative(a.units, len.units, m);
            }
            Fixed { units: r }
        }
    }

    fn unit(u: u64) -> (r: Fixed) {
        Fixed { units: (u % (UNIT as u64)) as i64 }
    }
}

/// The product of two values in the `i64` range fits well inside `i128`.
proof fn lemma_mul_i64_fits(x: int, y: int)
    requires
        i64::MIN <= x <= i64::MAX,
        i64::MIN <= y <= i64::MAX,
    ensures
        -(i128::MAX as int) <= x * y <= i128::MAX as int,
{
    assert(-(i128::MAX as int) <= x * y <= i128::MAX as int) by (nonlinear_arith)
        requires
            i64::MIN <= x <= i64::MAX,
            i64::MIN <= y <= i64::MAX,
    ;
}

/// Dividing a nonzero `Fixed` by itself yields one exactly.
pub proof fn lemma_fixed_div_self(a: Fixed)
    requires
        a.units != 0,
    ensures
        Fixed::sp_div(a, a) == Fixed::sp_one(),
{
    let u = a.units as int;
    assert(abs_int(u * (UNIT as int)) == abs_int(u) * (UNIT as int)) by (nonlinear_arith);
    vstd::arithmetic::div_mod::lemma_div_multiples_vanish(UNIT as int, abs_int(u));
    assert(abs_int(u) * (UNIT as int) == abs_int(u) * (UNIT as int));
    assert(tdiv(u * (UNIT as int), u) == UNIT as int);
}

/// Multiplying a `Fixed` by one yields it back exactly.
pub proof fn lemma_fixed_mul_one(a: Fixed)
    ensures
        Fixed::sp_mul(a, Fixed::sp_one()) == a,
{
    let u = a.units as int;
    assert(u * (UNIT as int) == (UNIT as int) * u) by (nonlinear_arith);
    assert(abs_int(u * (UNIT as int)) == abs_int(u) * (UNIT as int)) by (nonlinear_arith);
    vstd::arithmetic::div_mod::lemma_div_multiples_vanish(abs_int(u), UNIT as int);
    assert(tdiv(u * (UNIT as int), UNIT as int) == u);
}

/// Raising a `Fixed` to the power one yields it back exactly.
pub proof fn lemma_fixed_pow_one(a: Fixed)
    ensures
        Fixed::sp_pow(a, Fixed::sp_one()) == a,
{
    assert(Fixed::sp_index(Fixed::sp_one()) == 1) by {
        assert((UNIT as int) / (UNIT as int) == 1);
    }
    assert(fx_exponent(Fixed::sp_one()) == 1);
    assert(fx_pow_n(a, 0) == Fixed { units: UNIT });
    lemma_fixed_mul_one(a);
    assert(fx_pow_n(a, 1) == Fixed::sp_mul(a, Fixed { units: UNIT }));
}

/// One raised to any `Fixed` power stays one.
pub proof fn lemma_fixed_one_pow(b: Fixed)
    ensures
        Fixed::sp_pow(Fixed::sp_one(), b) == Fixed::sp_one(),
{
    lemma_fixed_one_pow_n(fx_exponent(b));
}

/// One multiplied into one any number of times stays one.
proof fn lemma_fixed_one_pow_n(e: nat)
    ensures
        fx_pow_n(Fixed { units: UNIT }, e) == (Fixed { units: UNIT }),
    decreases e,
{
    if e > 0 {
        lemma_fixed_one_pow_n((e - 1) as nat);
        lemma_fixed_mul_one(Fixed { units: UNIT });
    }
}

/// Multiplying any `Fixed` by zero yields zero exactly.
pub proof fn lemma_fixed_mul_zero(a: Fixed)
    ensures
        Fixed::sp_mul(a, Fixed::sp_zero()) == Fixed::sp_zero(),
{
    assert(a.units as int * 0 == 0) by (nonlinear_arith);
}

/// Relates the remainder of the magnitude of a negative value to the
/// Euclidean remainder that `fx_wrap` specifies.
proof fn lemma_wrap_negative(a: i64, len: i64, m: u64)
    requires
        a < 0,
        len > 0,
        m == (-(a as int)) % (len as int),
    ensures
        m == 0 ==> fx_wrap(a, len) == 0,
        m != 0 ==> fx_wrap(a, len) == len - m,
{
    let la = len as int;
    let na = -(a as int);
    vstd::arithmetic::div_mod::lemma_fundamental_div_mod(na, la);
    vstd::arithmetic::div_mod::lemma_mod_division_less_than_divisor(na, la);
    let qn = na / la;
    assert(na == qn * la + m);
    if m == 0 {
        assert(a as int == (-qn) * la + 0) by (nonlinear_arith)
            requires
                na == qn * la + m,
                na == -(a as int),
                m == 0,
        ;
        vstd::arithmetic::div_mod::lemma_fundamental_div_mod_converse_mod(a as int, la, -qn, 0);
    } else {
        assert(a as int == (-qn - 1) * la + (la - m)) by (nonlinear_arith)
            requires
                na == qn * la + m,
                na == -(a as int),
        ;
        vstd::arithmetic::div_mod::lemma_fundamental_div_mod_converse_mod(
            a as int,
            la,
            -qn - 1,
            la - m,
        );
    }
}

} // verus!
