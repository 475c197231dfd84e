//! Doubles, by their bits: what a non-negative IEEE 754 double is worth, and the sum
//! of two.
use vstd::arithmetic::power2::{
    lemma2_to64,
    lemma_pow2_adds,
    lemma_pow2_pos,
    lemma_pow2_strictly_increases,
    lemma_pow2_unfold,
    pow2,
};
use vstd::prelude::*;

verus! {

/// The bits of positive infinity. Every non-negative double below it is finite.
pub const INFINITE: u64 = 0x7ff0_0000_0000_0000;

/// The bits of negative zero.
pub const NEGATIVE_ZERO: u64 = 0x8000_0000_0000_0000;

/// The bits of a double, with negative zero read as zero. Two doubles that are numbers
/// are equal exactly where these are.
pub open spec fn without_negative_zero(bits: u64) -> u64 {
    if bits == NEGATIVE_ZERO {
        0
    } else {
        bits
    }
}

/// The bits of a double, with negative zero read as zero.
pub fn plain_zero(bits: u64) -> (r: u64)
    ensures
        r == without_negative_zero(bits),
{
    if bits == NEGATIVE_ZERO {
        0
    } else {
        bits
    }
}

/// A number divided by a unit, to the nearest whole number; of two that are equally
/// near, to the even one.
pub open spec fn rounded(n: nat, unit: nat) -> nat {
    let quotient = n / unit;
    let rest = n % unit;
    if 2 * rest > unit || (2 * rest == unit && quotient % 2 == 1) {
        quotient + 1
    } else {
        quotient
    }
}

/// What a finite, non-negative double is worth, in units of the smallest one.
pub open spec fn amount(bits: u64) -> nat {
    let exponent = bits / 0x10_0000_0000_0000;
    let fraction = bits % 0x10_0000_0000_0000;
    if exponent == 0 {
        fraction as nat
    } else {
        (fraction + 0x10_0000_0000_0000) as nat * pow2((exponent - 1) as nat)
    }
}

/// How often a number is halved until a double's digits hold it.
pub open spec fn spare(n: nat) -> nat
    decreases n,
{
    if n < 0x20_0000_0000_0000 {
        0
    } else {
        1 + spare(n / 2)
    }
}

/// The bits of the double that is nearest to an amount; of two that are equally
/// near, of the even one. An amount that is too large for a finite one has bits from
/// those of infinity on.
pub open spec fn nearest(n: nat) -> nat {
    spare(n) * 0x10_0000_0000_0000 + rounded(n, pow2(spare(n)))
}

/// The bits of the sum of two finite doubles that are not below zero, where it is finite
/// too. Only two negative zeros add up to negative zero.
pub open spec fn sum_of(a: u64, b: u64) -> Option<u64> {
    let (x, y) = (without_negative_zero(a), without_negative_zero(b));
    let sum = nearest(amount(x) + amount(y));
    if a == NEGATIVE_ZERO && b == NEGATIVE_ZERO {
        Some(NEGATIVE_ZERO)
    } else if x < INFINITE && y < INFINITE && sum < INFINITE {
        Some(sum as u64)
    } else {
        None
    }
}

/// Two to a power.
pub fn two_to(n: u32) -> (r: u128)
    requires
        n <= 64,
    ensures
        r == pow2(n as nat),
        r <= 0x1_0000_0000_0000_0000,
{
    let mut power: u128 = 1;
    let mut i: u32 = 0;
    proof {
        lemma2_to64();
    }
    while i < n
        invariant
            i <= n,
            n <= 64,
            power == pow2(i as nat),
            pow2(64) == 0x1_0000_0000_0000_0000,
        decreases n - i,
    {
        proof {
            lemma_pow2_unfold((i + 1) as nat);
            if i + 1 < 64 {
                lemma_pow2_strictly_increases((i + 1) as nat, 64);
            }
        }
        power = 2 * power;
        i = i + 1;
    }
    proof {
        if n < 64 {
            lemma_pow2_strictly_increases(n as nat, 64);
        }
    }
    power
}

proof fn lemma_spare(n: nat, s: nat)
    requires
        0x10_0000_0000_0000 * pow2(s) <= n < 0x20_0000_0000_0000 * pow2(s),
    ensures
        spare(n) == s,
    decreases s,
{
    if s == 0 {
        lemma2_to64();
    } else {
        let p = pow2((s - 1) as nat);
        lemma_pow2_unfold(s);
        lemma_pow2_pos((s - 1) as nat);
        assert(pow2(s) == 2 * p);
        lemma_spare(n / 2, (s - 1) as nat);
    }
}

proof fn lemma_rounded_scales(n: nat, unit: nat, scale: nat)
    requires
        unit > 0,
        scale > 0,
    ensures
        rounded(n * scale, unit * scale) == rounded(n, unit),
{
    let quotient = n / unit;
    let rest = n % unit;
    assert(n == unit * quotient + rest && rest < unit) by (nonlinear_arith)
        requires
            unit > 0,
            quotient == n / unit,
            rest == n % unit,
    ;
    assert(n * scale == (unit * scale) * quotient + rest * scale) by (nonlinear_arith)
        requires
            n == unit * quotient + rest,
    ;
    assert(rest * scale < unit * scale) by (nonlinear_arith)
        requires
            rest < unit,
            scale > 0,
    ;
    vstd::arithmetic::div_mod::lemma_fundamental_div_mod_converse(
        (n * scale) as int,
        (unit * scale) as int,
        quotient as int,
        (rest * scale) as int,
    );
    assert((2 * (rest * scale) > unit * scale) == (2 * rest > unit)) by (nonlinear_arith)
        requires
            scale > 0,
    ;
    assert((2 * (rest * scale) == unit * scale) == (2 * rest == unit)) by (nonlinear_arith)
        requires
            scale > 0,
    ;
}

/// The double nearest to a number of larger units, from what is spare of the number.
proof fn lemma_nearest(n: nat, s: nat, t: nat)
    requires
        (n < 0x20_0000_0000_0000 && s == 0 && t == 0) || 0x10_0000_0000_0000 * pow2(s) <= n
            < 0x20_0000_0000_0000 * pow2(s),
    ensures
        nearest(n * pow2(t)) == (s + t) * 0x10_0000_0000_0000 + rounded(n, pow2(s)),
{
    lemma_pow2_pos(s);
    lemma_pow2_pos(t);
    lemma_pow2_adds(s, t);
    lemma_rounded_scales(n, pow2(s), pow2(t));
    if n < 0x20_0000_0000_0000 && s == 0 && t == 0 {
        lemma2_to64();
        assert(n * 1 == n);
    } else {
        assert(0x10_0000_0000_0000 * pow2(s + t) <= n * pow2(t) < 0x20_0000_0000_0000 * pow2(s + t))
            by (nonlinear_arith)
            requires
                0x10_0000_0000_0000 * pow2(s) <= n < 0x20_0000_0000_0000 * pow2(s),
                pow2(s + t) == pow2(s) * pow2(t),
                pow2(t) > 0,
        ;
        lemma_spare(n * pow2(t), s + t);
    }
}

proof fn lemma_spare_bounds(n: nat)
    ensures
        n < 0x20_0000_0000_0000 * pow2(spare(n)),
        spare(n) > 0 ==> n >= 0x10_0000_0000_0000 * pow2(spare(n)),
    decreases n,
{
    lemma2_to64();
    if n >= 0x20_0000_0000_0000 {
        lemma_spare_bounds(n / 2);
        lemma_pow2_unfold(spare(n));
    }
}

/// What the double of some digits over a spare is worth.
proof fn lemma_amount(s: nat, digits: nat)
    requires
        digits <= 0x20_0000_0000_0000,
        s > 0 ==> digits >= 0x10_0000_0000_0000,
        s * 0x10_0000_0000_0000 + digits <= INFINITE,
    ensures
        amount((s * 0x10_0000_0000_0000 + digits) as u64) == digits * pow2(s),
{
    lemma2_to64();
    lemma_pow2_unfold(s + 1);
    let bits = (s * 0x10_0000_0000_0000 + digits) as u64;
    if digits < 0x10_0000_0000_0000 {
        assert(digits * 1 == digits);
    } else if digits < 0x20_0000_0000_0000 {
        assert(bits / 0x10_0000_0000_0000 == s + 1);
    } else {
        assert(bits / 0x10_0000_0000_0000 == s + 2);
        assert(0x10_0000_0000_0000 * (2 * pow2(s)) == digits * pow2(s));
    }
}

/// The digits of a finite, non-negative double, and the power of two that they are
/// multiplied by.
fn parts(bits: u64) -> (r: (u64, u32))
    requires
        bits < INFINITE,
    ensures
        amount(bits) == r.0 as nat * pow2(r.1 as nat),
        r.0 < 0x20_0000_0000_0000,
        r.1 > 0 ==> r.0 >= 0x10_0000_0000_0000,
        bits == r.1 * 0x10_0000_0000_0000 + r.0,
        r.1 <= 0x7fd,
{
    let exponent: u64 = bits / 0x10_0000_0000_0000;
    let fraction: u64 = bits % 0x10_0000_0000_0000;
    proof {
        lemma2_to64();
    }
    if exponent == 0 {
        assert(fraction as nat * 1 == fraction);
        (fraction, 0)
    } else {
        (fraction + 0x10_0000_0000_0000, (exponent - 1) as u32)
    }
}

/// The sum of two finite doubles that are not below zero, to the nearest double: `None`
/// where that is infinite.
pub fn finite_sum(a: u64, b: u64) -> (r: Option<u64>)
    ensures
        r == sum_of(a, b),
{
    if a == NEGATIVE_ZERO && b == NEGATIVE_ZERO {
        return Some(NEGATIVE_ZERO);
    }
    let a: u64 = plain_zero(a);
    let b: u64 = plain_zero(b);
    if a >= INFINITE || b >= INFINITE {
        return None;
    }
    let (x, y): (u64, u64) = if a >= b {
        (a, b)
    } else {
        (b, a)
    };
    let (mx, tx) = parts(x);
    let (my, ty) = parts(y);
    let gap: u32 = tx - ty;
    let ghost total = amount(x) + amount(y);
    let ghost n: nat = mx as nat * pow2(gap as nat) + my as nat;
    proof {
        lemma_pow2_adds(gap as nat, ty as nat);
        assert(mx as nat * (pow2(gap as nat) * pow2(ty as nat)) + my as nat * pow2(ty as nat) == (
        mx as nat * pow2(gap as nat) + my as nat) * pow2(ty as nat)) by (nonlinear_arith);
        assert(total == n * pow2(ty as nat));
        lemma2_to64();
        lemma_pow2_pos(gap as nat);
    }
    if gap >= 64 {
        proof {
            if gap > 64 {
                lemma_pow2_strictly_increases(64, gap as nat);
            }
            let unit = pow2(gap as nat);
            assert(0x10_0000_0000_0000 * unit <= n < 0x20_0000_0000_0000 * unit)
                by (nonlinear_arith)
                requires
                    n == mx as nat * unit + my as nat,
                    0x10_0000_0000_0000 <= mx < 0x20_0000_0000_0000,
                    my < unit,
            ;
            vstd::arithmetic::div_mod::lemma_fundamental_div_mod_converse(
                n as int,
                unit as int,
                mx as int,
                my as int,
            );
            assert(rounded(n, unit) == mx);
            lemma_nearest(n, gap as nat, ty as nat);
        }
        return Some(x);
    }
    let unit: u128 = two_to(gap);
    proof {
        lemma_pow2_strictly_increases(gap as nat, 64);
        assert(mx as nat * unit as nat <= 0x1f_ffff_ffff_ffffnat * 0xffff_ffff_ffff_ffffnat)
            by (nonlinear_arith)
            requires
                mx <= 0x1f_ffff_ffff_ffff,
                unit <= 0xffff_ffff_ffff_ffff,
        ;
    }
    let number: u128 = (mx as u128) * unit + (my as u128);
    let fits = number < 0x20_0000_0000_0000 * unit;
    let shift: u32 = if fits {
        gap
    } else {
        gap + 1
    };
    let by: u128 = two_to(shift);
    proof {
        lemma_pow2_unfold((gap + 1) as nat);
        assert(number < 0x20_0000_0000_0000 * (2 * unit)) by (nonlinear_arith)
            requires
                number == mx as nat * unit + my,
                mx < 0x20_0000_0000_0000,
                my < 0x20_0000_0000_0000,
                unit >= 1,
        ;
        if mx >= 0x10_0000_0000_0000 {
            assert(number >= 0x10_0000_0000_0000 * unit) by (nonlinear_arith)
                requires
                    number == mx as nat * unit + my,
                    mx >= 0x10_0000_0000_0000,
            ;
        }
        lemma_nearest(number as nat, shift as nat, ty as nat);
        assert(number / by < 0x20_0000_0000_0000) by (nonlinear_arith)
            requires
                number < 0x20_0000_0000_0000 * by,
                by > 0,
        ;
    }
    let quotient: u128 = number / by;
    let rest: u128 = number % by;
    let digits: u64 = if 2 * rest > by || (2 * rest == by && quotient % 2 == 1) {
        (quotient + 1) as u64
    } else {
        quotient as u64
    };
    let sum: u64 = ((shift + ty) as u64) * 0x10_0000_0000_0000 + digits;
    assert(sum == nearest(total));
    if sum < INFINITE {
        Some(sum)
    } else {
        None
    }
}

/// What the double nearest to an amount is: one of the two neighbours between which
/// the amount lies, and the nearer of them.
pub proof fn law_nearest_is_nearest(n: nat)
    requires
        nearest(n) < INFINITE,
    ensures
        exists|low: u64|
            {
                &&& low < INFINITE
                &&& #[trigger] amount(low) <= n < amount((low + 1) as u64)
                &&& if 2 * n < amount(low) + amount((low + 1) as u64) {
                    nearest(n) == low
                } else if 2 * n > amount(low) + amount((low + 1) as u64) {
                    nearest(n) == low + 1
                } else {
                    nearest(n) % 2 == 0 && (nearest(n) == low || nearest(n) == low + 1)
                }
            },
{
    let s = spare(n);
    let unit = pow2(s);
    let quotient = n / unit;
    let rest = n % unit;
    lemma_pow2_pos(s);
    lemma_spare_bounds(n);
    lemma2_to64();
    assert(n == unit * quotient + rest && rest < unit) by (nonlinear_arith)
        requires
            unit > 0,
            quotient == n / unit,
            rest == n % unit,
    ;
    assert(quotient < 0x20_0000_0000_0000) by (nonlinear_arith)
        requires
            n == unit * quotient + rest,
            n < 0x20_0000_0000_0000 * unit,
            unit > 0,
    ;
    if s > 0 {
        assert(quotient >= 0x10_0000_0000_0000) by (nonlinear_arith)
            requires
                n == unit * quotient + rest,
                rest < unit,
                n >= 0x10_0000_0000_0000 * unit,
                unit > 0,
        ;
    }
    let low = (s * 0x10_0000_0000_0000 + quotient) as u64;
    lemma_amount(s, quotient);
    lemma_amount(s, quotient + 1);
    assert(unit * (quotient + 1) == unit * quotient + unit) by (nonlinear_arith);
    assert(amount(low) == quotient * unit);
    assert(amount((low + 1) as u64) == (quotient + 1) * unit);
    assert(quotient * unit == unit * quotient) by (nonlinear_arith);
    assert((quotient + 1) * unit == unit * (quotient + 1)) by (nonlinear_arith);
}

/// The sum of two costs does not depend on their order.
pub proof fn law_sum_does_not_depend_on_order(a: u64, b: u64)
    ensures
        sum_of(a, b) == sum_of(b, a),
{
}

} // verus!
