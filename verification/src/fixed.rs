//! Fixed-point numbers: seconds, hertz and points, [`ONE`] to the unit.
use vstd::prelude::*;

verus! {

/// One second, one hertz, or one point.
pub const ONE: i64 = 4_294_967_296;

/// `a - b`, held at the ends of the range.
pub open spec fn difference(a: int, b: int) -> int {
    if a - b > i64::MAX {
        i64::MAX as int
    } else if a - b < i64::MIN {
        i64::MIN as int
    } else {
        a - b
    }
}

/// `a - b`, held at the ends of the range.
pub fn minus(a: i64, b: i64) -> (r: i64)
    ensures
        r == difference(a as int, b as int),
{
    let d: i128 = a as i128 - b as i128;
    if d > i64::MAX as i128 {
        i64::MAX
    } else if d < i64::MIN as i128 {
        i64::MIN
    } else {
        d as i64
    }
}

/// Half of `v`, rounded down.
pub fn half(v: i64) -> (r: i128)
    ensures
        r == v as int / 2,
        i64::MIN <= r <= i64::MAX,
{
    if v >= 0 {
        (v / 2) as i128
    } else {
        let up: i64 = -(v + 1);
        -((up / 2) as i128) - 1
    }
}

/// The product of two fixed-point numbers, rounded down.
pub open spec fn product(a: int, b: int) -> int {
    (a * b) / (ONE as int)
}

/// The product of two fixed-point numbers, rounded down.
pub fn times(a: i64, b: i64) -> (r: i128)
    ensures
        r == product(a as int, b as int),
        -0x4000_0000_0000_0000_0000_0000 <= r <= 0x4000_0000_0000_0000_0000_0000,
{
    proof {
        let x = a as int;
        let y = b as int;
        assert(-0x4000_0000_0000_0000_0000_0000_0000_0000 <= x * y
            <= 0x4000_0000_0000_0000_0000_0000_0000_0000) by (nonlinear_arith)
            requires
                -0x8000_0000_0000_0000 <= x <= 0x7fff_ffff_ffff_ffff,
                -0x8000_0000_0000_0000 <= y <= 0x7fff_ffff_ffff_ffff,
        ;
    }
    let p: i128 = a as i128 * b as i128;
    let one: i128 = ONE as i128;
    if p >= 0 {
        p / one
    } else {
        let up: i128 = -(p + 1);
        -(up / one) - 1
    }
}

// ── What holds of the whole ─────────────────────────────────────────────────

/// A difference added back gives what it was taken from, wherever it fits; past
/// the range it is the nearer end.
pub proof fn law_a_difference_adds_back(a: int, b: int)
    ensures
        i64::MIN <= difference(a, b) <= i64::MAX,
        i64::MIN <= a - b <= i64::MAX ==> difference(a, b) + b == a,
        a - b > i64::MAX ==> difference(a, b) == i64::MAX,
        a - b < i64::MIN ==> difference(a, b) == i64::MIN,
{
}

/// A product is within one step below the exact one, and a whole number of units
/// multiplies exactly.
pub proof fn law_a_product_is_rounded_down(a: int, b: int)
    ensures
        product(a, b) * ONE <= a * b < product(a, b) * ONE + ONE,
        product(a, ONE as int) == a,
{
    vstd::arithmetic::div_mod::lemma_fundamental_div_mod(a * b, ONE as int);
    vstd::arithmetic::div_mod::lemma_mod_bound(a * b, ONE as int);
    vstd::arithmetic::mul::lemma_mul_is_commutative(product(a, b), ONE as int);
    vstd::arithmetic::div_mod::lemma_div_multiples_vanish(a, ONE as int);
    vstd::arithmetic::mul::lemma_mul_is_commutative(a, ONE as int);
}

} // verus!
