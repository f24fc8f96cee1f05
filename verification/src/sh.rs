//! Spherical harmonics by their degree: a function of degree `d` has
//! `(d + 1)^2` coefficients per colour channel.

use vstd::arithmetic::mul::*;
use vstd::prelude::*;

verus! {

/// The number of coefficients per channel at a degree.
pub open spec fn coeffs_of_degree(degree: nat) -> nat {
    (degree + 1) * (degree + 1)
}

/// More degrees have more coefficients.
pub proof fn law_coeffs_grow_with_degree(lower: nat, higher: nat)
    requires
        lower < higher,
    ensures
        coeffs_of_degree(lower) < coeffs_of_degree(higher),
{
    lemma_mul_inequality(lower as int + 1, higher as int + 1, lower as int + 1);
    lemma_mul_strict_inequality(lower as int + 1, higher as int + 1, higher as int + 1);
    lemma_mul_is_commutative(lower as int + 1, higher as int + 1);
}

/// The number of coefficients per channel at a degree.
pub fn sh_coeffs_for_degree(degree: u32) -> (coeffs: u32)
    requires
        coeffs_of_degree(degree as nat) <= u32::MAX,
    ensures
        coeffs == coeffs_of_degree(degree as nat),
{
    proof {
        lemma_mul_inequality(1, degree as int + 1, degree as int + 1);
    }
    (degree + 1) * (degree + 1)
}

/// The degree that has this number of coefficients per channel.
pub fn sh_degree_from_coeffs(coeffs: u32) -> (degree: u32)
    requires
        exists|d: nat| coeffs == #[trigger] coeffs_of_degree(d),
    ensures
        coeffs == coeffs_of_degree(degree as nat),
{
    let ghost d = choose|d: nat| coeffs == #[trigger] coeffs_of_degree(d);
    proof {
        lemma_mul_inequality(1, d as int + 1, d as int + 1);
    }
    let mut degree: u32 = 0;
    while (degree as u64 + 1) * (degree as u64 + 1) < coeffs as u64
        invariant
            coeffs == coeffs_of_degree(d),
            d + 1 <= coeffs,
            degree <= d,
            (degree + 1) * (degree + 1) <= 0xffff_ffff_ffff_ffff,
        decreases d - degree,
    {
        proof {
            if degree == d {
                assert(false);
            }
            lemma_mul_upper_bound(degree + 2, 0xffff_ffff, degree + 2, 0xffff_ffff);
        }
        degree += 1;
    }
    proof {
        if degree < d {
            law_coeffs_grow_with_degree(degree as nat, d);
        }
    }
    degree
}

/// A count of coefficients belongs to one degree alone.
pub proof fn law_degree_is_read_back(degree: nat, other: nat)
    requires
        coeffs_of_degree(degree) == coeffs_of_degree(other),
    ensures
        degree == other,
{
    if degree < other {
        law_coeffs_grow_with_degree(degree, other);
    } else if other < degree {
        law_coeffs_grow_with_degree(other, degree);
    }
}

/// A degree has one coefficient for each of its own `2 * degree + 1` functions
/// more than the degree below, and degree zero has one. The degree is read back
/// from the count.
pub proof fn law_coefficients_add_up(degree: u32, coeffs: u32, above: u32, read: u32)
    requires
        coeffs_of_degree((degree + 1) as nat) <= u32::MAX,
        call_ensures(sh_coeffs_for_degree, (degree,), coeffs),
        call_ensures(sh_coeffs_for_degree, ((degree + 1) as u32,), above),
        call_ensures(sh_degree_from_coeffs, (coeffs,), read),
    ensures
        degree == 0 ==> coeffs == 1,
        above == coeffs + 2 * (degree + 1) + 1,
        read == degree,
{
    let d = degree as int;
    assert((d + 2) * (d + 2) == (d + 1) * (d + 1) + 2 * (d + 1) + 1) by (nonlinear_arith);
    assert(degree == 0 ==> (d + 1) * (d + 1) == 1) by (nonlinear_arith)
        requires
            d == degree,
    ;
    lemma_mul_inequality(1, d + 2, d + 2);
    assert(((degree + 1) as u32) == degree + 1);
    assert(coeffs == coeffs_of_degree(degree as nat));
    law_degree_is_read_back(degree as nat, read as nat);
}

} // verus!
