use vstd::prelude::*;
use crate::prime::lemma_no_zero_divisors;

verus! {

/// The order of the field the circuits compute in: `2^64 - 2^32 + 1`.
pub const ORDER: u64 = 0xFFFF_FFFF_0000_0001;

/// `v` is the canonical representative of a field element.
pub open spec fn is_canonical(v: u64) -> bool {
    v < ORDER
}

/// Sum of two field elements.
#[verifier::opaque]
pub open spec fn field_add(a: u64, b: u64) -> u64 {
    ((a + b) % (ORDER as int)) as u64
}

/// Difference of two field elements.
#[verifier::opaque]
pub open spec fn field_sub(a: u64, b: u64) -> u64 {
    ((a - b) % (ORDER as int)) as u64
}

/// Product of two field elements.
#[verifier::opaque]
pub open spec fn field_mul(a: u64, b: u64) -> u64 {
    ((a * b) % (ORDER as int)) as u64
}

/// The field element that stands for a truth value.
pub open spec fn field_bool(b: bool) -> u64 {
    if b {
        1
    } else {
        0
    }
}

pub fn add_mod(a: u64, b: u64) -> (sum: u64)
    ensures
        sum == field_add(a, b),
        is_canonical(sum),
{
    proof {
        reveal(field_add);
    }
    let wide: u128 = a as u128 + b as u128;
    (wide % (ORDER as u128)) as u64
}

pub fn sub_mod(a: u64, b: u64) -> (difference: u64)
    requires
        is_canonical(a),
        is_canonical(b),
    ensures
        difference == field_sub(a, b),
        is_canonical(difference),
{
    proof {
        reveal(field_sub);
    }
    if a >= b {
        assert((a - b) % (ORDER as int) == a - b) by (nonlinear_arith)
            requires
                0 <= a - b < ORDER,
        ;
        a - b
    } else {
        let lifted: u64 = ORDER - b + a;
        assert((a - b) % (ORDER as int) == lifted) by {
            vstd::arithmetic::div_mod::lemma_mod_add_multiples_vanish(
                a as int - b as int,
                ORDER as int,
            );
            vstd::arithmetic::div_mod::lemma_small_mod(lifted as nat, ORDER as nat);
        }
        lifted
    }
}

pub fn mul_mod(a: u64, b: u64) -> (product: u64)
    ensures
        product == field_mul(a, b),
        is_canonical(product),
{
    proof {
        reveal(field_mul);
    }
    assert(a * b <= 0xFFFF_FFFF_FFFF_FFFF * 0xFFFF_FFFF_FFFF_FFFF) by (nonlinear_arith)
        requires
            0 <= a <= 0xFFFF_FFFF_FFFF_FFFF,
            0 <= b <= 0xFFFF_FFFF_FFFF_FFFF,
    ;
    let wide: u128 = a as u128 * b as u128;
    (wide % (ORDER as u128)) as u64
}

/// A product in the field is zero exactly where a factor is.
pub proof fn lemma_mul_zero(a: u64, b: u64)
    requires
        is_canonical(a),
        is_canonical(b),
    ensures
        field_mul(a, b) == 0 <==> a == 0 || b == 0,
        is_canonical(field_mul(a, b)),
{
    reveal(field_mul);
    if a == 0 || b == 0 {
        assert(a * b == 0) by (nonlinear_arith)
            requires
                a == 0 || b == 0,
        ;
    } else {
        lemma_no_zero_divisors(a, b);
    }
    assert(a * b >= 0) by (nonlinear_arith)
        requires
            a >= 0,
            b >= 0,
    ;
}

/// A difference in the field is zero exactly where the two elements agree.
pub proof fn lemma_sub_zero(a: u64, b: u64)
    requires
        is_canonical(a),
        is_canonical(b),
    ensures
        field_sub(a, b) == 0 <==> a == b,
        is_canonical(field_sub(a, b)),
{
    reveal(field_sub);
    if a >= b {
        vstd::arithmetic::div_mod::lemma_small_mod((a - b) as nat, ORDER as nat);
    } else {
        vstd::arithmetic::div_mod::lemma_mod_add_multiples_vanish(a - b, ORDER as int);
        vstd::arithmetic::div_mod::lemma_small_mod((a - b + ORDER) as nat, ORDER as nat);
    }
}

/// Sums of small numbers are not reduced.
pub proof fn lemma_add_small(a: u64, b: u64)
    requires
        a + b < ORDER,
    ensures
        field_add(a, b) == a + b,
{
    reveal(field_add);
    vstd::arithmetic::div_mod::lemma_small_mod((a + b) as nat, ORDER as nat);
}

/// Products of small numbers are not reduced.
pub proof fn lemma_mul_small(a: u64, b: u64)
    requires
        a * b < ORDER,
    ensures
        field_mul(a, b) == a * b,
{
    reveal(field_mul);
    assert(a * b >= 0) by (nonlinear_arith)
        requires
            a >= 0,
            b >= 0,
    ;
    vstd::arithmetic::div_mod::lemma_small_mod((a * b) as nat, ORDER as nat);
}

/// Subtracting zero changes nothing, and an element minus itself is zero.
pub proof fn lemma_sub_basics(a: u64)
    requires
        is_canonical(a),
    ensures
        field_sub(a, 0) == a,
        field_sub(a, a) == 0,
        field_mul(0, a) == 0,
        field_mul(1, a) == a,
        field_add(a, 0) == a,
        field_add(0, a) == a,
{
    reveal(field_add);
    reveal(field_sub);
    reveal(field_mul);
    vstd::arithmetic::div_mod::lemma_small_mod(a as nat, ORDER as nat);
    vstd::arithmetic::div_mod::lemma_small_mod(0, ORDER as nat);
    assert(0 * a == 0);
    assert(1 * a == a);
}

/// Zero minus the negative of an element gives the element back.
pub proof fn lemma_sub_negation(a: u64)
    requires
        is_canonical(a),
    ensures
        field_sub(0, field_sub(0, a)) == a,
{
    reveal(field_sub);
    if a == 0 {
        lemma_sub_basics(0);
    } else {
        vstd::arithmetic::div_mod::lemma_mod_add_multiples_vanish(0 - a, ORDER as int);
        vstd::arithmetic::div_mod::lemma_small_mod((ORDER - a) as nat, ORDER as nat);
        assert(field_sub(0, a) == ORDER - a);
        vstd::arithmetic::div_mod::lemma_mod_add_multiples_vanish(
            0 - (ORDER - a),
            ORDER as int,
        );
        vstd::arithmetic::div_mod::lemma_small_mod(a as nat, ORDER as nat);
    }
}

/// The three operations give canonical results.
pub proof fn lemma_results_canonical(a: u64, b: u64)
    ensures
        is_canonical(field_add(a, b)),
        is_canonical(field_sub(a, b)),
        is_canonical(field_mul(a, b)),
{
    reveal(field_add);
    reveal(field_sub);
    reveal(field_mul);
    assert(a * b >= 0) by (nonlinear_arith)
        requires
            a >= 0,
            b >= 0,
    ;
}

} // verus!
