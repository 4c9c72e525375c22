use battlezips::field::{add_mod, mul_mod, sub_mod, ORDER};

#[test]
fn the_order_is_the_goldilocks_prime() {
    assert_eq!(ORDER, 18446744069414584321);
    assert_eq!(ORDER as u128, (1u128 << 64) - (1u128 << 32) + 1);
}

#[test]
fn addition_wraps_at_the_order() {
    assert_eq!(add_mod(2, 3), 5);
    assert_eq!(add_mod(ORDER - 1, 1), 0);
    assert_eq!(add_mod(ORDER - 1, ORDER - 1), ORDER - 2);
}

#[test]
fn subtraction_wraps_below_zero() {
    assert_eq!(sub_mod(5, 3), 2);
    assert_eq!(sub_mod(3, 5), ORDER - 2);
    assert_eq!(sub_mod(0, 1), ORDER - 1);
    assert_eq!(sub_mod(7, 7), 0);
}

#[test]
fn multiplication_reduces() {
    assert_eq!(mul_mod(6, 7), 42);
    assert_eq!(mul_mod(ORDER - 1, ORDER - 1), 1);
    assert_eq!(mul_mod(1 << 32, 1 << 32), (1 << 32) - 1);
    assert_eq!(mul_mod(0, ORDER - 1), 0);
}
