use zkevm_verifier::field::{
    canonical, field_add, field_eq, field_inverse, field_mul, field_neg, field_pow, field_sub, ORDER,
};

#[test]
fn order_is_the_goldilocks_prime() {
    assert_eq!(ORDER, 18446744069414584321);
}

#[test]
fn canonical_reduces_once() {
    assert_eq!(canonical(0), 0);
    assert_eq!(canonical(ORDER - 1), ORDER - 1);
    assert_eq!(canonical(ORDER), 0);
    assert_eq!(canonical(ORDER + 5), 5);
    assert_eq!(canonical(u64::MAX), 0xFFFF_FFFE);
}

#[test]
fn field_eq_compares_residues() {
    assert!(field_eq(3, 3));
    assert!(field_eq(ORDER + 3, 3));
    assert!(!field_eq(3, 4));
    assert!(field_eq(ORDER, 0));
}

#[test]
fn products_are_reduced() {
    assert_eq!(field_mul(2, 3), 6);
    assert_eq!(field_mul(0, 12345), 0);
    // 2^32 * 2^32 = 2^64 = 2^32 - 1 modulo the order.
    assert_eq!(field_mul(1 << 32, 1 << 32), 0xFFFF_FFFF);
    // (-1) * (-1) = 1.
    assert_eq!(field_mul(ORDER - 1, ORDER - 1), 1);
    // A representative above the order stands for its residue.
    assert_eq!(field_mul(ORDER + 2, 3), 6);
    assert_eq!(field_mul(u64::MAX, u64::MAX), field_mul(0xFFFF_FFFE, 0xFFFF_FFFE));
}

#[test]
fn sums_are_reduced() {
    assert_eq!(field_add(2, 3), 5);
    assert_eq!(field_add(ORDER - 1, 1), 0);
    assert_eq!(field_add(ORDER - 1, ORDER - 1), ORDER - 2);
    assert_eq!(field_add(u64::MAX, u64::MAX), 2 * 0xFFFF_FFFE);
}

#[test]
fn negation_is_the_additive_inverse() {
    assert_eq!(field_neg(0), 0);
    assert_eq!(field_neg(ORDER), 0);
    assert_eq!(field_neg(1), ORDER - 1);
    assert_eq!(field_neg(ORDER - 1), 1);
    for x in [0u64, 1, 2, 77, ORDER - 1, ORDER, u64::MAX] {
        assert_eq!(field_add(x, field_neg(x)), 0);
    }
}

#[test]
fn differences_are_reduced() {
    assert_eq!(field_sub(5, 3), 2);
    assert_eq!(field_sub(3, 5), ORDER - 2);
    assert_eq!(field_sub(0, 0), 0);
    assert_eq!(field_sub(u64::MAX, 0), 0xFFFF_FFFE);
    assert_eq!(field_sub(0, u64::MAX), ORDER - 0xFFFF_FFFE);
}

#[test]
fn powers_by_squaring() {
    assert_eq!(field_pow(3, 0), 1);
    assert_eq!(field_pow(0, 0), 1);
    assert_eq!(field_pow(3, 1), 3);
    assert_eq!(field_pow(3, 5), 243);
    assert_eq!(field_pow(2, 64), 0xFFFF_FFFF);
    // 2^96 = -1 and 2^192 = 1.
    assert_eq!(field_pow(2, 96), ORDER - 1);
    assert_eq!(field_pow(2, 192), 1);
    assert_eq!(field_pow(7, ORDER - 1), 1);
}

#[test]
fn inverse_times_the_element_is_one() {
    assert_eq!(field_inverse(0), None);
    assert_eq!(field_inverse(ORDER), None);
    assert_eq!(field_inverse(1), Some(1));
    assert_eq!(field_inverse(ORDER - 1), Some(ORDER - 1));
    // 2 * (ORDER + 1) / 2 = 1.
    assert_eq!(field_inverse(2), Some((ORDER + 1) / 2));
    for x in [2u64, 3, 7, 123456789, ORDER - 2, u64::MAX] {
        let inv = field_inverse(x).unwrap();
        assert_eq!(field_mul(x, inv), 1);
    }
}
