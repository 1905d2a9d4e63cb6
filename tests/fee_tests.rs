use wallet::fee::tx_fee;

#[test]
fn fee_two_inputs_two_outputs() {
    assert_eq!(tx_fee(2, 2, None), 70);
}

#[test]
fn fee_weight_floored_at_one() {
    assert_eq!(tx_fee(10, 1, None), 10);
}

#[test]
fn fee_never_below_base_fee() {
    for i in 0..50usize {
        for o in 0..20usize {
            assert!(tx_fee(i, o, None) >= 10);
            assert!(tx_fee(i, o, Some(3)) >= 3);
        }
    }
}

#[test]
fn fee_with_explicit_base_fee() {
    assert_eq!(tx_fee(1, 1, Some(7)), 28);
    assert_eq!(tx_fee(0, 0, Some(5)), 5);
    assert_eq!(tx_fee(3, 3, Some(0)), 0);
}

#[test]
fn fee_saturates_instead_of_wrapping() {
    assert_eq!(tx_fee(0, usize::MAX, None), u64::MAX);
    assert_eq!(tx_fee(0, usize::MAX, Some(0)), 0);
    assert_eq!(tx_fee(0, 1 << 61, Some(1)), (1u64 << 63) + 1);
}
