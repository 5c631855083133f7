use recproofs::field::{add, from_bool, from_i64, neg_one, sub, ORDER};

#[test]
fn field_add_wraps_at_the_order() {
    assert_eq!(add(2, 3), 5);
    assert_eq!(add(ORDER - 1, 1), 0);
    assert_eq!(add(ORDER - 1, ORDER - 1), ORDER - 2);
}

#[test]
fn field_sub_wraps_below_zero() {
    assert_eq!(sub(5, 3), 2);
    assert_eq!(sub(3, 5), ORDER - 2);
    assert_eq!(sub(0, 1), ORDER - 1);
}

#[test]
fn field_from_signed() {
    assert_eq!(from_i64(300), 300);
    assert_eq!(from_i64(-300), ORDER - 300);
    assert_eq!(from_i64(0), 0);
    assert_eq!(from_i64(i64::MIN), ORDER - 0x8000_0000_0000_0000);
    assert_eq!(from_bool(true), 1);
    assert_eq!(from_bool(false), 0);
    assert_eq!(neg_one(), ORDER - 1);
    assert_eq!(add(neg_one(), 1), 0);
}
