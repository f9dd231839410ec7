use ic_context::throws::{require, throw};

#[test]
fn require_true_is_ok() {
    assert_eq!(require(true, "e"), Ok(()));
}

#[test]
fn require_false_is_err() {
    assert_eq!(require(false, 5u32), Err(5u32));
}

#[test]
fn throw_unwraps_ok() {
    assert_eq!(throw::<u8>(Ok(3)), 3);
}
