use mdbg::interrupt::{interrupt_requested, INTERRUPT_BYTE};

#[test]
fn interrupt_byte_is_the_third() {
    assert_eq!(INTERRUPT_BYTE, 3);
}

#[test]
fn interrupt_is_found_wherever_it_stands() {
    assert!(interrupt_requested(&[3]));
    assert!(interrupt_requested(&[b'a', 3, b'b']));
    assert!(interrupt_requested(&[b'a', b'b', 3]));
    assert!(interrupt_requested(&[3, 3]));
}

#[test]
fn input_without_the_byte_asks_for_nothing() {
    assert!(!interrupt_requested(&[]));
    assert!(!interrupt_requested(b"abc"));
    assert!(!interrupt_requested(&[0, 1, 2, 4, 255]));
}
