use gen_initrd::align::{align_to, align_up, ALIGN};

#[test]
fn align_up_rounds_to_next_multiple() {
    assert_eq!(align_up(0, 8), 0);
    assert_eq!(align_up(1, 8), 8);
    assert_eq!(align_up(7, 8), 8);
    assert_eq!(align_up(8, 8), 8);
    assert_eq!(align_up(9, 8), 16);
    assert_eq!(align_up(4096, 8), 4096);
    assert_eq!(align_up(3, 4), 4);
    assert_eq!(align_up(5, 1), 5);
}

#[test]
fn align_to_pads_with_zeros() {
    let mut v = vec![1u8, 2, 3];
    align_to(&mut v, ALIGN);
    assert_eq!(v, vec![1, 2, 3, 0, 0, 0, 0, 0]);

    // An already aligned buffer is left alone.
    let mut v = vec![9u8; 16];
    align_to(&mut v, ALIGN);
    assert_eq!(v, vec![9u8; 16]);

    let mut v: Vec<u8> = Vec::new();
    align_to(&mut v, ALIGN);
    assert!(v.is_empty());
}
