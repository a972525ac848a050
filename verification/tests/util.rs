use cursebox::util::{append, copy_from_ptr, copy_from_slice, ptr_diff};

#[test]
fn index_distance() {
    assert_eq!(ptr_diff(7, 3), 4);
    assert_eq!(ptr_diff(3, 3), 0);
}

#[test]
fn copy_into_the_middle() {
    let mut tgt = [0u8, 1, 2, 3, 4, 5];
    copy_from_slice(&mut tgt, 2, &[9, 8, 7]);
    assert_eq!(tgt, [0, 1, 9, 8, 7, 5]);
    copy_from_slice(&mut tgt, 6, &[]);
    assert_eq!(tgt, [0, 1, 9, 8, 7, 5]);
}

#[test]
fn fill_from_an_offset() {
    let mut tgt = [0u8; 3];
    copy_from_ptr(&mut tgt, &[1, 2, 3, 4, 5], 2);
    assert_eq!(tgt, [3, 4, 5]);
}

#[test]
fn append_bytes() {
    let mut out = vec![1u8];
    append(&mut out, &[2, 3]);
    append(&mut out, &[]);
    assert_eq!(out, vec![1, 2, 3]);
}
