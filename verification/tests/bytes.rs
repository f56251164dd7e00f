use realtime::bytes::{
    bytes_equal, copy_range, has_selector, read_array, read_length_prefixed, read_u32, read_u64,
};

fn word(n: u64) -> Vec<u8> {
    let mut out = vec![0u8; 24];
    out.extend_from_slice(&n.to_be_bytes());
    out
}

#[test]
fn reads_big_endian_integers() {
    assert_eq!(read_u64(&[9, 0, 0, 0, 0, 0, 0, 1, 2], 1), 0x0102);
    assert_eq!(read_u64(&[0xff; 8], 0), u64::MAX);
    assert_eq!(read_u32(&[1, 2, 3, 4, 5], 1), 0x02030405);
}

#[test]
fn copies_bytes() {
    assert_eq!(read_array::<3>(&[1, 2, 3, 4], 1), [2, 3, 4]);
    assert_eq!(copy_range(&[1, 2, 3, 4], 1, 3), vec![2, 3]);
    assert_eq!(copy_range(&[1, 2, 3, 4], 4, 4), Vec::<u8>::new());
}

#[test]
fn compares_bytes() {
    assert!(bytes_equal(&[1, 2], &[1, 2]));
    assert!(!bytes_equal(&[1, 2], &[1, 3]));
    assert!(!bytes_equal(&[1, 2], &[1]));
    assert!(has_selector(&[1, 2, 3, 4, 5], &[1, 2, 3, 4]));
    assert!(!has_selector(&[1, 2, 3], &[1, 2, 3, 4]));
}

#[test]
fn reads_a_length_prefixed_byte_string() {
    let mut bytes = vec![7u8; 5];
    bytes.extend(word(3));
    bytes.extend_from_slice(&[10, 11, 12]);
    assert_eq!(read_length_prefixed(&bytes, 4, 1), Some(vec![10, 11, 12]));
    bytes.pop();
    assert_eq!(read_length_prefixed(&bytes, 4, 1), None);
    assert_eq!(read_length_prefixed(&bytes, 4, 5), None);
    assert_eq!(read_length_prefixed(&bytes, 4, u64::MAX), None);
    assert_eq!(read_length_prefixed(&word(u64::MAX), 0, 0), None);
    assert_eq!(read_length_prefixed(&word(0), 0, 0), Some(vec![]));
}
