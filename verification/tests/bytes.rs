use rfshare::bytes::{bytes_of, push_le, read_le};
use rfshare::relay::is_http;
use rfshare::utils::hostname_from;

#[test]
fn little_endian_numbers() {
    let mut v = vec![9u8];
    push_le(&mut v, 0x0102_0304, 4);
    assert_eq!(v, vec![9, 4, 3, 2, 1]);
    assert_eq!(read_le(&v, 1, 4), 0x0102_0304);
    let mut w = Vec::new();
    push_le(&mut w, u64::MAX - 5, 8);
    assert_eq!(w, (u64::MAX - 5).to_le_bytes().to_vec());
    assert_eq!(read_le(&w, 0, 8), u64::MAX - 5);
    assert_eq!(bytes_of(&[1, 2, 3, 4], 1, 3), vec![2, 3]);
}

#[test]
fn only_valid_text_is_taken_strictly() {
    assert_eq!(hostname_from(Some(b" box \n".to_vec())), "box");
    assert_eq!(hostname_from(Some(vec![0xff, 0xfe])), "this-device");
    assert!(is_http(b"GET /x"));
    assert!(!is_http(&[b'G', b'E', b'T', b' ', 0xff]));
}
