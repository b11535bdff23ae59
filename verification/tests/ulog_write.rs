use vyuta::ulog::{next_message, parse};
use vyuta::ulog_write::{put_header, put_logged, put_msg, push_le};

#[test]
fn frames_read_back_as_written() {
    let mut out = vec![9u8, 9];
    put_msg(&mut out, b'X', &[1, 2, 3]);
    assert_eq!(out, vec![9, 9, 3, 0, b'X', 1, 2, 3]);
    assert_eq!(next_message(&out, 2), Some((b'X', 5, 8)));
    assert_eq!(next_message(&out, 8), None);
}

#[test]
fn little_endian_bytes() {
    let mut out = Vec::new();
    push_le(&mut out, 0x0102_0304, 4);
    assert_eq!(out, vec![4, 3, 2, 1]);
    push_le(&mut out, 0x1ff, 1);
    assert_eq!(out[4], 0xff);
}

#[test]
fn logged_string_reads_back() {
    let mut out = Vec::new();
    put_header(&mut out, 5);
    assert_eq!(&out[..7], &[0x55, 0x4C, 0x6F, 0x67, 0x01, 0x12, 0x35]);
    put_logged(&mut out, 3, 123_456, "héllo");
    let log = parse(&out, "a", "b").unwrap();
    assert_eq!(log.messages.len(), 1);
    assert_eq!(log.messages[0].text, "héllo");
    assert_eq!(log.messages[0].t_us, 123_456);
    assert_eq!(log.messages[0].level, 3);
}
