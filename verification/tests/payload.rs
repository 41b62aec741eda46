use muffin::payload::{buffer, get_seq, put_seq, SEQ_LEN};

#[test]
fn buffers_are_full_of_muffins() {
    assert_eq!(buffer(0), Vec::<u8>::new());
    assert_eq!(buffer(16), b"muffin muffin mu".to_vec());
}

#[test]
fn sequence_numbers_are_big_endian() {
    let mut buf = buffer(10);
    put_seq(&mut buf, 0x0102_0304_0506_0708);
    assert_eq!(buf, vec![1, 2, 3, 4, 5, 6, 7, 8, b'u', b'f']);
    assert_eq!(get_seq(&buf), Some(0x0102_0304_0506_0708));
}

#[test]
fn sequence_numbers_are_read_back() {
    let mut buf = vec![0u8; SEQ_LEN];
    for seq in [0, 1, 255, 256, u64::MAX - 1, u64::MAX] {
        put_seq(&mut buf, seq);
        assert_eq!(get_seq(&buf), Some(seq));
    }
}

#[test]
fn short_buffers_have_no_sequence_number() {
    assert_eq!(get_seq(&[]), None);
    assert_eq!(get_seq(&[0; 7]), None);
    assert_eq!(get_seq(&[0; 8]), Some(0));
}
