use prop_amm_strategy::bytes::{read_u64, write_u64};

#[test]
fn a_field_is_little_endian() {
    let buf = [9u8, 1, 2, 3, 4, 5, 6, 7, 8, 9];
    assert_eq!(read_u64(&buf, 1), 0x0807_0605_0403_0201);
    assert_eq!(read_u64(&buf, 2), 0x0908_0706_0504_0302);
    assert_eq!(read_u64(&[255u8; 8], 0), u64::MAX);
}

#[test]
fn a_field_beyond_the_end_reads_as_zero() {
    assert_eq!(read_u64(&[255u8; 9], 2), 0);
    assert_eq!(read_u64(&[255u8; 7], 0), 0);
    assert_eq!(read_u64(&[], 0), 0);
    assert_eq!(read_u64(&[255u8; 9], usize::MAX - 8), 0);
}

#[test]
fn a_write_puts_the_digits_in_place() {
    let mut buf = [7u8; 11];
    write_u64(&mut buf, 2, 0x1122_3344_5566_7788);
    assert_eq!(buf, [7, 7, 0x88, 0x77, 0x66, 0x55, 0x44, 0x33, 0x22, 0x11, 7]);
}

#[test]
fn a_write_beyond_the_end_changes_nothing() {
    let mut buf = [7u8; 9];
    write_u64(&mut buf, 2, u64::MAX);
    assert_eq!(buf, [7u8; 9]);
}

#[test]
fn what_was_written_is_read_back() {
    for value in [0, 1, 255, 256, 0x0102_0304_0506_0708, u64::MAX] {
        let mut buf = [0xaau8; 24];
        write_u64(&mut buf, 8, value);
        assert_eq!(read_u64(&buf, 8), value);
        assert_eq!(buf[8..16], value.to_le_bytes());
        assert_eq!(read_u64(&buf, 0), 0xaaaa_aaaa_aaaa_aaaa);
        assert_eq!(read_u64(&buf, 16), 0xaaaa_aaaa_aaaa_aaaa);
    }
}

#[test]
fn writing_back_a_field_changes_nothing() {
    let mut buf = [3u8, 1, 4, 1, 5, 9, 2, 6, 5, 3];
    let field = read_u64(&buf, 1);
    write_u64(&mut buf, 1, field);
    assert_eq!(buf, [3u8, 1, 4, 1, 5, 9, 2, 6, 5, 3]);
}

#[test]
fn the_last_write_wins() {
    let mut twice = [0u8; 8];
    write_u64(&mut twice, 0, u64::MAX);
    write_u64(&mut twice, 0, 77);
    let mut once = [0u8; 8];
    write_u64(&mut once, 0, 77);
    assert_eq!(twice, once);
}
