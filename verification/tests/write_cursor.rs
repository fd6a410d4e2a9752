use libasterix::asterix::cursor::Cursor;
use libasterix::asterix::write_cursor::WriteCursor;

#[test]
fn test_write_u8() {
    let mut cursor = WriteCursor::new();
    cursor.write_u8(0x42);
    assert_eq!(cursor.as_slice(), &[0x42]);
}

#[test]
fn test_write_u16_be() {
    let mut cursor = WriteCursor::new();
    cursor.write_u16_be(0x1234);
    assert_eq!(cursor.as_slice(), &[0x12, 0x34]);
}

#[test]
fn test_write_i16_be() {
    let mut cursor = WriteCursor::new();
    cursor.write_i16_be(-1);
    assert_eq!(cursor.as_slice(), &[0xFF, 0xFF]);
}

#[test]
fn test_write_u24_be() {
    let mut cursor = WriteCursor::new();
    cursor.write_u24_be(0x123456);
    assert_eq!(cursor.as_slice(), &[0x12, 0x34, 0x56]);
}

#[test]
fn test_write_i24_be() {
    let mut cursor = WriteCursor::new();
    cursor.write_i24_be(-1);
    assert_eq!(cursor.as_slice(), &[0xFF, 0xFF, 0xFF]);
}

#[test]
fn test_write_i32_be() {
    let mut cursor = WriteCursor::new();
    cursor.write_i32_be(0x12345678);
    assert_eq!(cursor.as_slice(), &[0x12, 0x34, 0x56, 0x78]);
}

#[test]
fn test_patch_u16_be() {
    let mut cursor = WriteCursor::new();
    cursor.write_u8(0x3E); // CAT
    cursor.write_u16_be(0x0000); // Placeholder for length
    cursor.write_u8(0xAA); // Some data
    cursor.patch_u16_be(1, 0x0004); // Patch length
    assert_eq!(cursor.as_slice(), &[0x3E, 0x00, 0x04, 0xAA]);
}

#[test]
fn write_negative_i24_and_i32_patterns() {
    let mut cursor = WriteCursor::with_capacity(8);
    cursor.write_i24_be(-2);
    cursor.write_i32_be(-0x1234_5678);
    assert_eq!(cursor.position(), 7);
    assert_eq!(cursor.into_inner(), vec![0xFF, 0xFF, 0xFE, 0xED, 0xCB, 0xA9, 0x88]);
}

#[test]
fn write_u24_keeps_low_three_octets() {
    let mut cursor = WriteCursor::default();
    cursor.write_u24_be(0xAB12_3456);
    assert_eq!(cursor.as_slice(), &[0x12, 0x34, 0x56]);
}

#[test]
fn write_bytes_appends() {
    let mut cursor = WriteCursor::new();
    cursor.write_u8(1);
    cursor.write_bytes(&[2, 3, 4]);
    assert_eq!(cursor.as_slice(), &[1, 2, 3, 4]);
}

#[test]
fn read_back_what_was_written() {
    let mut w = WriteCursor::new();
    w.write_u8(0x7F);
    w.write_u16_be(0xBEEF);
    w.write_i16_be(-300);
    w.write_u24_be(0x00AB_CDEF);
    let bytes = w.into_inner();
    let mut c = Cursor::new(&bytes);
    assert_eq!(c.read_u8(), Ok(0x7F));
    assert_eq!(c.read_u16_be(), Ok(0xBEEF));
    assert_eq!(c.read_i16_be(), Ok(-300));
    assert_eq!(c.read_u24_be(), Ok(0xAB_CDEF));
    assert_eq!(c.remaining(), 0);
    assert_eq!(c.position(), 8);
}
