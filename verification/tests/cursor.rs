use libasterix::asterix::cursor::Cursor;
use libasterix::asterix::error::AsterixError;

#[test]
fn cursor_reads_big_endian_values() {
    let data = [0x12u8, 0x34, 0x56, 0x80, 0x00, 0xFF];
    let mut c = Cursor::new(&data);
    assert_eq!(c.remaining(), 6);
    assert_eq!(c.read_u24_be(), Ok(0x123456));
    assert_eq!(c.read_i16_be(), Ok(-32768));
    assert_eq!(c.position(), 5);
    assert_eq!(c.read_u8(), Ok(0xFF));
    assert_eq!(c.remaining(), 0);
}

#[test]
fn cursor_reports_end_of_input() {
    let data = [0x01u8, 0x02];
    let mut c = Cursor::new(&data);
    assert_eq!(c.read_u24_be(), Err(AsterixError::UnexpectedEof));
    assert_eq!(c.position(), 0);
    assert_eq!(c.read_u16_be(), Ok(0x0102));
    assert_eq!(c.read_u8(), Err(AsterixError::UnexpectedEof));
    assert_eq!(c.read_i16_be(), Err(AsterixError::UnexpectedEof));
}

#[test]
fn cursor_reads_fx_chains() {
    let data = [0x03u8, 0x01, 0x02, 0x09];
    let mut c = Cursor::new(&data);
    assert_eq!(c.read_fx_octets(4, AsterixError::FspecTooLong), Ok(vec![0x03, 0x01, 0x02]));
    assert_eq!(c.position(), 3);
    let mut c = Cursor::new(&data);
    assert_eq!(c.read_fx_octets(2, AsterixError::FspecTooLong), Err(AsterixError::FspecTooLong));
    let unterminated = [0x01u8, 0x01];
    let mut c = Cursor::new(&unterminated);
    assert_eq!(c.read_fx_octets(4, AsterixError::FspecTooLong), Err(AsterixError::UnexpectedEof));
}

#[test]
fn cursor_reads_byte_runs() {
    let data = [9u8, 8, 7];
    let mut c = Cursor::new(&data);
    assert_eq!(c.read_bytes(2), Ok(vec![9, 8]));
    assert_eq!(c.read_bytes(2), Err(AsterixError::UnexpectedEof));
    assert_eq!(c.read_bytes(1), Ok(vec![7]));
}

#[test]
fn cursor_read_i16_consumes_a_lone_last_octet() {
    let data = [0x7Fu8, 0x01, 0x02];
    let mut c = Cursor::new(&data);
    assert_eq!(c.read_u16_be(), Ok(0x7F01));
    assert_eq!(c.read_u16_be(), Err(AsterixError::UnexpectedEof));
    assert_eq!(c.position(), 2);
    assert_eq!(c.read_u24_be(), Err(AsterixError::UnexpectedEof));
    assert_eq!(c.position(), 2);
    assert_eq!(c.read_i16_be(), Err(AsterixError::UnexpectedEof));
    assert_eq!(c.position(), 3);
    assert_eq!(c.remaining(), 0);
    assert_eq!(c.read_u8(), Err(AsterixError::UnexpectedEof));
    assert_eq!(c.position(), 3);
}
