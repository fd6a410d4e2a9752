use libasterix::asterix::cat062::{
    altitude_to_raw, decode_callsign, encode_callsign, encode_cat062_block, encode_cat062_record,
    icao_to_track_number, parse_cat062_block, parse_cat062_record, parse_icao_address,
    Cat062Record, DataSourceId, Mode3ACode, CAT062,
};
use libasterix::asterix::error::AsterixError;

const LAT_LSB: f64 = 180.0 / (1u32 << 25) as f64;

fn lat_raw(deg: f64) -> i32 {
    (deg / LAT_LSB) as i32
}

fn time_raw(seconds: f64) -> u32 {
    (seconds * 128.0) as u32
}

fn velocity_raw(v: f64) -> i16 {
    (v / 0.25) as i16
}

#[test]
fn test_altitude_to_raw() {
    // 35000 feet / 6.25 = 5600
    assert_eq!(altitude_to_raw(35000), 5600);
}

#[test]
fn test_encode_callsign() {
    let encoded = encode_callsign("BAW123");
    // Should be 6 bytes
    assert_eq!(encoded.len(), 6);
}

#[test]
fn test_icao_to_track_number() {
    let track = icao_to_track_number("ABC123");
    assert!(track <= 0x0FFF);
}

#[test]
fn test_encode_cat062_record() {
    let mut record = Cat062Record::new(0x01, 0x02);
    record.track_number = 123;
    record.time_of_day_raw = time_raw(43200.0); // Noon
    record.latitude_raw = lat_raw(51.5);
    record.longitude_raw = lat_raw(-0.1);
    record.altitude_ft = Some(35000);
    record.vx_raw = Some(velocity_raw(100.0));
    record.vy_raw = Some(velocity_raw(50.0));
    record.callsign = Some("TEST123".to_string());

    let bytes = encode_cat062_record(&record);

    // Check it starts with FSPEC
    assert!(!bytes.is_empty());
    // FSPEC1 should have FX set
    assert_eq!(bytes[0] & 0x01, 0x01);
}

#[test]
fn test_encode_cat062_block() {
    let record = Cat062Record::new(0x01, 0x02);
    let bytes = encode_cat062_block(&[record]);

    // Should start with CAT062 (0x3E)
    assert_eq!(bytes[0], CAT062);

    // Length should be at least header (3) + minimal record
    let len = ((bytes[1] as u16) << 8) | (bytes[2] as u16);
    assert!(len >= 3);
    assert_eq!(len as usize, bytes.len());
}

#[test]
fn test_decode_callsign() {
    // Test round-trip encoding/decoding
    let original = "TEST123";
    let encoded = encode_callsign(original);
    let decoded = decode_callsign(&encoded);
    assert_eq!(decoded, original);
}

#[test]
fn test_decode_callsign_padding() {
    // Short callsign should be padded and trimmed
    let original = "BA";
    let encoded = encode_callsign(original);
    let decoded = decode_callsign(&encoded);
    assert_eq!(decoded, original);
}

#[test]
fn test_encode_decode_roundtrip() {
    // Create a record, encode it, decode it, verify fields match
    let mut record = Cat062Record::new(0x01, 0x02);
    record.track_number = 123;
    record.time_of_day_raw = time_raw(43200.5);
    record.latitude_raw = lat_raw(51.5074);
    record.longitude_raw = lat_raw(-0.1278);

    let block = encode_cat062_block(&[record.clone()]);
    let decoded = parse_cat062_block(&block).expect("decode should succeed");

    assert_eq!(decoded.len(), 1);
    let dec = &decoded[0];

    assert_eq!(dec.data_source_id, Some(DataSourceId { sac: 0x01, sic: 0x02 }));
    assert_eq!(dec.track_number, Some(123));

    // Time should be close (encoding loses some precision)
    let time_sec = dec.time_of_track.unwrap() as f64 / 128.0;
    assert!((time_sec - 43200.5).abs() < 0.01);

    // Position should be close
    let pos = dec.position_wgs84.unwrap();
    assert!((pos.latitude_raw as f64 * LAT_LSB - 51.5074).abs() < 0.0001);
    assert!((pos.longitude_raw as f64 * LAT_LSB - (-0.1278)).abs() < 0.0001);
}

#[test]
fn encode_exact_octets() {
    let mut record = Cat062Record::new(0x01, 0x02);
    record.track_number = 0x1234;
    record.time_of_day_raw = 0x0102_0304;
    record.latitude_raw = 1;
    record.longitude_raw = -1;
    record.track_status = 0x03;
    let bytes = encode_cat062_record(&record);
    assert_eq!(
        bytes,
        vec![
            0x99, 0x0C, 0x01, 0x02, 0x02, 0x03, 0x04, 0x00, 0x00, 0x00, 0x01, 0xFF, 0xFF, 0xFF,
            0xFF, 0x02, 0x34, 0x02
        ]
    );
}

#[test]
fn encode_all_optional_items_and_decode_them() {
    let mut record = Cat062Record::new(25, 100);
    record.track_number = 4713;
    record.time_of_day_raw = 5865907;
    record.latitude_raw = 7_674_000;
    record.longitude_raw = -2_928_000;
    record.altitude_ft = Some(-1000);
    record.vx_raw = Some(915);
    record.vy_raw = Some(-189);
    record.icao_address = Some(0xABC123);
    record.callsign = Some("SWR123".to_string());
    record.track_status = 0x81;
    let block = encode_cat062_block(&[record.clone(), Cat062Record::new(1, 2)]);
    assert_eq!(block.len(), 3 + 32 + 18);
    let recs = parse_cat062_block(&block).unwrap();
    assert_eq!(recs.len(), 2);
    let r = &recs[0];
    assert_eq!(r.length, 32);
    assert_eq!(r.fspec, vec![0x9B, 0x2D, 0x10]);
    assert_eq!(r.time_of_track, Some(5865907));
    assert_eq!(r.position_wgs84.unwrap().latitude_raw, 7_674_000);
    assert_eq!(r.position_wgs84.unwrap().longitude_raw, -2_928_000);
    let v = r.velocity_cartesian.unwrap();
    assert_eq!((v.vx_raw, v.vy_raw), (915, -189));
    let tid = r.target_id.clone().unwrap();
    assert_eq!(tid.sti, 0);
    assert_eq!(tid.callsign, "SWR123");
    assert_eq!(r.track_number, Some(4713 & 0x0FFF));
    let ts = r.track_status.clone().unwrap();
    assert_eq!(ts.octets, vec![0x80]);
    assert!(ts.mon);
    assert!(!ts.cnf);
    assert_eq!(r.geometric_altitude, Some(-160));
    assert_eq!(recs[1].data_source_id, Some(DataSourceId { sac: 1, sic: 2 }));
    assert_eq!(recs[1].target_id, None);
}

#[test]
fn address_without_callsign_decodes_to_empty_callsign() {
    let mut record = Cat062Record::new(1, 1);
    record.icao_address = Some(0x123456);
    let block = encode_cat062_block(&[record]);
    let recs = parse_cat062_block(&block).unwrap();
    assert_eq!(recs[0].target_id.clone().unwrap().callsign, "");
}

#[test]
fn altitude_rounds_toward_zero_and_saturates() {
    assert_eq!(altitude_to_raw(7), 1);
    assert_eq!(altitude_to_raw(-7), -1);
    assert_eq!(altitude_to_raw(-35000), -5600);
    assert_eq!(altitude_to_raw(1_000_000), 32767);
    assert_eq!(altitude_to_raw(-1_000_000), -32768);
}

#[test]
fn callsign_is_cut_to_eight_characters() {
    let encoded = encode_callsign("ABCDEFGHIJ");
    assert_eq!(decode_callsign(&encoded), "ABCDEFGH");
    assert_eq!(encode_callsign(""), [0x82, 0x08, 0x20, 0x82, 0x08, 0x20]);
}

#[test]
fn icao_hex_parsing() {
    assert_eq!(parse_icao_address("ABC123"), Some(0xABC123));
    assert_eq!(parse_icao_address("+1f"), Some(0x1F));
    assert_eq!(parse_icao_address(""), None);
    assert_eq!(parse_icao_address("-1"), None);
    assert_eq!(parse_icao_address("XYZ"), None);
    assert_eq!(parse_icao_address("100000000"), None);
    assert_eq!(parse_icao_address("FFFFFF"), Some(0xFFFFFF));
    assert_eq!(parse_icao_address("1000000"), None);
    assert_eq!(parse_icao_address("FFFFFFFF"), None);
    assert_eq!(icao_to_track_number("FFFFFFFF"), 0);
    assert_eq!(icao_to_track_number("+FFFABC"), 0xABC);
    assert_eq!(icao_to_track_number("ABC123"), 0x123);
    assert_eq!(icao_to_track_number("nothex"), 0);
}

#[test]
fn squawk_digits_of_mode_3a() {
    let m = Mode3ACode { v: false, g: false, ch: false, code_raw: 701 };
    assert_eq!(m.squawk_octal(), 1275);
}

#[test]
fn block_errors() {
    assert_eq!(parse_cat062_block(&[0x3E, 0x00]).unwrap_err(), AsterixError::BlockTooShort);
    assert_eq!(parse_cat062_block(&[0x30, 0x00, 0x03]).unwrap_err(), AsterixError::WrongCategory(0x30));
    assert_eq!(parse_cat062_block(&[0x3E, 0x00, 0x02]).unwrap_err(), AsterixError::InvalidLength(2));
    assert_eq!(
        parse_cat062_block(&[0x3E, 0x00, 0x05, 0x00]).unwrap_err(),
        AsterixError::ShorterThanDeclared { declared: 5, actual: 4 }
    );
    assert_eq!(parse_cat062_block(&[0x3E, 0x00, 0x03]).unwrap().len(), 0);
    assert_eq!(parse_cat062_block(&[0x3E, 0x00, 0x05, 0x80, 0x01]).unwrap_err(), AsterixError::UnexpectedEof);
}

#[test]
fn octets_past_declared_length_are_ignored() {
    let block = [0x3E, 0x00, 0x06, 0x80, 0x19, 0x64, 0xFF, 0xFF];
    let recs = parse_cat062_block(&block).unwrap();
    assert_eq!(recs.len(), 1);
    assert_eq!(recs[0].data_source_id, Some(DataSourceId { sac: 25, sic: 100 }));
    assert_eq!(recs[0].length, 3);
}

#[test]
fn record_errors() {
    let long_fspec = [0x01u8, 0x01, 0x01, 0x01, 0x01, 0x01, 0x01, 0x00];
    assert_eq!(parse_cat062_record(&long_fspec).unwrap_err(), AsterixError::FspecTooLong);
    let mut chain = vec![0x01u8, 0x04];
    for _ in 0..17 {
        chain.push(0x01);
    }
    chain.push(0x00);
    assert_eq!(parse_cat062_record(&chain).unwrap_err(), AsterixError::FxChainTooLong);
    let mut ctn = vec![0x01u8, 0x01, 0x01, 0x08];
    for _ in 0..11 {
        ctn.extend_from_slice(&[0x00, 0x00, 0x01]);
    }
    assert_eq!(parse_cat062_record(&ctn).unwrap_err(), AsterixError::ComposedTrackNumberTooLong);
}

#[test]
fn compound_and_variable_items_are_kept_raw() {
    // FSPEC: FRN 11 (I062/380) and FRN 14 (I062/290); I062/380 announces SF1 (ADR, 3 octets)
    // and SF11 (SAB); I062/290 announces two one-octet subfields.
    let rec = [
        0x01u8, 0x12, // FSPEC
        0x81, 0x10, // I062/380 indicators: SF1, then SF11
        0xAA, 0xBB, 0xCC, // ADR
        0x05, 0x06, // SAB: FX chain 0x05 -> 0x06, then one more octet
        0x77, // SAB second part
        0x60, 0x11, 0x22, // I062/290: indicators announce two subfields
    ];
    let (r, n) = parse_cat062_record(&rec).unwrap();
    assert_eq!(n, rec.len());
    assert_eq!(r.aircraft_derived_data, Some(vec![0x81, 0x10, 0xAA, 0xBB, 0xCC, 0x05, 0x06, 0x77]));
    assert_eq!(r.system_track_update_ages, Some(vec![0x60, 0x11, 0x22]));
}

#[test]
fn fixed_items_of_the_uap() {
    let rec = [
        0xFF, 0xC1, 0x54, // FSPEC: FRN 1-7, 8, 9, 16, 18, 20
        0x19, 0x64, // 010
        0x07, // 015
        0x59, 0x81, 0xB3, // 070
        0x00, 0x10, 0x00, 0x00, 0xFF, 0xF0, 0x00, 0x00, // 105
        0xFF, 0xFF, 0xFE, 0x00, 0x00, 0x02, // 100
        0x03, 0x93, 0xFF, 0x43, // 185
        0xFE, 0x04, // 210
        0x82, 0xBD, // 060
        0x40, 0x01, // 295: one subfield
        0x16, 0xCD, // 130
        0xFF, 0x9C, // 220
    ];
    let (r, n) = parse_cat062_record(&rec).unwrap();
    assert_eq!(n, rec.len());
    assert_eq!(r.service_id, Some(7));
    assert_eq!(r.time_of_track, Some(5865907));
    assert_eq!(r.position_wgs84.unwrap().latitude_raw, 0x0010_0000);
    assert_eq!(r.position_wgs84.unwrap().longitude_raw, -0x0010_0000);
    assert_eq!(r.position_cartesian.unwrap().x_raw, -2);
    assert_eq!(r.position_cartesian.unwrap().y_raw, 2);
    assert_eq!(r.velocity_cartesian.unwrap().vx_raw, 915);
    assert_eq!(r.velocity_cartesian.unwrap().vy_raw, -189);
    assert_eq!(r.acceleration.unwrap().ax_raw, -2);
    assert_eq!(r.acceleration.unwrap().ay_raw, 4);
    let m = r.mode_3a.unwrap();
    assert!(m.v && !m.g && !m.ch);
    assert_eq!(m.code_raw, 701);
    assert_eq!(r.track_data_ages, Some(vec![0x40, 0x01]));
    assert_eq!(r.geometric_altitude, Some(5837));
    assert_eq!(r.rate_of_climb, Some(-100));
}

#[test]
fn cat062_records_cover_the_payload() {
    let mut a = Cat062Record::new(3, 4);
    a.callsign = Some("AB1".to_string());
    a.altitude_ft = Some(100);
    let b = Cat062Record::new(5, 6);
    let block = encode_cat062_block(&[a, b]);
    let recs = parse_cat062_block(&block).unwrap();
    let total: usize = recs.iter().map(|r| r.length as usize).sum();
    assert_eq!(total, block.len() - 3);
}

#[test]
fn callsign_keeps_its_first_eight_characters_trimmed() {
    assert_eq!(decode_callsign(&encode_callsign("ABCDEFGHIJ")), "ABCDEFGH");
    assert_eq!(decode_callsign(&encode_callsign("AB  ")), "AB");
    assert_eq!(decode_callsign(&encode_callsign("ABCDEFG  X")), "ABCDEFG");
    assert_eq!(decode_callsign(&[0xFF; 6]), "");
}

#[test]
fn aircraft_derived_data_sab_is_kept_in_input_order() {
    let mut c = libasterix::asterix::cursor::Cursor::new(&[0x01u8, 0x10, 0xA0, 0xB0]);
    let v = libasterix::asterix::cat062_items::read_compound_i062_380(&mut c).unwrap();
    assert_eq!(v, vec![0x01, 0x10, 0xA0, 0xB0]);
    assert_eq!(c.position(), 4);
}
