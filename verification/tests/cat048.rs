use libasterix::asterix::cat048::{parse_cat048_block, parse_cat048_record, DataSourceId, Mode3ACode};
use libasterix::asterix::error::AsterixError;
use libasterix::asterix::AsterixCategory;

const CAT048_SAMPLE_1: &[u8; 49] = &[
    0x30, 0x00, 0x31, 0xf7, 0x5f, 0x8f, 0x00, 0x00, 0x01, 0x67, 0x3c, 0x9f, 0x20, 0x0c, 0x93,
    0x53, 0xbb, 0x01, 0x06, 0x08, 0xa7, 0x50, 0x14, 0x87, 0x15, 0x4b, 0x72, 0x00, 0x02, 0x05,
    0x90, 0xfd, 0x13, 0x05, 0x2e, 0x80, 0x00, 0x20, 0x00, 0x00, 0x00, 0x00, 0x01, 0x06, 0x80,
    0x03, 0xbc, 0x00, 0x20,
];

#[test]
fn cat048_sample_first_record() {
    let recs = parse_cat048_block(CAT048_SAMPLE_1).unwrap();
    assert_eq!(recs.len(), 2);
    let r = &recs[0];
    assert_eq!(r.category, AsterixCategory::Cat048);
    assert_eq!(r.length, 39);
    assert_eq!(r.fspec, vec![0xF7, 0x5F, 0x8F, 0x00]);
    assert_eq!(r.data_source_id, Some(DataSourceId { sac: 0, sic: 1 }));
    assert_eq!(r.time_of_track, Some(0x673C9F));
    assert_eq!(r.track_type, Some(1));
    let pos = r.track_position.unwrap();
    assert_eq!((pos.range_raw, pos.bearing_raw), (3219, 21435));
    assert!((pos.range_raw as f64 / 256.0 - 12.574219).abs() < 1e-6);
    assert!((pos.bearing_raw as f64 * 360.0 / 65536.0 - 117.7459716).abs() < 1e-6);
    assert!(r.mode_3a.is_none());
    let fl = r.flight_level.unwrap();
    assert!(!fl.v && !fl.g);
    assert_eq!(fl.fl_quarter, 262);
    let rpc = r.radar_plot_characteristics.clone().unwrap();
    assert_eq!(rpc.subfield_fspec, vec![0x08]);
    assert_eq!(rpc.subfields, vec![0xA7]);
    assert!(r.aircraft_address.is_none());
    assert_eq!(r.aircraft_identification.as_deref(), Some("TARGET 2"));
    assert!(r.mode_s_mb_data.is_none());
    assert_eq!(r.track_number, Some(2));
    let cp = r.calculated_position.unwrap();
    assert_eq!(cp.x_raw as f32 / 128.0, 11.125);
    assert_eq!(cp.y_raw as f32 / 128.0, -5.8515625);
    let v = r.calculated_track_velocity.unwrap();
    assert_eq!(v.heading_raw as f32 * 360.0 / 65536.0, 180.0);
    assert_eq!(v.ground_speed_raw as f32 / 16384.0, 0.08093262);
    assert_eq!(r.track_status.clone().unwrap().octets, vec![0x20]);
    let q = r.track_quality.clone().unwrap();
    assert_eq!(q.octets, [0, 0, 0, 0]);
    assert!(r.warning_error_conditions.is_none());
    assert!(r.mode_3a_confidence.is_none());
}

#[test]
fn cat048_sample_second_record() {
    let recs = parse_cat048_block(CAT048_SAMPLE_1).unwrap();
    let r = &recs[1];
    assert_eq!(r.length, 7);
    assert_eq!(r.fspec, vec![0x01, 0x06]);
    let v = r.calculated_track_velocity.unwrap();
    assert_eq!((v.ground_speed_raw, v.heading_raw), (0x8003, 0xBC00));
    assert_eq!(r.track_status.clone().unwrap().octets, vec![0x20]);
    assert!(r.data_source_id.is_none());
}

#[test]
fn cat048_items_of_the_second_fspec_octets() {
    let rec = [
        0x0D, 0xA1, 0x60, // FSPEC: 070, 090, then 220, 250, then 030, 080
        0xA2, 0xBD, // 070
        0x3F, 0xF8, // 090: negative flight level
        0x12, 0x34, 0x56, // 220
        0x01, 1, 2, 3, 4, 5, 6, 7, 8, // 250: one block
        0x03, 0x02, // 030: two octets
        0x0A, 0x81, // 080
    ];
    let (r, n) = parse_cat048_record(&rec).unwrap();
    assert_eq!(n, rec.len());
    assert_eq!(r.mode_3a, Some(Mode3ACode { v: true, g: false, l: true, code_raw: 0x2BD }));
    assert_eq!(r.mode_3a.unwrap().squawk_digits(), 1275);
    let fl = r.flight_level.unwrap();
    assert_eq!(fl.fl_quarter, -8);
    assert_eq!(r.aircraft_address, Some(0x123456));
    let mb = r.mode_s_mb_data.clone().unwrap();
    assert_eq!(mb.blocks.len(), 1);
    assert_eq!(mb.blocks[0].data, [1, 2, 3, 4, 5, 6, 7, 8]);
    assert_eq!(r.warning_error_conditions.clone().unwrap().octets, vec![0x03, 0x02]);
    let c = r.mode_3a_confidence.unwrap();
    assert_eq!(c.raw, 0x0A81);
    assert!(c.qa4 && !c.qa2 && c.qa1);
    assert!(c.qb2 && !c.qb1);
    assert!(c.qd1 && !c.qd2);
}

#[test]
fn cat048_track_type_skips_extensions() {
    let rec = [0x20u8, 0xE1, 0x01, 0x00];
    let (r, n) = parse_cat048_record(&rec).unwrap();
    assert_eq!(n, 4);
    assert_eq!(r.track_type, Some(7));
}

#[test]
fn cat048_errors() {
    assert_eq!(parse_cat048_block(&[0x30, 0x00]).unwrap_err(), AsterixError::BlockTooShort);
    assert_eq!(parse_cat048_block(&[0x3E, 0x00, 0x03]).unwrap_err(), AsterixError::WrongCategory(0x3E));
    assert_eq!(parse_cat048_block(&[0x30, 0x00, 0x00]).unwrap_err(), AsterixError::InvalidLength(0));
    assert_eq!(
        parse_cat048_block(&[0x30, 0x00, 0x10]).unwrap_err(),
        AsterixError::ShorterThanDeclared { declared: 16, actual: 3 }
    );
    assert_eq!(parse_cat048_record(&[0x01, 0x01, 0x01, 0x01, 0x00]).unwrap_err(), AsterixError::FspecTooLong);
    assert_eq!(
        parse_cat048_record(&[0x02, 0x01, 0x01, 0x01, 0x01, 0x00]).unwrap_err(),
        AsterixError::SubfieldFspecTooLong
    );
    assert_eq!(parse_cat048_record(&[0x80, 0x01]).unwrap_err(), AsterixError::UnexpectedEof);
    assert_eq!(parse_cat048_record(&[]).unwrap_err(), AsterixError::UnexpectedEof);
}

#[test]
fn cat048_records_cover_the_payload() {
    let recs = parse_cat048_block(CAT048_SAMPLE_1).unwrap();
    let total: usize = recs.iter().map(|r| r.length as usize).sum();
    assert_eq!(total, CAT048_SAMPLE_1.len() - 3);
}

#[test]
fn cat048_octets_past_declared_length_are_ignored() {
    let mut longer = CAT048_SAMPLE_1.to_vec();
    longer.extend_from_slice(&[0xFF, 0x00, 0x13]);
    let a = parse_cat048_block(CAT048_SAMPLE_1).unwrap();
    let b = parse_cat048_block(&longer).unwrap();
    assert_eq!(a.len(), b.len());
    for (x, y) in a.iter().zip(b.iter()) {
        assert_eq!(x.length, y.length);
        assert_eq!(x.fspec, y.fspec);
        assert_eq!(x.aircraft_identification, y.aircraft_identification);
    }
}
