use libasterix::asterix::AsterixCategory;

#[test]
fn category_from_octet_and_back() {
    assert_eq!(AsterixCategory::from(0x30), AsterixCategory::Cat048);
    assert_eq!(AsterixCategory::from(0x3E), AsterixCategory::Cat062);
    assert_eq!(AsterixCategory::from(0x22), AsterixCategory::Unknown(0x22));
    for v in 0..=255u8 {
        assert_eq!(AsterixCategory::from(v).raw(), v);
    }
    assert_eq!(AsterixCategory::Cat048.raw(), 48);
    assert_eq!(AsterixCategory::Cat062.raw(), 62);
}
