//! ASTERIX CAT062 encoding: records holding transmitted (raw) values, and
//! data blocks of such records.
use vstd::prelude::*;
use crate::asterix::ia5::{callsign_codes, encode_callsign, pack_sixbits};
use crate::asterix::write_cursor::{be16_bytes, be24_bytes, be32_bytes, u16_of_i16, u32_of_i32, WriteCursor};
use crate::asterix::cat062::CAT062;

verus! {

/// The content of one CAT062 record to encode, in transmitted units.
#[derive(Debug, Clone)]
pub struct Cat062Record {
    /// I062/010 - Data Source Identifier (SAC/SIC)
    pub sac: u8,
    pub sic: u8,
    /// I062/040 - Track Number (12 bits are sent)
    pub track_number: u16,
    /// I062/070 - Time of Track Information, in units of 1/128 s since
    /// midnight UTC (24 bits are sent)
    pub time_of_day_raw: u32,
    /// I062/105 - Calculated Position in WGS-84, in units of 180/2^25 degrees
    pub latitude_raw: i32,
    pub longitude_raw: i32,
    /// I062/130 - Calculated Track Geometric Altitude (feet)
    pub altitude_ft: Option<i32>,
    /// I062/185 - Calculated Track Velocity (Cartesian), in units of 0.25 m/s
    pub vx_raw: Option<i16>,
    pub vy_raw: Option<i16>,
    /// I062/245 - Target Identification
    pub icao_address: Option<u32>,
    /// Up to 8 characters are sent.
    pub callsign: Option<String>,
    /// I062/080 - Track Status (first octet; its FX bit is cleared)
    pub track_status: u8,
}

/// The value of a record to encode.
pub struct Cat062RecordView {
    pub sac: u8,
    pub sic: u8,
    pub track_number: u16,
    pub time_of_day_raw: u32,
    pub latitude_raw: i32,
    pub longitude_raw: i32,
    pub altitude_ft: Option<i32>,
    pub vx_raw: Option<i16>,
    pub vy_raw: Option<i16>,
    pub icao_address: Option<u32>,
    pub callsign: Option<Seq<char>>,
    pub track_status: u8,
}

impl View for Cat062Record {
    type V = Cat062RecordView;

    open spec fn view(&self) -> Cat062RecordView {
        Cat062RecordView {
            sac: self.sac,
            sic: self.sic,
            track_number: self.track_number,
            time_of_day_raw: self.time_of_day_raw,
            latitude_raw: self.latitude_raw,
            longitude_raw: self.longitude_raw,
            altitude_ft: self.altitude_ft,
            vx_raw: self.vx_raw,
            vy_raw: self.vy_raw,
            icao_address: self.icao_address,
            callsign: match self.callsign {
                Some(c) => Some(c@),
                None => None,
            },
            track_status: self.track_status,
        }
    }
}

impl Cat062Record {
    /// A record from the given data source, with every other value zero or absent.
    pub fn new(sac: u8, sic: u8) -> (r: Self)
        ensures
            r@ == (Cat062RecordView {
                sac,
                sic,
                track_number: 0,
                time_of_day_raw: 0,
                latitude_raw: 0,
                longitude_raw: 0,
                altitude_ft: None,
                vx_raw: None,
                vy_raw: None,
                icao_address: None,
                callsign: None,
                track_status: 0,
            }),
    {
        Cat062Record {
            sac,
            sic,
            track_number: 0,
            time_of_day_raw: 0,
            latitude_raw: 0,
            longitude_raw: 0,
            altitude_ft: None,
            vx_raw: None,
            vy_raw: None,
            icao_address: None,
            callsign: None,
            track_status: 0,
        }
    }
}

/// `a / 25`, rounded toward zero.
pub open spec fn div25_toward_zero(a: int) -> int {
    if a >= 0 {
        a / 25
    } else {
        -((-a) / 25)
    }
}

/// An altitude in feet in units of 6.25 ft (I062/130): the quotient rounded
/// toward zero, saturated to the range of `i16`.
pub open spec fn altitude_raw_of(alt_ft: i32) -> i16 {
    let q = div25_toward_zero(4 * alt_ft);
    if q > 32767 {
        32767i16
    } else if q < -32768 {
        -32768i16
    } else {
        q as i16
    }
}

/// Convert an altitude in feet to CAT062 units of 6.25 ft.
pub fn altitude_to_raw(alt_ft: i32) -> (r: i16)
    ensures
        r == altitude_raw_of(alt_ft),
{
    let a: i64 = alt_ft as i64 * 4;
    let q: i64 = if a >= 0 {
        a / 25
    } else {
        -((-a) / 25)
    };
    if q > 32767 {
        32767
    } else if q < -32768 {
        -32768
    } else {
        q as i16
    }
}

pub open spec fn has_velocity(r: Cat062RecordView) -> bool {
    r.vx_raw is Some && r.vy_raw is Some
}

pub open spec fn has_target_id(r: Cat062RecordView) -> bool {
    r.icao_address is Some || r.callsign is Some
}

pub open spec fn has_altitude(r: Cat062RecordView) -> bool {
    r.altitude_ft is Some
}

/// FSPEC octet 1: I062/010 (0x80), I062/070 (0x10), I062/105 (0x08),
/// I062/185 (0x02) when both velocity components are given, and FX.
pub open spec fn fspec1_of(r: Cat062RecordView) -> u8 {
    if has_velocity(r) {
        0x9B
    } else {
        0x99
    }
}

/// FSPEC octet 2: I062/245 (0x20) when an address or a callsign is given,
/// I062/040 (0x08), I062/080 (0x04), and FX when an altitude is given.
pub open spec fn fspec2_of(r: Cat062RecordView) -> u8 {
    (0x0C + (if has_target_id(r) { 0x20int } else { 0 }) + (if has_altitude(r) { 1int } else { 0 })) as u8
}

/// The octets of one encoded record: the FSPEC (a third octet announcing
/// I062/130 when an altitude is given), then I062/010, 070, 105, 185, 245,
/// 040, 080 and 130, the optional ones only when given.
#[verifier::opaque]
pub open spec fn spec_encode_cat062_record(r: Cat062RecordView) -> Seq<u8> {
    seq![fspec1_of(r), fspec2_of(r)] + (if has_altitude(r) { seq![0x10u8] } else { Seq::empty() })
        + seq![r.sac, r.sic] + be24_bytes(r.time_of_day_raw & 0xFF_FFFF) + be32_bytes(
        u32_of_i32(r.latitude_raw),
    ) + be32_bytes(u32_of_i32(r.longitude_raw)) + (if has_velocity(r) {
        be16_bytes(u16_of_i16(r.vx_raw.unwrap())) + be16_bytes(u16_of_i16(r.vy_raw.unwrap()))
    } else {
        Seq::empty()
    }) + (if has_target_id(r) {
        seq![0u8] + pack_sixbits(
            callsign_codes(
                match r.callsign {
                    Some(c) => c,
                    None => Seq::empty(),
                },
            ),
        )
    } else {
        Seq::empty()
    }) + be16_bytes(r.track_number & 0x0FFF) + seq![r.track_status & 0xFE]
        + (if has_altitude(r) {
        be16_bytes(u16_of_i16(altitude_raw_of(r.altitude_ft.unwrap())))
    } else {
        Seq::empty()
    })
}

proof fn lemma_encoding_masks(t: u32)
    by (bit_vector)
    ensures
        (0x80u8 | 0x10u8 | 0x08u8 | 0x02u8 | 0x01u8) == 0x9Bu8,
        (0x80u8 | 0x10u8 | 0x08u8 | 0x01u8) == 0x99u8,
        (0x20u8 | 0x08u8 | 0x04u8 | 0x01u8) == 0x2Du8,
        (0x20u8 | 0x08u8 | 0x04u8) == 0x2Cu8,
        (0x08u8 | 0x04u8 | 0x01u8) == 0x0Du8,
        (0x08u8 | 0x04u8) == 0x0Cu8,
        (0u8 | 0x08u8 | 0x04u8) == 0x0Cu8,
        (0u8 | 0x08u8 | 0x04u8 | 0x01u8) == 0x0Du8,
        t & 0xFF_FFFFu32 < 0x100_0000u32,
{
}

/// Encode a single CAT062 record.
#[verifier::rlimit(50)]
pub fn encode_cat062_record(record: &Cat062Record) -> (v: Vec<u8>)
    ensures
        v@ == spec_encode_cat062_record(record@),
{
    proof {
        lemma_encoding_masks(record.time_of_day_raw);
    }
    let mut cursor = WriteCursor::new();
    let has_velocity = record.vx_raw.is_some() && record.vy_raw.is_some();
    let has_target_id = record.icao_address.is_some() || record.callsign.is_some();
    let has_altitude = record.altitude_ft.is_some();

    let mut fspec1: u8 = 0x80 | 0x10 | 0x08;
    if has_velocity {
        fspec1 = fspec1 | 0x02;
    }
    fspec1 = fspec1 | 0x01;

    let mut fspec2: u8 = if has_target_id {
        0x20
    } else {
        0
    };
    fspec2 = fspec2 | 0x08 | 0x04;
    if has_altitude {
        fspec2 = fspec2 | 0x01;
    }
    let fspec3: u8 = 0x10;
    assert(fspec1 == fspec1_of(record@));
    assert(fspec2 == fspec2_of(record@));

    cursor.write_u8(fspec1);
    cursor.write_u8(fspec2);
    if has_altitude {
        cursor.write_u8(fspec3);
    }
    // I062/010
    cursor.write_u8(record.sac);
    cursor.write_u8(record.sic);
    // I062/070
    cursor.write_u24_be(record.time_of_day_raw & 0xFF_FFFF);
    // I062/105
    cursor.write_i32_be(record.latitude_raw);
    cursor.write_i32_be(record.longitude_raw);
    // I062/185
    if has_velocity {
        cursor.write_i16_be(record.vx_raw.unwrap());
        cursor.write_i16_be(record.vy_raw.unwrap());
    }
    // I062/245: STI 00, then the callsign in IA-5
    if has_target_id {
        cursor.write_u8(0x00);
        let callsign_bytes = match &record.callsign {
            Some(cs) => encode_callsign(cs.as_str()),
            None => {
                proof {
                    reveal_strlit("");
                }
                encode_callsign("")
            },
        };
        cursor.write_bytes(callsign_bytes.as_slice());
    }
    // I062/040
    cursor.write_u16_be(record.track_number & 0x0FFF);
    // I062/080, FX cleared
    cursor.write_u8(record.track_status & 0xFE);
    // I062/130
    if let Some(alt_ft) = record.altitude_ft {
        cursor.write_i16_be(altitude_to_raw(alt_ft));
    }
    let out = cursor.into_inner();
    reveal(spec_encode_cat062_record);
    assert(out@ =~= spec_encode_cat062_record(record@));
    out
}

/// The octets of records encoded one after the other.
pub open spec fn spec_encode_records(rs: Seq<Cat062RecordView>) -> Seq<u8>
    decreases rs.len(),
{
    if rs.len() == 0 {
        Seq::empty()
    } else {
        spec_encode_records(rs.drop_last()) + spec_encode_cat062_record(rs.last())
    }
}

/// A data block: the category octet 62, the block length on two octets
/// (reduced modulo 2^16), then the encoded records.
pub open spec fn spec_encode_cat062_block(rs: Seq<Cat062RecordView>) -> Seq<u8> {
    let body = spec_encode_records(rs);
    seq![CAT062] + be16_bytes(((3 + body.len()) % 0x1_0000) as u16) + body
}

/// The views of a sequence of records to encode.
pub open spec fn record_views(rs: Seq<Cat062Record>) -> Seq<Cat062RecordView> {
    rs.map_values(|r: Cat062Record| r@)
}

/// Encode records into a CAT062 data block (CAT, LEN, records).
pub fn encode_cat062_block(records: &[Cat062Record]) -> (v: Vec<u8>)
    ensures
        v@ == spec_encode_cat062_block(record_views(records@)),
{
    let mut cursor = WriteCursor::with_capacity(1024);
    cursor.write_u8(CAT062);
    let len_pos = cursor.position();
    cursor.write_u16_be(0);
    let ghost views = record_views(records@);
    let mut i: usize = 0;
    while i < records.len()
        invariant
            0 <= i <= records@.len(),
            views == record_views(records@),
            cursor@ == seq![CAT062] + be16_bytes(0) + spec_encode_records(views.take(i as int)),
        decreases records.len() - i,
    {
        let record_bytes = encode_cat062_record(&records[i]);
        cursor.write_bytes(record_bytes.as_slice());
        assert(views.take(i + 1).drop_last() =~= views.take(i as int));
        i = i + 1;
    }
    assert(views.take(records.len() as int) =~= views);
    let ghost body = spec_encode_records(views);
    let total = cursor.position();
    let total_len = (total % 0x1_0000) as u16;
    assert(total_len == (3 + body.len()) % 0x1_0000);
    cursor.patch_u16_be(len_pos, total_len);
    let out = cursor.into_inner();
    assert(out@ =~= spec_encode_cat062_block(views));
    out
}

/// The value of a hexadecimal digit (either case).
pub open spec fn hex_digit_value(c: char) -> Option<int> {
    if '0' <= c && c <= '9' {
        Some(c as int - '0' as int)
    } else if 'a' <= c && c <= 'f' {
        Some(c as int - 'a' as int + 10)
    } else if 'A' <= c && c <= 'F' {
        Some(c as int - 'A' as int + 10)
    } else {
        None
    }
}

/// The value of a sequence of hexadecimal digits, most significant first;
/// `None` if a character is not a hexadecimal digit.
pub open spec fn hex_digits_value(s: Seq<char>) -> Option<int>
    decreases s.len(),
{
    if s.len() == 0 {
        Some(0)
    } else {
        match (hex_digits_value(s.drop_last()), hex_digit_value(s.last())) {
            (Some(v), Some(d)) => Some(v * 16 + d),
            _ => None,
        }
    }
}

/// A hexadecimal number as `u32::from_str_radix(s, 16)` reads it: an
/// optional `+`, then at least one hexadecimal digit and nothing else, with
/// a value that fits in 32 bits.
pub open spec fn spec_parse_hex_u32(s: Seq<char>) -> Option<u32> {
    let digits = if s.len() > 0 && s[0] == '+' {
        s.drop_first()
    } else {
        s
    };
    if digits.len() == 0 {
        None
    } else {
        match hex_digits_value(digits) {
            Some(v) => if v <= u32::MAX {
                Some(v as u32)
            } else {
                None
            },
            None => None,
        }
    }
}

/// `u32::from_str_radix(s, 16)`, its error dropped. Its documentation: an
/// optional `+` sign followed by digits of the radix only (any case); an
/// empty string, any other character, or a value beyond `u32::MAX` is an error.
#[verifier::external_body]
fn u32_from_hex(s: &str) -> (r: Option<u32>)
    ensures
        r == spec_parse_hex_u32(s@),
{
    u32::from_str_radix(s, 16).ok()
}

/// An ICAO 24-bit address written in hexadecimal: a hexadecimal number (as
/// `spec_parse_hex_u32` reads it) no greater than `0xFF_FFFF`.
pub open spec fn spec_parse_icao_address(s: Seq<char>) -> Option<u32> {
    match spec_parse_hex_u32(s) {
        Some(a) => if a <= 0xFF_FFFF {
            Some(a)
        } else {
            None
        },
        None => None,
    }
}

/// Parse an ICAO 24-bit address written in hexadecimal; `None` when the text
/// is not a hexadecimal number or its value does not fit in 24 bits.
pub fn parse_icao_address(icao24: &str) -> (r: Option<u32>)
    ensures
        r == spec_parse_icao_address(icao24@),
{
    match u32_from_hex(icao24) {
        Some(a) => if a <= 0xFF_FFFF {
            Some(a)
        } else {
            None
        },
        None => None,
    }
}

/// A 12-bit track number from an ICAO 24-bit address in hexadecimal: its
/// low 12 bits, or 0 when the text is not such an address.
pub fn icao_to_track_number(icao24: &str) -> (r: u16)
    ensures
        r == match spec_parse_icao_address(icao24@) {
            Some(a) => (a % 4096) as u16,
            None => 0u16,
        },
{
    let addr = match parse_icao_address(icao24) {
        Some(a) => a,
        None => 0,
    };
    (addr % 4096) as u16
}

} // verus!
