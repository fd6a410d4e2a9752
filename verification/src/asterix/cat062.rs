//! ASTERIX CAT062 (SDPS System Track Data): record and block decoding.
//!
//! Every item keeps its transmitted (raw) value; conversions to physical
//! units are left to the caller.
use vstd::prelude::*;
use crate::asterix::AsterixCategory;
use crate::asterix::cursor::{
    be16, be32, i32_of, i8_of, read_agrees, read_agrees_view, spec_fx_octets,
    spec_i16_be, spec_take, spec_u16_be, spec_u24_be, spec_u8, Cursor, ReadOutcome,
};
use crate::asterix::error::AsterixError;
pub use crate::asterix::ia5::{decode_callsign, encode_callsign};
use crate::asterix::ia5::decoded_callsign;
use crate::asterix::items::{announced, item_mask, read_fx_chain, spec_compound, spec_fx_chain};
use crate::asterix::cat062_items::{
    read_compound_i062_110, read_compound_i062_290, read_compound_i062_295,
    read_compound_i062_340, read_compound_i062_380, read_compound_i062_390,
    read_compound_i062_500, read_compound_i062_510, read_i24_be, spec_i062_380, spec_i062_510,
    spec_i24_be,
    table_i062_110, table_i062_340, table_i062_390, table_i062_500,
};

pub use crate::asterix::cat062_encode::{
    altitude_to_raw, encode_cat062_block, encode_cat062_record, icao_to_track_number,
    parse_icao_address, Cat062Record,
};

verus! {

/// CAT062 category octet.
pub const CAT062: u8 = 0x3E;

/// I062/010 - Data Source Identifier.
#[derive(Debug, Clone, Copy, PartialEq, Eq, Structural)]
pub struct DataSourceId {
    pub sac: u8,
    pub sic: u8,
}

/// I062/105 - Calculated Position in WGS-84, in units of 180/2^25 degrees.
#[derive(Debug, Clone, Copy, PartialEq, Eq, Structural)]
pub struct PositionWGS84 {
    pub latitude_raw: i32,
    pub longitude_raw: i32,
}

/// I062/100 - Calculated Position (Cartesian), in units of 0.5 m.
#[derive(Debug, Clone, Copy, PartialEq, Eq, Structural)]
pub struct PositionCartesian {
    pub x_raw: i32,
    pub y_raw: i32,
}

/// I062/185 - Calculated Track Velocity (Cartesian), in units of 0.25 m/s.
#[derive(Debug, Clone, Copy, PartialEq, Eq, Structural)]
pub struct VelocityCartesian {
    pub vx_raw: i16,
    pub vy_raw: i16,
}

/// I062/210 - Calculated Acceleration, in units of 0.25 m/s^2.
#[derive(Debug, Clone, Copy, PartialEq, Eq, Structural)]
pub struct Acceleration {
    pub ax_raw: i8,
    pub ay_raw: i8,
}

/// I062/060 - Track Mode 3/A Code.
#[derive(Debug, Clone, Copy, PartialEq, Eq, Structural)]
pub struct Mode3ACode {
    pub v: bool,
    pub g: bool,
    pub ch: bool,
    /// The 12-bit code, four octal digits of three bits.
    pub code_raw: u16,
}

/// The four octal digits of a 12-bit code written as a decimal number (0406 gives 406).
pub open spec fn squawk_of(code_raw: u16) -> u16 {
    let c = code_raw % 4096;
    ((c / 512) * 1000 + ((c / 64) % 8) * 100 + ((c / 8) % 8) * 10 + c % 8) as u16
}

impl Mode3ACode {
    pub fn squawk_octal(&self) -> (r: u16)
        ensures
            r == squawk_of(self.code_raw),
            crate::asterix::decode_laws::octal_digits(r as int),
            crate::asterix::decode_laws::octal_value(r as int) == self.code_raw % 4096,
    {
        proof {
            crate::asterix::decode_laws::lemma_squawk_is_octal(self.code_raw);
        }
        let c = self.code_raw & 0x0FFF;
        let a = (c >> 9) & 0x7;
        let b = (c >> 6) & 0x7;
        let d = (c >> 3) & 0x7;
        let e = c & 0x7;
        let ghost raw = self.code_raw;
        assert(c == raw % 4096 && a == c / 512 && b == (c / 64) % 8 && d == (c / 8) % 8 && e == c % 8)
            by (bit_vector)
            requires
                c == raw & 0x0FFF,
                a == (c >> 9) & 0x7,
                b == (c >> 6) & 0x7,
                d == (c >> 3) & 0x7,
                e == c & 0x7,
        ;
        a * 1000 + b * 100 + d * 10 + e
    }
}

/// I062/245 - Target Identification.
#[derive(Debug, Clone, PartialEq)]
pub struct TargetIdentification {
    /// Source of the identification (two bits).
    pub sti: u8,
    pub callsign: String,
}

/// The value of a target identification.
pub struct TargetIdentificationView {
    pub sti: u8,
    pub callsign: Seq<char>,
}

impl View for TargetIdentification {
    type V = TargetIdentificationView;

    open spec fn view(&self) -> TargetIdentificationView {
        TargetIdentificationView { sti: self.sti, callsign: self.callsign@ }
    }
}

/// I062/080 - Track Status: the raw octets and the flags of the first one.
#[derive(Debug, Clone, PartialEq)]
pub struct TrackStatus {
    pub octets: Vec<u8>,
    pub mon: bool,
    pub spi: bool,
    pub mrh: bool,
    pub src: u8,
    pub cnf: bool,
}

/// The value of a track status.
pub struct TrackStatusView {
    pub octets: Seq<u8>,
    pub mon: bool,
    pub spi: bool,
    pub mrh: bool,
    pub src: u8,
    pub cnf: bool,
}

impl View for TrackStatus {
    type V = TrackStatusView;

    open spec fn view(&self) -> TrackStatusView {
        TrackStatusView {
            octets: self.octets@,
            mon: self.mon,
            spi: self.spi,
            mrh: self.mrh,
            src: self.src,
            cnf: self.cnf,
        }
    }
}

/// I062/135 - Calculated Track Barometric Altitude.
#[derive(Debug, Clone, Copy, PartialEq, Eq, Structural)]
pub struct BarometricAltitude {
    /// QNH correction applied.
    pub qnh: bool,
    /// The 15 low bits of the item, in units of 1/4 flight level.
    pub altitude_raw: i16,
}

/// A decoded CAT062 record.
#[derive(Debug, Clone)]
pub struct Cat062 {
    pub category: AsterixCategory,
    /// The number of octets the record occupies.
    pub length: u16,
    pub fspec: Vec<u8>,
    /// I062/010
    pub data_source_id: Option<DataSourceId>,
    /// I062/015
    pub service_id: Option<u8>,
    /// I062/070, in units of 1/128 s since midnight.
    pub time_of_track: Option<u32>,
    /// I062/105
    pub position_wgs84: Option<PositionWGS84>,
    /// I062/100
    pub position_cartesian: Option<PositionCartesian>,
    /// I062/185
    pub velocity_cartesian: Option<VelocityCartesian>,
    /// I062/210
    pub acceleration: Option<Acceleration>,
    /// I062/060
    pub mode_3a: Option<Mode3ACode>,
    /// I062/245
    pub target_id: Option<TargetIdentification>,
    /// I062/380, raw octets: its indicator octets, then the octets of each
    /// present subfield, exactly as read.
    pub aircraft_derived_data: Option<Vec<u8>>,
    /// I062/040
    pub track_number: Option<u16>,
    /// I062/080
    pub track_status: Option<TrackStatus>,
    /// I062/290, raw octets.
    pub system_track_update_ages: Option<Vec<u8>>,
    /// I062/200
    pub mode_of_movement: Option<u8>,
    /// I062/295, raw octets.
    pub track_data_ages: Option<Vec<u8>>,
    /// I062/136, in units of 1/4 flight level.
    pub measured_flight_level: Option<i16>,
    /// I062/130, in units of 6.25 ft.
    pub geometric_altitude: Option<i16>,
    /// I062/135
    pub barometric_altitude: Option<BarometricAltitude>,
    /// I062/220, in units of 6.25 ft/min.
    pub rate_of_climb: Option<i16>,
    /// I062/390, raw octets.
    pub flight_plan_data: Option<Vec<u8>>,
    /// I062/270, raw octets.
    pub target_size: Option<Vec<u8>>,
    /// I062/300
    pub vehicle_fleet_id: Option<u8>,
    /// I062/110, raw octets.
    pub mode_5_data: Option<Vec<u8>>,
    /// I062/120
    pub mode_2_code: Option<u16>,
    /// I062/510, raw octets.
    pub composed_track_number: Option<Vec<u8>>,
    /// I062/500, raw octets.
    pub estimated_accuracies: Option<Vec<u8>>,
    /// I062/340, raw octets.
    pub measured_info: Option<Vec<u8>>,
}

/// The value of a decoded CAT062 record.
pub struct Cat062View {
    pub category: AsterixCategory,
    pub length: u16,
    pub fspec: Seq<u8>,
    pub data_source_id: Option<DataSourceId>,
    pub service_id: Option<u8>,
    pub time_of_track: Option<u32>,
    pub position_wgs84: Option<PositionWGS84>,
    pub position_cartesian: Option<PositionCartesian>,
    pub velocity_cartesian: Option<VelocityCartesian>,
    pub acceleration: Option<Acceleration>,
    pub mode_3a: Option<Mode3ACode>,
    pub target_id: Option<TargetIdentificationView>,
    pub aircraft_derived_data: Option<Seq<u8>>,
    pub track_number: Option<u16>,
    pub track_status: Option<TrackStatusView>,
    pub system_track_update_ages: Option<Seq<u8>>,
    pub mode_of_movement: Option<u8>,
    pub track_data_ages: Option<Seq<u8>>,
    pub measured_flight_level: Option<i16>,
    pub geometric_altitude: Option<i16>,
    pub barometric_altitude: Option<BarometricAltitude>,
    pub rate_of_climb: Option<i16>,
    pub flight_plan_data: Option<Seq<u8>>,
    pub target_size: Option<Seq<u8>>,
    pub vehicle_fleet_id: Option<u8>,
    pub mode_5_data: Option<Seq<u8>>,
    pub mode_2_code: Option<u16>,
    pub composed_track_number: Option<Seq<u8>>,
    pub estimated_accuracies: Option<Seq<u8>>,
    pub measured_info: Option<Seq<u8>>,
}

/// The view of an optional vector of octets.
pub open spec fn opt_bytes(o: Option<Vec<u8>>) -> Option<Seq<u8>> {
    match o {
        Some(v) => Some(v@),
        None => None,
    }
}

impl View for Cat062 {
    type V = Cat062View;

    open spec fn view(&self) -> Cat062View {
        Cat062View {
            category: self.category,
            length: self.length,
            fspec: self.fspec@,
            data_source_id: self.data_source_id,
            service_id: self.service_id,
            time_of_track: self.time_of_track,
            position_wgs84: self.position_wgs84,
            position_cartesian: self.position_cartesian,
            velocity_cartesian: self.velocity_cartesian,
            acceleration: self.acceleration,
            mode_3a: self.mode_3a,
            target_id: match self.target_id {
                Some(t) => Some(t@),
                None => None,
            },
            aircraft_derived_data: opt_bytes(self.aircraft_derived_data),
            track_number: self.track_number,
            track_status: match self.track_status {
                Some(t) => Some(t@),
                None => None,
            },
            system_track_update_ages: opt_bytes(self.system_track_update_ages),
            mode_of_movement: self.mode_of_movement,
            track_data_ages: opt_bytes(self.track_data_ages),
            measured_flight_level: self.measured_flight_level,
            geometric_altitude: self.geometric_altitude,
            barometric_altitude: self.barometric_altitude,
            rate_of_climb: self.rate_of_climb,
            flight_plan_data: opt_bytes(self.flight_plan_data),
            target_size: opt_bytes(self.target_size),
            vehicle_fleet_id: self.vehicle_fleet_id,
            mode_5_data: opt_bytes(self.mode_5_data),
            mode_2_code: self.mode_2_code,
            composed_track_number: opt_bytes(self.composed_track_number),
            estimated_accuracies: opt_bytes(self.estimated_accuracies),
            measured_info: opt_bytes(self.measured_info),
        }
    }
}

/// I062/010 at position `p`.
pub open spec fn spec_i062_010(s: Seq<u8>, p: int) -> ReadOutcome<DataSourceId> {
    match spec_take(s, p, 2) {
        Ok((b, q)) => Ok((DataSourceId { sac: b[0], sic: b[1] }, q)),
        Err(e) => Err(e),
    }
}

/// A big-endian signed 32-bit value at position `p`.
pub open spec fn spec_i32_be(s: Seq<u8>, p: int) -> ReadOutcome<i32> {
    match spec_take(s, p, 4) {
        Ok((b, q)) => Ok((i32_of(be32(b[0], b[1], b[2], b[3])), q)),
        Err(e) => Err(e),
    }
}

/// I062/105: latitude, then longitude, each a signed 32-bit value.
pub open spec fn spec_i062_105(s: Seq<u8>, p: int) -> ReadOutcome<PositionWGS84> {
    match spec_i32_be(s, p) {
        Err(e) => Err(e),
        Ok((lat, q)) => match spec_i32_be(s, q) {
            Err(e) => Err(e),
            Ok((lon, r)) => Ok((PositionWGS84 { latitude_raw: lat, longitude_raw: lon }, r)),
        },
    }
}

/// I062/100: X, then Y, each a signed 24-bit value.
pub open spec fn spec_i062_100(s: Seq<u8>, p: int) -> ReadOutcome<PositionCartesian> {
    match spec_i24_be(s, p) {
        Err(e) => Err(e),
        Ok((x, q)) => match spec_i24_be(s, q) {
            Err(e) => Err(e),
            Ok((y, r)) => Ok((PositionCartesian { x_raw: x, y_raw: y }, r)),
        },
    }
}

/// I062/185: Vx, then Vy, each a signed 16-bit value.
pub open spec fn spec_i062_185(s: Seq<u8>, p: int) -> ReadOutcome<VelocityCartesian> {
    match spec_i16_be(s, p) {
        Err(e) => Err(e),
        Ok((vx, q)) => match spec_i16_be(s, q) {
            Err(e) => Err(e),
            Ok((vy, r)) => Ok((VelocityCartesian { vx_raw: vx, vy_raw: vy }, r)),
        },
    }
}

/// I062/210: Ax, then Ay, each a signed octet.
pub open spec fn spec_i062_210(s: Seq<u8>, p: int) -> ReadOutcome<Acceleration> {
    match spec_take(s, p, 2) {
        Ok((b, q)) => Ok((Acceleration { ax_raw: i8_of(b[0]), ay_raw: i8_of(b[1]) }, q)),
        Err(e) => Err(e),
    }
}

/// The Mode 3/A code held by a 16-bit item value.
pub open spec fn mode3a_of(raw: u16) -> Mode3ACode {
    Mode3ACode {
        v: raw & 0x8000 != 0,
        g: raw & 0x4000 != 0,
        ch: raw & 0x2000 != 0,
        code_raw: raw & 0x0FFF,
    }
}

/// I062/060 at position `p`.
pub open spec fn spec_i062_060(s: Seq<u8>, p: int) -> ReadOutcome<Mode3ACode> {
    match spec_u16_be(s, p) {
        Ok((raw, q)) => Ok((mode3a_of(raw), q)),
        Err(e) => Err(e),
    }
}

/// I062/245: the STI octet, then six octets of IA-5 characters.
pub open spec fn spec_i062_245(s: Seq<u8>, p: int) -> ReadOutcome<TargetIdentificationView> {
    match spec_take(s, p, 7) {
        Ok((b, q)) => Ok(
            (
                TargetIdentificationView { sti: (b[0] >> 6) & 0x03, callsign: decoded_callsign(b.subrange(1, 7)) },
                q,
            ),
        ),
        Err(e) => Err(e),
    }
}

/// The track status held by the octets of I062/080.
pub open spec fn track_status_of(o: Seq<u8>) -> TrackStatusView {
    TrackStatusView {
        octets: o,
        mon: o[0] & 0x80 != 0,
        spi: o[0] & 0x40 != 0,
        mrh: o[0] & 0x20 != 0,
        src: (o[0] >> 2) & 0x07,
        cnf: o[0] & 0x02 != 0,
    }
}

/// I062/080 at position `p`.
pub open spec fn spec_i062_080(s: Seq<u8>, p: int) -> ReadOutcome<TrackStatusView> {
    match spec_fx_chain(s, p) {
        Ok((o, q)) => Ok((track_status_of(o), q)),
        Err(e) => Err(e),
    }
}

/// The barometric altitude held by a 16-bit item value.
pub open spec fn baro_of(raw: u16) -> BarometricAltitude {
    BarometricAltitude { qnh: raw & 0x8000 != 0, altitude_raw: (raw & 0x7FFF) as i16 }
}

/// I062/135 at position `p`.
pub open spec fn spec_i062_135(s: Seq<u8>, p: int) -> ReadOutcome<BarometricAltitude> {
    match spec_u16_be(s, p) {
        Ok((raw, q)) => Ok((baro_of(raw), q)),
        Err(e) => Err(e),
    }
}

/// A value read at `p` stored into record `r` by `set`.
pub open spec fn stored<T>(o: ReadOutcome<T>, set: spec_fn(T) -> Cat062View) -> ReadOutcome<Cat062View> {
    match o {
        Ok((v, q)) => Ok((set(v), q)),
        Err(e) => Err(e),
    }
}

/// Reading item number `k` (from 0; FRN `k + 1` of the CAT062 UAP) at `p`
/// into record `r`. FRN 2 is spare and holds no octet.
#[verifier::opaque]
pub open spec fn cat062_item(s: Seq<u8>, k: int, r: Cat062View, p: int) -> ReadOutcome<Cat062View> {
    if k == 0 {
        stored(spec_i062_010(s, p), |v| Cat062View { data_source_id: Some(v), ..r })
    } else if k == 1 {
        Ok((r, p))
    } else if k == 2 {
        stored(spec_u8(s, p), |v| Cat062View { service_id: Some(v), ..r })
    } else if k == 3 {
        stored(spec_u24_be(s, p), |v| Cat062View { time_of_track: Some(v), ..r })
    } else if k == 4 {
        stored(spec_i062_105(s, p), |v| Cat062View { position_wgs84: Some(v), ..r })
    } else if k == 5 {
        stored(spec_i062_100(s, p), |v| Cat062View { position_cartesian: Some(v), ..r })
    } else if k == 6 {
        stored(spec_i062_185(s, p), |v| Cat062View { velocity_cartesian: Some(v), ..r })
    } else if k == 7 {
        stored(spec_i062_210(s, p), |v| Cat062View { acceleration: Some(v), ..r })
    } else if k == 8 {
        stored(spec_i062_060(s, p), |v| Cat062View { mode_3a: Some(v), ..r })
    } else if k == 9 {
        stored(spec_i062_245(s, p), |v| Cat062View { target_id: Some(v), ..r })
    } else if k == 10 {
        stored(spec_i062_380(s, p), |v| Cat062View { aircraft_derived_data: Some(v), ..r })
    } else if k == 11 {
        stored(spec_u16_be(s, p), |v| Cat062View { track_number: Some(v), ..r })
    } else if k == 12 {
        stored(spec_i062_080(s, p), |v| Cat062View { track_status: Some(v), ..r })
    } else if k == 13 {
        stored(spec_compound(s, p, None), |v| Cat062View { system_track_update_ages: Some(v), ..r })
    } else if k == 14 {
        stored(spec_u8(s, p), |v| Cat062View { mode_of_movement: Some(v), ..r })
    } else if k == 15 {
        stored(spec_compound(s, p, None), |v| Cat062View { track_data_ages: Some(v), ..r })
    } else if k == 16 {
        stored(spec_i16_be(s, p), |v| Cat062View { measured_flight_level: Some(v), ..r })
    } else if k == 17 {
        stored(spec_i16_be(s, p), |v| Cat062View { geometric_altitude: Some(v), ..r })
    } else if k == 18 {
        stored(spec_i062_135(s, p), |v| Cat062View { barometric_altitude: Some(v), ..r })
    } else if k == 19 {
        stored(spec_i16_be(s, p), |v| Cat062View { rate_of_climb: Some(v), ..r })
    } else if k == 20 {
        stored(spec_compound(s, p, Some(table_i062_390())), |v| Cat062View { flight_plan_data: Some(v), ..r })
    } else if k == 21 {
        stored(spec_fx_chain(s, p), |v| Cat062View { target_size: Some(v), ..r })
    } else if k == 22 {
        stored(spec_u8(s, p), |v| Cat062View { vehicle_fleet_id: Some(v), ..r })
    } else if k == 23 {
        stored(spec_compound(s, p, Some(table_i062_110())), |v| Cat062View { mode_5_data: Some(v), ..r })
    } else if k == 24 {
        stored(spec_u16_be(s, p), |v| Cat062View { mode_2_code: Some(v), ..r })
    } else if k == 25 {
        stored(spec_i062_510(s, p), |v| Cat062View { composed_track_number: Some(v), ..r })
    } else if k == 26 {
        stored(spec_compound(s, p, Some(table_i062_500())), |v| Cat062View { estimated_accuracies: Some(v), ..r })
    } else {
        stored(spec_compound(s, p, Some(table_i062_340())), |v| Cat062View { measured_info: Some(v), ..r })
    }
}

/// The record after the items among the first `k` that `fspec` announces,
/// starting from `start`.
pub open spec fn cat062_items_upto(s: Seq<u8>, fspec: Seq<u8>, start: (Cat062View, int), k: int) -> ReadOutcome<Cat062View>
    decreases k,
{
    if k <= 0 {
        Ok(start)
    } else {
        match cat062_items_upto(s, fspec, start, k - 1) {
            Err(e) => Err(e),
            Ok((r, p)) => if announced(fspec, k - 1) {
                cat062_item(s, k - 1, r, p)
            } else {
                Ok((r, p))
            },
        }
    }
}

/// A record with the given FSPEC and no item.
pub open spec fn empty_cat062(fspec: Seq<u8>) -> Cat062View {
    Cat062View {
        category: AsterixCategory::Cat062,
        length: 0,
        fspec: fspec,
        data_source_id: None,
        service_id: None,
        time_of_track: None,
        position_wgs84: None,
        position_cartesian: None,
        velocity_cartesian: None,
        acceleration: None,
        mode_3a: None,
        target_id: None,
        aircraft_derived_data: None,
        track_number: None,
        track_status: None,
        system_track_update_ages: None,
        mode_of_movement: None,
        track_data_ages: None,
        measured_flight_level: None,
        geometric_altitude: None,
        barometric_altitude: None,
        rate_of_climb: None,
        flight_plan_data: None,
        target_size: None,
        vehicle_fleet_id: None,
        mode_5_data: None,
        mode_2_code: None,
        composed_track_number: None,
        estimated_accuracies: None,
        measured_info: None,
    }
}

/// One CAT062 record at the start of `s`: its FSPEC (at most 7 octets), then
/// the items it announces in UAP order (FRN 1 to 28); the record and the
/// number of octets it occupies.
pub open spec fn spec_parse_cat062_record(s: Seq<u8>) -> ReadOutcome<Cat062View> {
    match spec_fx_octets(s, 0, 7, AsterixError::FspecTooLong) {
        Err(e) => Err(e),
        Ok((fspec, p)) => match cat062_items_upto(s, fspec, (empty_cat062(fspec), p), 28) {
            Err(e) => Err(e),
            Ok((r, q)) => Ok((Cat062View { length: q as u16, ..r }, q)),
        },
    }
}

fn read_i062_010(cur: &mut Cursor) -> (res: Result<DataSourceId, AsterixError>)
    ensures
        final(cur).data() == old(cur).data(),
        read_agrees(res, spec_i062_010(old(cur).data(), old(cur).pos()), final(cur).pos()),
{
    let sac = cur.read_u8()?;
    let sic = cur.read_u8()?;
    Ok(DataSourceId { sac, sic })
}

fn read_i32_be(cur: &mut Cursor) -> (res: Result<i32, AsterixError>)
    ensures
        final(cur).data() == old(cur).data(),
        read_agrees(res, spec_i32_be(old(cur).data(), old(cur).pos()), final(cur).pos()),
{
    let hi = cur.read_i16_be()?;
    let lo = cur.read_u16_be()?;
    Ok(hi as i32 * 65536 + lo as i32)
}

fn read_i062_105(cur: &mut Cursor) -> (res: Result<PositionWGS84, AsterixError>)
    ensures
        final(cur).data() == old(cur).data(),
        read_agrees(res, spec_i062_105(old(cur).data(), old(cur).pos()), final(cur).pos()),
{
    let latitude_raw = read_i32_be(cur)?;
    let longitude_raw = read_i32_be(cur)?;
    Ok(PositionWGS84 { latitude_raw, longitude_raw })
}

fn read_i062_100(cur: &mut Cursor) -> (res: Result<PositionCartesian, AsterixError>)
    ensures
        final(cur).data() == old(cur).data(),
        read_agrees(res, spec_i062_100(old(cur).data(), old(cur).pos()), final(cur).pos()),
{
    let x_raw = read_i24_be(cur)?;
    let y_raw = read_i24_be(cur)?;
    Ok(PositionCartesian { x_raw, y_raw })
}

fn read_i062_185(cur: &mut Cursor) -> (res: Result<VelocityCartesian, AsterixError>)
    ensures
        final(cur).data() == old(cur).data(),
        read_agrees(res, spec_i062_185(old(cur).data(), old(cur).pos()), final(cur).pos()),
{
    let vx_raw = cur.read_i16_be()?;
    let vy_raw = cur.read_i16_be()?;
    Ok(VelocityCartesian { vx_raw, vy_raw })
}

fn i8_from_octet(u: u8) -> (r: i8)
    ensures
        r == i8_of(u),
{
    if u < 0x80 {
        u as i8
    } else {
        (u as i16 - 0x100) as i8
    }
}

fn read_i062_210(cur: &mut Cursor) -> (res: Result<Acceleration, AsterixError>)
    ensures
        final(cur).data() == old(cur).data(),
        read_agrees(res, spec_i062_210(old(cur).data(), old(cur).pos()), final(cur).pos()),
{
    let ax = cur.read_u8()?;
    let ay = cur.read_u8()?;
    Ok(Acceleration { ax_raw: i8_from_octet(ax), ay_raw: i8_from_octet(ay) })
}

fn read_i062_060(cur: &mut Cursor) -> (res: Result<Mode3ACode, AsterixError>)
    ensures
        final(cur).data() == old(cur).data(),
        read_agrees(res, spec_i062_060(old(cur).data(), old(cur).pos()), final(cur).pos()),
{
    let raw = cur.read_u16_be()?;
    Ok(
        Mode3ACode {
            v: (raw & 0x8000) != 0,
            g: (raw & 0x4000) != 0,
            ch: (raw & 0x2000) != 0,
            code_raw: raw & 0x0FFF,
        },
    )
}

fn read_i062_245(cur: &mut Cursor) -> (res: Result<TargetIdentification, AsterixError>)
    ensures
        final(cur).data() == old(cur).data(),
        read_agrees_view(res, spec_i062_245(old(cur).data(), old(cur).pos()), final(cur).pos()),
{
    let ghost s = cur.data();
    let ghost p = cur.pos();
    let sti_byte = cur.read_u8()?;
    let sti = (sti_byte >> 6) & 0x03;
    let b = cur.read_bytes(6)?;
    let callsign_bytes: [u8; 6] = [b[0], b[1], b[2], b[3], b[4], b[5]];
    assert(callsign_bytes@ =~= s.subrange(p + 1, p + 7));
    assert(s.subrange(p, p + 7).subrange(1, 7) =~= s.subrange(p + 1, p + 7));
    Ok(TargetIdentification { sti, callsign: decode_callsign(&callsign_bytes) })
}

fn read_i062_080(cur: &mut Cursor) -> (res: Result<TrackStatus, AsterixError>)
    ensures
        final(cur).data() == old(cur).data(),
        read_agrees_view(res, spec_i062_080(old(cur).data(), old(cur).pos()), final(cur).pos()),
{
    let octets = read_fx_chain(cur)?;
    let first = octets[0];
    Ok(
        TrackStatus {
            octets,
            mon: (first & 0x80) != 0,
            spi: (first & 0x40) != 0,
            mrh: (first & 0x20) != 0,
            src: (first >> 2) & 0x07,
            cnf: (first & 0x02) != 0,
        },
    )
}

fn read_i062_135(cur: &mut Cursor) -> (res: Result<BarometricAltitude, AsterixError>)
    ensures
        final(cur).data() == old(cur).data(),
        read_agrees(res, spec_i062_135(old(cur).data(), old(cur).pos()), final(cur).pos()),
{
    let raw = cur.read_u16_be()?;
    Ok(BarometricAltitude { qnh: (raw & 0x8000) != 0, altitude_raw: (raw & 0x7FFF) as i16 })
}

/// Read item number `k` (from 0) of the CAT062 UAP into `rec`.
#[verifier::rlimit(40)]
fn read_cat062_item(cur: &mut Cursor, k: usize, rec: &mut Cat062) -> (res: Result<(), AsterixError>)
    requires
        k < 28,
    ensures
        final(cur).data() == old(cur).data(),
        final(rec).fspec@ == old(rec).fspec@,
        match cat062_item(old(cur).data(), k as int, old(rec)@, old(cur).pos()) {
            Ok((r, q)) => res is Ok && final(rec)@ == r && final(cur).pos() == q,
            Err(e) => res == Err::<(), AsterixError>(e),
        },
{
    reveal(cat062_item);
    if k == 0 {
        rec.data_source_id = Some(read_i062_010(cur)?);
    } else if k == 1 {
    } else if k == 2 {
        rec.service_id = Some(cur.read_u8()?);
    } else if k == 3 {
        rec.time_of_track = Some(cur.read_u24_be()?);
    } else if k == 4 {
        rec.position_wgs84 = Some(read_i062_105(cur)?);
    } else if k == 5 {
        rec.position_cartesian = Some(read_i062_100(cur)?);
    } else if k == 6 {
        rec.velocity_cartesian = Some(read_i062_185(cur)?);
    } else if k == 7 {
        rec.acceleration = Some(read_i062_210(cur)?);
    } else if k == 8 {
        rec.mode_3a = Some(read_i062_060(cur)?);
    } else if k == 9 {
        rec.target_id = Some(read_i062_245(cur)?);
    } else if k == 10 {
        rec.aircraft_derived_data = Some(read_compound_i062_380(cur)?);
    } else if k == 11 {
        rec.track_number = Some(cur.read_u16_be()?);
    } else if k == 12 {
        rec.track_status = Some(read_i062_080(cur)?);
    } else if k == 13 {
        rec.system_track_update_ages = Some(read_compound_i062_290(cur)?);
    } else if k == 14 {
        rec.mode_of_movement = Some(cur.read_u8()?);
    } else if k == 15 {
        rec.track_data_ages = Some(read_compound_i062_295(cur)?);
    } else if k == 16 {
        rec.measured_flight_level = Some(cur.read_i16_be()?);
    } else if k == 17 {
        rec.geometric_altitude = Some(cur.read_i16_be()?);
    } else if k == 18 {
        rec.barometric_altitude = Some(read_i062_135(cur)?);
    } else if k == 19 {
        rec.rate_of_climb = Some(cur.read_i16_be()?);
    } else if k == 20 {
        rec.flight_plan_data = Some(read_compound_i062_390(cur)?);
    } else if k == 21 {
        rec.target_size = Some(read_fx_chain(cur)?);
    } else if k == 22 {
        rec.vehicle_fleet_id = Some(cur.read_u8()?);
    } else if k == 23 {
        rec.mode_5_data = Some(read_compound_i062_110(cur)?);
    } else if k == 24 {
        rec.mode_2_code = Some(cur.read_u16_be()?);
    } else if k == 25 {
        rec.composed_track_number = Some(read_compound_i062_510(cur)?);
    } else if k == 26 {
        rec.estimated_accuracies = Some(read_compound_i062_500(cur)?);
    } else {
        rec.measured_info = Some(read_compound_i062_340(cur)?);
    }
    Ok(())
}

proof fn lemma_cat062_items_err(s: Seq<u8>, fspec: Seq<u8>, start: (Cat062View, int), k: int, m: int)
    requires
        k <= m,
        cat062_items_upto(s, fspec, start, k) is Err,
    ensures
        cat062_items_upto(s, fspec, start, m) == cat062_items_upto(s, fspec, start, k),
    decreases m - k,
{
    if k < m {
        lemma_cat062_items_err(s, fspec, start, k, m - 1);
    }
}

/// Parse exactly one CAT062 record from the beginning of `input`; gives the
/// record and the number of octets it occupies.
pub fn parse_cat062_record(input: &[u8]) -> (res: Result<(Cat062, usize), AsterixError>)
    ensures
        match spec_parse_cat062_record(input@) {
            Ok((r, n)) => res matches Ok((rec, m)) && rec@ == r && m == n,
            Err(e) => res == Err::<(Cat062, usize), AsterixError>(e),
        },
        res matches Ok((rec, m)) ==> crate::asterix::decode_laws::cat062_fields_from(input@, rec@),
{
    proof {
        crate::asterix::decode_laws::lemma_cat062_record_fields(input@);
    }
    let mut cur = Cursor::new(input);
    let fspec = cur.read_fx_octets(7, AsterixError::FspecTooLong)?;
    let ghost p0 = cur.pos();
    let ghost fs = fspec@;
    let mut rec = Cat062 {
        category: AsterixCategory::Cat062,
        length: 0,
        fspec,
        data_source_id: None,
        service_id: None,
        time_of_track: None,
        position_wgs84: None,
        position_cartesian: None,
        velocity_cartesian: None,
        acceleration: None,
        mode_3a: None,
        target_id: None,
        aircraft_derived_data: None,
        track_number: None,
        track_status: None,
        system_track_update_ages: None,
        mode_of_movement: None,
        track_data_ages: None,
        measured_flight_level: None,
        geometric_altitude: None,
        barometric_altitude: None,
        rate_of_climb: None,
        flight_plan_data: None,
        target_size: None,
        vehicle_fleet_id: None,
        mode_5_data: None,
        mode_2_code: None,
        composed_track_number: None,
        estimated_accuracies: None,
        measured_info: None,
    };
    assert(rec@ == empty_cat062(fs));
    let mut k: usize = 0;
    while k < 28
        invariant
            0 <= k <= 28,
            cur.data() == input@,
            rec.fspec@ == fs,
            spec_fx_octets(input@, 0, 7, AsterixError::FspecTooLong) == Ok::<(Seq<u8>, int), AsterixError>((fs, p0)),
            cat062_items_upto(input@, fs, (empty_cat062(fs), p0), k as int) == Ok::<(Cat062View, int), AsterixError>(
                (rec@, cur.pos()),
            ),
        decreases 28 - k,
    {
        let j = k / 7;
        if j < rec.fspec.len() && rec.fspec[j] & item_mask(k % 7) != 0 {
            match read_cat062_item(&mut cur, k, &mut rec) {
                Ok(()) => {},
                Err(e) => {
                    proof {
                        lemma_cat062_items_err(input@, fs, (empty_cat062(fs), p0), k + 1, 28);
                    }
                    return Err(e);
                },
            }
        }
        k = k + 1;
    }
    let consumed = cur.position();
    rec.length = #[verifier::truncate] (consumed as u16);
    Ok((rec, consumed))
}

/// The records of a block payload `p`, one after the other until it is used up.
pub open spec fn spec_cat062_records(p: Seq<u8>) -> Result<Seq<Cat062View>, AsterixError>
    decreases p.len(),
{
    if p.len() == 0 {
        Ok(Seq::empty())
    } else {
        match spec_parse_cat062_record(p) {
            Err(e) => Err(e),
            Ok((r, n)) => if n > p.len() {
                Err(AsterixError::RecordOverrun)
            } else if n <= 0 {
                Err(AsterixError::NoProgress)
            } else {
                match spec_cat062_records(p.subrange(n, p.len() as int)) {
                    Ok(rs) => Ok(seq![r] + rs),
                    Err(e) => Err(e),
                }
            },
        }
    }
}

/// The length declared in the header of a data block.
pub open spec fn declared_len(msg: Seq<u8>) -> u16 {
    be16(msg[1], msg[2])
}

/// A CAT062 data block: the category octet 62, a two-octet length of at
/// least 3 and at most the size of `msg`, then records up to that length.
/// Octets past the declared length are ignored.
pub open spec fn spec_parse_cat062_block(msg: Seq<u8>) -> Result<Seq<Cat062View>, AsterixError> {
    if msg.len() < 3 {
        Err(AsterixError::BlockTooShort)
    } else if msg[0] != CAT062 {
        Err(AsterixError::WrongCategory(msg[0]))
    } else if declared_len(msg) < 3 {
        Err(AsterixError::InvalidLength(declared_len(msg)))
    } else if msg.len() < declared_len(msg) {
        Err(AsterixError::ShorterThanDeclared { declared: declared_len(msg), actual: msg.len() as usize })
    } else {
        spec_cat062_records(msg.subrange(3, declared_len(msg) as int))
    }
}

/// The views of a sequence of records.
pub open spec fn cat062_views(v: Seq<Cat062>) -> Seq<Cat062View> {
    v.map_values(|c: Cat062| c@)
}

/// `r` with `prefix` put in front of the records it yields.
pub open spec fn records_after(prefix: Seq<Cat062View>, r: Result<Seq<Cat062View>, AsterixError>) -> Result<Seq<Cat062View>, AsterixError> {
    match r {
        Ok(rs) => Ok(prefix + rs),
        Err(e) => Err(e),
    }
}

/// Parse a CAT062 data block (CAT, LEN, then one or more records).
pub fn parse_cat062_block(msg: &[u8]) -> (res: Result<Vec<Cat062>, AsterixError>)
    ensures
        match spec_parse_cat062_block(msg@) {
            Ok(rs) => res matches Ok(v) && cat062_views(v@) == rs,
            Err(e) => res == Err::<Vec<Cat062>, AsterixError>(e),
        },
        res matches Ok(v) ==> forall|i: int|
            0 <= i < v@.len() ==> crate::asterix::decode_laws::cat062_fields_from(msg@, #[trigger] cat062_views(v@)[i]),
{
    proof {
        crate::asterix::decode_laws::lemma_cat062_block_fields(msg@);
    }
    if msg.len() < 3 {
        return Err(AsterixError::BlockTooShort);
    }
    let cat = msg[0];
    if cat != CAT062 {
        return Err(AsterixError::WrongCategory(cat));
    }
    let declared16: u16 = (msg[1] as u16) * 256 + (msg[2] as u16);
    if declared16 < 3 {
        return Err(AsterixError::InvalidLength(declared16));
    }
    let declared = declared16 as usize;
    if msg.len() < declared {
        return Err(AsterixError::ShorterThanDeclared { declared: declared16, actual: msg.len() });
    }
    let mut payload = vstd::slice::slice_subrange(msg, 3, declared);
    let ghost body = payload@;
    let mut out: Vec<Cat062> = Vec::new();
    assert(cat062_views(out@) =~= Seq::<Cat062View>::empty());
    assert(records_after(Seq::empty(), spec_cat062_records(body)) == spec_cat062_records(body)) by {
        if let Ok(rs) = spec_cat062_records(body) {
            assert(Seq::<Cat062View>::empty() + rs =~= rs);
        }
    }
    assert(msg@.subrange(3, declared as int) == body);
    while payload.len() > 0
        invariant
            spec_parse_cat062_block(msg@) == spec_cat062_records(body),
            spec_cat062_records(body) == records_after(cat062_views(out@), spec_cat062_records(payload@)),
        decreases payload.len(),
    {
        let (rec, consumed) = parse_cat062_record(payload)?;
        if consumed > payload.len() {
            return Err(AsterixError::RecordOverrun);
        }
        if consumed == 0 {
            return Err(AsterixError::NoProgress);
        }
        let ghost rv = rec@;
        let ghost before = cat062_views(out@);
        let ghost rest = payload@.subrange(consumed as int, payload@.len() as int);
        out.push(rec);
        assert(cat062_views(out@) =~= before.push(rv));
        payload = vstd::slice::slice_subrange(payload, consumed, payload.len());
        assert(payload@ =~= rest);
        proof {
            if let Ok(rs) = spec_cat062_records(rest) {
                assert(before + (seq![rv] + rs) =~= before.push(rv) + rs);
            }
        }
    }
    Ok(out)
}

} // verus!
