//! ASTERIX CAT048 (Monoradar Target Reports): record and block decoding.
//!
//! Every item keeps its transmitted (raw) value; conversions to physical
//! units are left to the caller.
use vstd::prelude::*;
use crate::asterix::AsterixCategory;
use crate::asterix::cursor::{
    be16, fx_run, read_agrees, read_agrees_view, spec_fx_octets, spec_i16_be, spec_take,
    spec_u16_be, spec_u24_be, spec_u8, Cursor, ReadOutcome,
};
use crate::asterix::error::AsterixError;
use crate::asterix::ia5::{decode_callsign, decoded_callsign};
use crate::asterix::items::{announced, announced_len, item_mask, read_fx_chain, spec_fx_chain, subfields_len};
use crate::asterix::cat062::squawk_of;

verus! {

/// CAT048 category octet.
pub const CAT048: u8 = 0x30;

/// I048/010 - Data Source Identifier.
#[derive(Debug, Clone, Copy, PartialEq, Eq, Structural)]
pub struct DataSourceId {
    pub sac: u8,
    pub sic: u8,
}

/// I048/040 - Measured Position in Polar Coordinates: range in units of
/// 1/256 NM, bearing in units of 360/2^16 degrees.
#[derive(Debug, Clone, Copy, PartialEq, Eq, Structural)]
pub struct TrackPosition {
    pub range_raw: u16,
    pub bearing_raw: u16,
}

/// I048/070 - Mode-3/A Code.
#[derive(Debug, Clone, Copy, PartialEq, Eq, Structural)]
pub struct Mode3ACode {
    /// Not validated.
    pub v: bool,
    /// Garbled.
    pub g: bool,
    /// Smoothed or lost (edition-dependent naming).
    pub l: bool,
    /// The 12-bit code (0..0x0FFF).
    pub code_raw: u16,
}

impl Mode3ACode {
    /// The squawk as four octal digits written as a decimal number (0406 gives 406).
    pub fn squawk_digits(&self) -> (r: u16)
        ensures
            r == squawk_of(self.code_raw),
            crate::asterix::decode_laws::octal_digits(r as int),
            crate::asterix::decode_laws::octal_value(r as int) == self.code_raw % 4096,
    {
        proof {
            crate::asterix::decode_laws::lemma_squawk_is_octal(self.code_raw);
        }
        let c = self.code_raw & 0x0FFF;
        let a = (c >> 9) & 0x7;
        let b = (c >> 6) & 0x7;
        let d = (c >> 3) & 0x7;
        let e = c & 0x7;
        let ghost raw = self.code_raw;
        assert(c == raw % 4096 && a == c / 512 && b == (c / 64) % 8 && d == (c / 8) % 8 && e == c % 8)
            by (bit_vector)
            requires
                c == raw & 0x0FFF,
                a == (c >> 9) & 0x7,
                b == (c >> 6) & 0x7,
                d == (c >> 3) & 0x7,
                e == c & 0x7,
        ;
        a * 1000 + b * 100 + d * 10 + e
    }
}

/// I048/090 - Flight Level in Binary Representation.
#[derive(Debug, Clone, Copy, PartialEq, Eq, Structural)]
pub struct FlightLevel {
    pub v: bool,
    pub g: bool,
    /// Flight level in quarter units (FL * 4), a 14-bit signed value.
    pub fl_quarter: i16,
}

/// I048/130 - Radar Plot Characteristics.
#[derive(Debug, Clone, PartialEq, Eq)]
pub struct RadarPlotCharacteristics {
    /// The subfield FSPEC octets (FX chained).
    pub subfield_fspec: Vec<u8>,
    /// One octet per announced subfield, in order.
    pub subfields: Vec<u8>,
}

/// The value of radar plot characteristics.
pub struct RadarPlotCharacteristicsView {
    pub subfield_fspec: Seq<u8>,
    pub subfields: Seq<u8>,
}

impl View for RadarPlotCharacteristics {
    type V = RadarPlotCharacteristicsView;

    open spec fn view(&self) -> RadarPlotCharacteristicsView {
        RadarPlotCharacteristicsView { subfield_fspec: self.subfield_fspec@, subfields: self.subfields@ }
    }
}

/// One Mode S MB data block of I048/250.
#[derive(Debug, Clone, PartialEq, Eq)]
pub struct ModeSMbBlock {
    pub data: [u8; 8],
}

/// I048/250 - Mode S MB Data.
#[derive(Debug, Clone, PartialEq, Eq)]
pub struct ModeSMbData {
    pub blocks: Vec<ModeSMbBlock>,
}

impl View for ModeSMbData {
    type V = Seq<Seq<u8>>;

    open spec fn view(&self) -> Seq<Seq<u8>> {
        self.blocks@.map_values(|b: ModeSMbBlock| b.data@)
    }
}

/// I048/042 - Calculated Position in Cartesian Coordinates, in units of 1/128 NM.
#[derive(Debug, Clone, Copy, PartialEq, Eq, Structural)]
pub struct CartesianPosition {
    pub x_raw: i16,
    pub y_raw: i16,
}

/// I048/200 - Calculated Track Velocity in Polar Coordinates: ground speed
/// in units of 2^-14 NM/s, heading in units of 360/2^16 degrees.
#[derive(Debug, Clone, Copy, PartialEq, Eq, Structural)]
pub struct TrackVelocityPolar {
    pub ground_speed_raw: u16,
    pub heading_raw: u16,
}

/// I048/170 - Track Status, raw octets (FX chained).
#[derive(Debug, Clone, PartialEq, Eq)]
pub struct TrackStatus {
    pub octets: Vec<u8>,
}

impl View for TrackStatus {
    type V = Seq<u8>;

    open spec fn view(&self) -> Seq<u8> {
        self.octets@
    }
}

/// I048/210 - Track Quality: its four octets, and each one by name.
#[derive(Debug, Clone, PartialEq, Eq)]
pub struct TrackQuality {
    pub octets: [u8; 4],
    pub sigx_raw: u8,
    pub sigy_raw: u8,
    pub sigv_raw: u8,
    pub siga_raw: u8,
}

/// The value of a track quality.
pub struct TrackQualityView {
    pub octets: Seq<u8>,
    pub sigx_raw: u8,
    pub sigy_raw: u8,
    pub sigv_raw: u8,
    pub siga_raw: u8,
}

impl View for TrackQuality {
    type V = TrackQualityView;

    open spec fn view(&self) -> TrackQualityView {
        TrackQualityView {
            octets: self.octets@,
            sigx_raw: self.sigx_raw,
            sigy_raw: self.sigy_raw,
            sigv_raw: self.sigv_raw,
            siga_raw: self.siga_raw,
        }
    }
}

/// I048/030 - Warning/Error Conditions and Target Classification, raw octets (FX chained).
#[derive(Debug, Clone, PartialEq, Eq)]
pub struct WarningErrorConditions {
    pub octets: Vec<u8>,
}

impl View for WarningErrorConditions {
    type V = Seq<u8>;

    open spec fn view(&self) -> Seq<u8> {
        self.octets@
    }
}

/// I048/080 - Mode-3/A Code Confidence Indicator: the raw value and its
/// twelve quality flags (set means low quality).
#[derive(Debug, Clone, Copy, PartialEq, Eq, Structural)]
pub struct Mode3AConfidence {
    pub raw: u16,
    pub qa4: bool,
    pub qa2: bool,
    pub qa1: bool,
    pub qb4: bool,
    pub qb2: bool,
    pub qb1: bool,
    pub qc4: bool,
    pub qc2: bool,
    pub qc1: bool,
    pub qd4: bool,
    pub qd2: bool,
    pub qd1: bool,
}

/// A decoded CAT048 record.
#[derive(Debug, Clone)]
pub struct Cat048 {
    pub category: AsterixCategory,
    /// The number of octets the record occupies.
    pub length: u16,
    pub fspec: Vec<u8>,
    /// I048/010
    pub data_source_id: Option<DataSourceId>,
    /// I048/140, in units of 1/128 s since midnight.
    pub time_of_track: Option<u32>,
    /// I048/020, the three high bits of its first octet.
    pub track_type: Option<u8>,
    /// I048/040
    pub track_position: Option<TrackPosition>,
    /// I048/070
    pub mode_3a: Option<Mode3ACode>,
    /// I048/090
    pub flight_level: Option<FlightLevel>,
    /// I048/130
    pub radar_plot_characteristics: Option<RadarPlotCharacteristics>,
    /// I048/220
    pub aircraft_address: Option<u32>,
    /// I048/240
    pub aircraft_identification: Option<String>,
    /// I048/250
    pub mode_s_mb_data: Option<ModeSMbData>,
    /// I048/161
    pub track_number: Option<u16>,
    /// I048/042
    pub calculated_position: Option<CartesianPosition>,
    /// I048/200
    pub calculated_track_velocity: Option<TrackVelocityPolar>,
    /// I048/170
    pub track_status: Option<TrackStatus>,
    /// I048/210
    pub track_quality: Option<TrackQuality>,
    /// I048/030
    pub warning_error_conditions: Option<WarningErrorConditions>,
    /// I048/080
    pub mode_3a_confidence: Option<Mode3AConfidence>,
}

/// The value of a decoded CAT048 record.
pub struct Cat048View {
    pub category: AsterixCategory,
    pub length: u16,
    pub fspec: Seq<u8>,
    pub data_source_id: Option<DataSourceId>,
    pub time_of_track: Option<u32>,
    pub track_type: Option<u8>,
    pub track_position: Option<TrackPosition>,
    pub mode_3a: Option<Mode3ACode>,
    pub flight_level: Option<FlightLevel>,
    pub radar_plot_characteristics: Option<RadarPlotCharacteristicsView>,
    pub aircraft_address: Option<u32>,
    pub aircraft_identification: Option<Seq<char>>,
    pub mode_s_mb_data: Option<Seq<Seq<u8>>>,
    pub track_number: Option<u16>,
    pub calculated_position: Option<CartesianPosition>,
    pub calculated_track_velocity: Option<TrackVelocityPolar>,
    pub track_status: Option<Seq<u8>>,
    pub track_quality: Option<TrackQualityView>,
    pub warning_error_conditions: Option<Seq<u8>>,
    pub mode_3a_confidence: Option<Mode3AConfidence>,
}

/// The view of an optional value.
pub open spec fn opt_view<T: View>(o: Option<T>) -> Option<T::V> {
    match o {
        Some(v) => Some(v@),
        None => None,
    }
}

impl View for Cat048 {
    type V = Cat048View;

    open spec fn view(&self) -> Cat048View {
        Cat048View {
            category: self.category,
            length: self.length,
            fspec: self.fspec@,
            data_source_id: self.data_source_id,
            time_of_track: self.time_of_track,
            track_type: self.track_type,
            track_position: self.track_position,
            mode_3a: self.mode_3a,
            flight_level: self.flight_level,
            radar_plot_characteristics: opt_view(self.radar_plot_characteristics),
            aircraft_address: self.aircraft_address,
            aircraft_identification: opt_view(self.aircraft_identification),
            mode_s_mb_data: opt_view(self.mode_s_mb_data),
            track_number: self.track_number,
            calculated_position: self.calculated_position,
            calculated_track_velocity: self.calculated_track_velocity,
            track_status: opt_view(self.track_status),
            track_quality: opt_view(self.track_quality),
            warning_error_conditions: opt_view(self.warning_error_conditions),
            mode_3a_confidence: self.mode_3a_confidence,
        }
    }
}

/// I048/010 at position `p`.
pub open spec fn spec_i048_010(s: Seq<u8>, p: int) -> ReadOutcome<DataSourceId> {
    match spec_take(s, p, 2) {
        Ok((b, q)) => Ok((DataSourceId { sac: b[0], sic: b[1] }, q)),
        Err(e) => Err(e),
    }
}

/// I048/020: the three high bits of its first octet; its FX-chained
/// extension octets, however many, are passed over.
pub open spec fn spec_i048_020(s: Seq<u8>, p: int) -> ReadOutcome<u8> {
    let r = fx_run(s, p);
    if 0 <= p && p + r < s.len() {
        Ok((s[p] >> 5, p + r + 1))
    } else {
        Err(AsterixError::UnexpectedEof)
    }
}

/// I048/040: range, then bearing.
pub open spec fn spec_i048_040(s: Seq<u8>, p: int) -> ReadOutcome<TrackPosition> {
    match spec_take(s, p, 4) {
        Ok((b, q)) => Ok((TrackPosition { range_raw: be16(b[0], b[1]), bearing_raw: be16(b[2], b[3]) }, q)),
        Err(e) => Err(e),
    }
}

/// The Mode-3/A code held by a 16-bit item value.
pub open spec fn mode3a_of(raw: u16) -> Mode3ACode {
    Mode3ACode {
        v: raw & 0x8000 != 0,
        g: raw & 0x4000 != 0,
        l: raw & 0x2000 != 0,
        code_raw: raw & 0x0FFF,
    }
}

/// The flight level held by a 16-bit item value: V, G, and the 14 low bits
/// read as a two's complement value.
pub open spec fn flight_level_of(raw: u16) -> FlightLevel {
    let m = raw & 0x3FFF;
    FlightLevel {
        v: raw & 0x8000 != 0,
        g: raw & 0x4000 != 0,
        fl_quarter: if raw & 0x2000 != 0 {
            (m as int - 0x4000) as i16
        } else {
            m as i16
        },
    }
}

/// The twelve quality flags held by a 16-bit I048/080 value.
pub open spec fn confidence_of(raw: u16) -> Mode3AConfidence {
    Mode3AConfidence {
        raw,
        qa4: raw & 0x0800 != 0,
        qa2: raw & 0x0400 != 0,
        qa1: raw & 0x0200 != 0,
        qb4: raw & 0x0100 != 0,
        qb2: raw & 0x0080 != 0,
        qb1: raw & 0x0040 != 0,
        qc4: raw & 0x0020 != 0,
        qc2: raw & 0x0010 != 0,
        qc1: raw & 0x0008 != 0,
        qd4: raw & 0x0004 != 0,
        qd2: raw & 0x0002 != 0,
        qd1: raw & 0x0001 != 0,
    }
}

/// I048/130: the subfield FSPEC (at most 4 octets), then one octet per
/// subfield it announces.
pub open spec fn spec_i048_130(s: Seq<u8>, p: int) -> ReadOutcome<RadarPlotCharacteristicsView> {
    match spec_fx_octets(s, p, 4, AsterixError::SubfieldFspecTooLong) {
        Err(e) => Err(e),
        Ok((sf, q)) => match spec_take(s, q, subfields_len(sf, None, 7 * sf.len() as int)) {
            Err(e) => Err(e),
            Ok((v, r)) => Ok((RadarPlotCharacteristicsView { subfield_fspec: sf, subfields: v }, r)),
        },
    }
}

/// I048/240: six octets holding eight IA-5 characters.
pub open spec fn spec_i048_240(s: Seq<u8>, p: int) -> ReadOutcome<Seq<char>> {
    match spec_take(s, p, 6) {
        Ok((b, q)) => Ok((decoded_callsign(b), q)),
        Err(e) => Err(e),
    }
}

/// I048/250: a repetition count, then that many blocks of eight octets.
pub open spec fn spec_i048_250(s: Seq<u8>, p: int) -> ReadOutcome<Seq<Seq<u8>>> {
    match spec_u8(s, p) {
        Err(e) => Err(e),
        Ok((n, q)) => if q + 8 * n <= s.len() {
            Ok((Seq::new(n as nat, |i: int| s.subrange(q + 8 * i, q + 8 * i + 8)), q + 8 * n))
        } else {
            Err(AsterixError::UnexpectedEof)
        },
    }
}

/// I048/042: X, then Y, each a signed 16-bit value.
pub open spec fn spec_i048_042(s: Seq<u8>, p: int) -> ReadOutcome<CartesianPosition> {
    match spec_i16_be(s, p) {
        Err(e) => Err(e),
        Ok((x, q)) => match spec_i16_be(s, q) {
            Err(e) => Err(e),
            Ok((y, r)) => Ok((CartesianPosition { x_raw: x, y_raw: y }, r)),
        },
    }
}

/// I048/200: ground speed, then heading.
pub open spec fn spec_i048_200(s: Seq<u8>, p: int) -> ReadOutcome<TrackVelocityPolar> {
    match spec_take(s, p, 4) {
        Ok((b, q)) => Ok(
            (TrackVelocityPolar { ground_speed_raw: be16(b[0], b[1]), heading_raw: be16(b[2], b[3]) }, q),
        ),
        Err(e) => Err(e),
    }
}

/// I048/210: four octets.
pub open spec fn spec_i048_210(s: Seq<u8>, p: int) -> ReadOutcome<TrackQualityView> {
    match spec_take(s, p, 4) {
        Ok((b, q)) => Ok(
            (TrackQualityView { octets: b, sigx_raw: b[0], sigy_raw: b[1], sigv_raw: b[2], siga_raw: b[3] }, q),
        ),
        Err(e) => Err(e),
    }
}

/// A value read at `p` stored into a record by `set`.
pub open spec fn stored048<T>(o: ReadOutcome<T>, set: spec_fn(T) -> Cat048View) -> ReadOutcome<Cat048View> {
    match o {
        Ok((v, q)) => Ok((set(v), q)),
        Err(e) => Err(e),
    }
}

/// Reading item number `k` (from 0; FRN `k + 1` of the CAT048 UAP) at `p`
/// into record `r`. Only the first 17 items are read.
#[verifier::opaque]
pub open spec fn cat048_item(s: Seq<u8>, k: int, r: Cat048View, p: int) -> ReadOutcome<Cat048View> {
    if k == 0 {
        stored048(spec_i048_010(s, p), |v| Cat048View { data_source_id: Some(v), ..r })
    } else if k == 1 {
        stored048(spec_u24_be(s, p), |v| Cat048View { time_of_track: Some(v), ..r })
    } else if k == 2 {
        stored048(spec_i048_020(s, p), |v| Cat048View { track_type: Some(v), ..r })
    } else if k == 3 {
        stored048(spec_i048_040(s, p), |v| Cat048View { track_position: Some(v), ..r })
    } else if k == 4 {
        stored048(spec_u16_be(s, p), |v| Cat048View { mode_3a: Some(mode3a_of(v)), ..r })
    } else if k == 5 {
        stored048(spec_u16_be(s, p), |v| Cat048View { flight_level: Some(flight_level_of(v)), ..r })
    } else if k == 6 {
        stored048(spec_i048_130(s, p), |v| Cat048View { radar_plot_characteristics: Some(v), ..r })
    } else if k == 7 {
        stored048(spec_u24_be(s, p), |v| Cat048View { aircraft_address: Some(v), ..r })
    } else if k == 8 {
        stored048(spec_i048_240(s, p), |v| Cat048View { aircraft_identification: Some(v), ..r })
    } else if k == 9 {
        stored048(spec_i048_250(s, p), |v| Cat048View { mode_s_mb_data: Some(v), ..r })
    } else if k == 10 {
        stored048(spec_u16_be(s, p), |v| Cat048View { track_number: Some(v), ..r })
    } else if k == 11 {
        stored048(spec_i048_042(s, p), |v| Cat048View { calculated_position: Some(v), ..r })
    } else if k == 12 {
        stored048(spec_i048_200(s, p), |v| Cat048View { calculated_track_velocity: Some(v), ..r })
    } else if k == 13 {
        stored048(spec_fx_chain(s, p), |v| Cat048View { track_status: Some(v), ..r })
    } else if k == 14 {
        stored048(spec_i048_210(s, p), |v| Cat048View { track_quality: Some(v), ..r })
    } else if k == 15 {
        stored048(spec_fx_chain(s, p), |v| Cat048View { warning_error_conditions: Some(v), ..r })
    } else {
        stored048(spec_u16_be(s, p), |v| Cat048View { mode_3a_confidence: Some(confidence_of(v)), ..r })
    }
}

/// The record after the items among the first `k` that `fspec` announces.
pub open spec fn cat048_items_upto(s: Seq<u8>, fspec: Seq<u8>, start: (Cat048View, int), k: int) -> ReadOutcome<Cat048View>
    decreases k,
{
    if k <= 0 {
        Ok(start)
    } else {
        match cat048_items_upto(s, fspec, start, k - 1) {
            Err(e) => Err(e),
            Ok((r, p)) => if announced(fspec, k - 1) {
                cat048_item(s, k - 1, r, p)
            } else {
                Ok((r, p))
            },
        }
    }
}

/// A record with the given FSPEC and no item.
pub open spec fn empty_cat048(fspec: Seq<u8>) -> Cat048View {
    Cat048View {
        category: AsterixCategory::Cat048,
        length: 0,
        fspec: fspec,
        data_source_id: None,
        time_of_track: None,
        track_type: None,
        track_position: None,
        mode_3a: None,
        flight_level: None,
        radar_plot_characteristics: None,
        aircraft_address: None,
        aircraft_identification: None,
        mode_s_mb_data: None,
        track_number: None,
        calculated_position: None,
        calculated_track_velocity: None,
        track_status: None,
        track_quality: None,
        warning_error_conditions: None,
        mode_3a_confidence: None,
    }
}

/// One CAT048 record at the start of `s`: its FSPEC (at most 4 octets), then
/// the items it announces among FRN 1 to 17, in UAP order; a record longer
/// than 65535 octets is refused.
pub open spec fn spec_parse_cat048_record(s: Seq<u8>) -> ReadOutcome<Cat048View> {
    match spec_fx_octets(s, 0, 4, AsterixError::FspecTooLong) {
        Err(e) => Err(e),
        Ok((fspec, p)) => match cat048_items_upto(s, fspec, (empty_cat048(fspec), p), 17) {
            Err(e) => Err(e),
            Ok((r, q)) => if q > 0xFFFF {
                Err(AsterixError::RecordTooLong)
            } else {
                Ok((Cat048View { length: q as u16, ..r }, q))
            },
        },
    }
}

fn read_i048_010(cur: &mut Cursor) -> (res: Result<DataSourceId, AsterixError>)
    ensures
        final(cur).data() == old(cur).data(),
        read_agrees(res, spec_i048_010(old(cur).data(), old(cur).pos()), final(cur).pos()),
{
    let sac = cur.read_u8()?;
    let sic = cur.read_u8()?;
    Ok(DataSourceId { sac, sic })
}

fn read_i048_020(cur: &mut Cursor) -> (res: Result<u8, AsterixError>)
    ensures
        final(cur).data() == old(cur).data(),
        read_agrees(res, spec_i048_020(old(cur).data(), old(cur).pos()), final(cur).pos()),
{
    let ghost s = cur.data();
    let ghost start = cur.pos();
    let first = cur.read_u8()?;
    let mut octet = first;
    while octet & 0x01 != 0
        invariant
            cur.data() == s,
            s == old(cur).data(),
            start == old(cur).pos(),
            0 <= start < cur.pos() <= s.len(),
            first == s[start],
            octet == s[cur.pos() - 1],
            fx_run(s, start) == (cur.pos() - 1 - start) + fx_run(s, cur.pos() - 1),
        decreases s.len() - cur.pos(),
    {
        octet = cur.read_u8()?;
    }
    Ok(first >> 5)
}

fn read_i048_040(cur: &mut Cursor) -> (res: Result<TrackPosition, AsterixError>)
    ensures
        final(cur).data() == old(cur).data(),
        read_agrees(res, spec_i048_040(old(cur).data(), old(cur).pos()), final(cur).pos()),
{
    let range_raw = cur.read_u16_be()?;
    let bearing_raw = cur.read_u16_be()?;
    Ok(TrackPosition { range_raw, bearing_raw })
}

fn read_i048_070(cur: &mut Cursor) -> (res: Result<Mode3ACode, AsterixError>)
    ensures
        final(cur).data() == old(cur).data(),
        match spec_u16_be(old(cur).data(), old(cur).pos()) {
            Ok((raw, q)) => res == Ok::<Mode3ACode, AsterixError>(mode3a_of(raw)) && final(cur).pos() == q,
            Err(e) => res == Err::<Mode3ACode, AsterixError>(e),
        },
{
    let raw = cur.read_u16_be()?;
    Ok(
        Mode3ACode {
            v: (raw & 0x8000) != 0,
            g: (raw & 0x4000) != 0,
            l: (raw & 0x2000) != 0,
            code_raw: raw & 0x0FFF,
        },
    )
}

fn read_i048_090(cur: &mut Cursor) -> (res: Result<FlightLevel, AsterixError>)
    ensures
        final(cur).data() == old(cur).data(),
        match spec_u16_be(old(cur).data(), old(cur).pos()) {
            Ok((raw, q)) => res == Ok::<FlightLevel, AsterixError>(flight_level_of(raw)) && final(cur).pos() == q,
            Err(e) => res == Err::<FlightLevel, AsterixError>(e),
        },
{
    let raw = cur.read_u16_be()?;
    let v = (raw & 0x8000) != 0;
    let g = (raw & 0x4000) != 0;
    let m = raw & 0x3FFF;
    assert(m < 0x4000) by (bit_vector)
        requires
            m == raw & 0x3FFF,
    ;
    let fl_quarter: i16 = if (raw & 0x2000) != 0 {
        (m as i32 - 0x4000) as i16
    } else {
        m as i16
    };
    Ok(FlightLevel { v, g, fl_quarter })
}

fn read_i048_130(cur: &mut Cursor) -> (res: Result<RadarPlotCharacteristics, AsterixError>)
    ensures
        final(cur).data() == old(cur).data(),
        read_agrees_view(res, spec_i048_130(old(cur).data(), old(cur).pos()), final(cur).pos()),
{
    let subfield_fspec = cur.read_fx_octets(4, AsterixError::SubfieldFspecTooLong)?;
    let n = announced_len(&subfield_fspec, None);
    let subfields = cur.read_bytes(n)?;
    Ok(RadarPlotCharacteristics { subfield_fspec, subfields })
}

fn read_i048_240(cur: &mut Cursor) -> (res: Result<String, AsterixError>)
    ensures
        final(cur).data() == old(cur).data(),
        read_agrees_view(res, spec_i048_240(old(cur).data(), old(cur).pos()), final(cur).pos()),
{
    let b = cur.read_bytes(6)?;
    let id: [u8; 6] = [b[0], b[1], b[2], b[3], b[4], b[5]];
    assert(id@ =~= b@);
    Ok(decode_callsign(&id))
}

fn read_i048_250(cur: &mut Cursor) -> (res: Result<ModeSMbData, AsterixError>)
    ensures
        final(cur).data() == old(cur).data(),
        read_agrees_view(res, spec_i048_250(old(cur).data(), old(cur).pos()), final(cur).pos()),
{
    let ghost s = cur.data();
    let n = cur.read_u8()? as usize;
    let ghost q = cur.pos();
    let mut blocks: Vec<ModeSMbBlock> = Vec::new();
    let mut i: usize = 0;
    while i < n
        invariant
            cur.data() == s,
            s == old(cur).data(),
            q == old(cur).pos() + 1,
            spec_u8(s, old(cur).pos()) == Ok::<(u8, int), AsterixError>((n as u8, q)),
            n <= 255,
            0 <= i <= n,
            cur.pos() == q + 8 * i,
            cur.pos() <= s.len(),
            blocks@.len() == i,
            forall|j: int| 0 <= j < i ==> #[trigger] blocks@[j].data@ == s.subrange(q + 8 * j, q + 8 * j + 8),
        decreases n - i,
    {
        let b = match cur.read_bytes(8) {
            Ok(b) => b,
            Err(e) => {
                assert(q + 8 * n > s.len());
                return Err(e);
            },
        };
        let data: [u8; 8] = [b[0], b[1], b[2], b[3], b[4], b[5], b[6], b[7]];
        assert(data@ =~= b@);
        blocks.push(ModeSMbBlock { data });
        i = i + 1;
    }
    let r = ModeSMbData { blocks };
    assert(r@ =~= Seq::new(n as nat, |j: int| s.subrange(q + 8 * j, q + 8 * j + 8)));
    Ok(r)
}

fn read_i048_042(cur: &mut Cursor) -> (res: Result<CartesianPosition, AsterixError>)
    ensures
        final(cur).data() == old(cur).data(),
        read_agrees(res, spec_i048_042(old(cur).data(), old(cur).pos()), final(cur).pos()),
{
    let x_raw = cur.read_i16_be()?;
    let y_raw = cur.read_i16_be()?;
    Ok(CartesianPosition { x_raw, y_raw })
}

fn read_i048_200(cur: &mut Cursor) -> (res: Result<TrackVelocityPolar, AsterixError>)
    ensures
        final(cur).data() == old(cur).data(),
        read_agrees(res, spec_i048_200(old(cur).data(), old(cur).pos()), final(cur).pos()),
{
    let ground_speed_raw = cur.read_u16_be()?;
    let heading_raw = cur.read_u16_be()?;
    Ok(TrackVelocityPolar { ground_speed_raw, heading_raw })
}

fn read_i048_210(cur: &mut Cursor) -> (res: Result<TrackQuality, AsterixError>)
    ensures
        final(cur).data() == old(cur).data(),
        read_agrees_view(res, spec_i048_210(old(cur).data(), old(cur).pos()), final(cur).pos()),
{
    let b = cur.read_bytes(4)?;
    let o: [u8; 4] = [b[0], b[1], b[2], b[3]];
    assert(o@ =~= b@);
    Ok(TrackQuality { octets: o, sigx_raw: o[0], sigy_raw: o[1], sigv_raw: o[2], siga_raw: o[3] })
}

fn read_i048_080(cur: &mut Cursor) -> (res: Result<Mode3AConfidence, AsterixError>)
    ensures
        final(cur).data() == old(cur).data(),
        match spec_u16_be(old(cur).data(), old(cur).pos()) {
            Ok((raw, q)) => res == Ok::<Mode3AConfidence, AsterixError>(confidence_of(raw)) && final(cur).pos() == q,
            Err(e) => res == Err::<Mode3AConfidence, AsterixError>(e),
        },
{
    let raw = cur.read_u16_be()?;
    Ok(
        Mode3AConfidence {
            raw,
            qa4: (raw & 0x0800) != 0,
            qa2: (raw & 0x0400) != 0,
            qa1: (raw & 0x0200) != 0,
            qb4: (raw & 0x0100) != 0,
            qb2: (raw & 0x0080) != 0,
            qb1: (raw & 0x0040) != 0,
            qc4: (raw & 0x0020) != 0,
            qc2: (raw & 0x0010) != 0,
            qc1: (raw & 0x0008) != 0,
            qd4: (raw & 0x0004) != 0,
            qd2: (raw & 0x0002) != 0,
            qd1: (raw & 0x0001) != 0,
        },
    )
}

/// Read item number `k` (from 0) of the CAT048 UAP into `rec`.
#[verifier::rlimit(40)]
fn read_cat048_item(cur: &mut Cursor, k: usize, rec: &mut Cat048) -> (res: Result<(), AsterixError>)
    requires
        k < 17,
    ensures
        final(cur).data() == old(cur).data(),
        final(rec).fspec@ == old(rec).fspec@,
        match cat048_item(old(cur).data(), k as int, old(rec)@, old(cur).pos()) {
            Ok((r, q)) => res is Ok && final(rec)@ == r && final(cur).pos() == q,
            Err(e) => res == Err::<(), AsterixError>(e),
        },
{
    reveal(cat048_item);
    if k == 0 {
        rec.data_source_id = Some(read_i048_010(cur)?);
    } else if k == 1 {
        rec.time_of_track = Some(cur.read_u24_be()?);
    } else if k == 2 {
        rec.track_type = Some(read_i048_020(cur)?);
    } else if k == 3 {
        rec.track_position = Some(read_i048_040(cur)?);
    } else if k == 4 {
        rec.mode_3a = Some(read_i048_070(cur)?);
    } else if k == 5 {
        rec.flight_level = Some(read_i048_090(cur)?);
    } else if k == 6 {
        rec.radar_plot_characteristics = Some(read_i048_130(cur)?);
    } else if k == 7 {
        rec.aircraft_address = Some(cur.read_u24_be()?);
    } else if k == 8 {
        rec.aircraft_identification = Some(read_i048_240(cur)?);
    } else if k == 9 {
        rec.mode_s_mb_data = Some(read_i048_250(cur)?);
    } else if k == 10 {
        rec.track_number = Some(cur.read_u16_be()?);
    } else if k == 11 {
        rec.calculated_position = Some(read_i048_042(cur)?);
    } else if k == 12 {
        rec.calculated_track_velocity = Some(read_i048_200(cur)?);
    } else if k == 13 {
        rec.track_status = Some(TrackStatus { octets: read_fx_chain(cur)? });
    } else if k == 14 {
        rec.track_quality = Some(read_i048_210(cur)?);
    } else if k == 15 {
        rec.warning_error_conditions = Some(WarningErrorConditions { octets: read_fx_chain(cur)? });
    } else {
        rec.mode_3a_confidence = Some(read_i048_080(cur)?);
    }
    Ok(())
}

proof fn lemma_cat048_items_err(s: Seq<u8>, fspec: Seq<u8>, start: (Cat048View, int), k: int, m: int)
    requires
        k <= m,
        cat048_items_upto(s, fspec, start, k) is Err,
    ensures
        cat048_items_upto(s, fspec, start, m) == cat048_items_upto(s, fspec, start, k),
    decreases m - k,
{
    if k < m {
        lemma_cat048_items_err(s, fspec, start, k, m - 1);
    }
}

/// Parse exactly one CAT048 record from the beginning of `input`; gives the
/// record and the number of octets it occupies.
pub fn parse_cat048_record(input: &[u8]) -> (res: Result<(Cat048, usize), AsterixError>)
    ensures
        match spec_parse_cat048_record(input@) {
            Ok((r, n)) => res matches Ok((rec, m)) && rec@ == r && m == n,
            Err(e) => res == Err::<(Cat048, usize), AsterixError>(e),
        },
        res matches Ok((rec, m)) ==> crate::asterix::decode_laws::cat048_fields_from(input@, rec@),
{
    proof {
        crate::asterix::decode_laws::lemma_cat048_record_fields(input@);
    }
    let mut cur = Cursor::new(input);
    let fspec = cur.read_fx_octets(4, AsterixError::FspecTooLong)?;
    let ghost p0 = cur.pos();
    let ghost fs = fspec@;
    let mut rec = Cat048 {
        category: AsterixCategory::Cat048,
        length: 0,
        fspec,
        data_source_id: None,
        time_of_track: None,
        track_type: None,
        track_position: None,
        mode_3a: None,
        flight_level: None,
        radar_plot_characteristics: None,
        aircraft_address: None,
        aircraft_identification: None,
        mode_s_mb_data: None,
        track_number: None,
        calculated_position: None,
        calculated_track_velocity: None,
        track_status: None,
        track_quality: None,
        warning_error_conditions: None,
        mode_3a_confidence: None,
    };
    assert(rec@ == empty_cat048(fs));
    let mut k: usize = 0;
    while k < 17
        invariant
            0 <= k <= 17,
            cur.data() == input@,
            rec.fspec@ == fs,
            spec_fx_octets(input@, 0, 4, AsterixError::FspecTooLong) == Ok::<(Seq<u8>, int), AsterixError>((fs, p0)),
            cat048_items_upto(input@, fs, (empty_cat048(fs), p0), k as int) == Ok::<(Cat048View, int), AsterixError>(
                (rec@, cur.pos()),
            ),
        decreases 17 - k,
    {
        let j = k / 7;
        if j < rec.fspec.len() && rec.fspec[j] & item_mask(k % 7) != 0 {
            match read_cat048_item(&mut cur, k, &mut rec) {
                Ok(()) => {},
                Err(e) => {
                    proof {
                        lemma_cat048_items_err(input@, fs, (empty_cat048(fs), p0), k + 1, 17);
                    }
                    return Err(e);
                },
            }
        }
        k = k + 1;
    }
    let consumed = cur.position();
    if consumed > 0xFFFF {
        return Err(AsterixError::RecordTooLong);
    }
    rec.length = consumed as u16;
    Ok((rec, consumed))
}

/// The records of a block payload `p`, one after the other until it is used up.
pub open spec fn spec_cat048_records(p: Seq<u8>) -> Result<Seq<Cat048View>, AsterixError>
    decreases p.len(),
{
    if p.len() == 0 {
        Ok(Seq::empty())
    } else {
        match spec_parse_cat048_record(p) {
            Err(e) => Err(e),
            Ok((r, n)) => if n > p.len() {
                Err(AsterixError::RecordOverrun)
            } else if n <= 0 {
                Err(AsterixError::NoProgress)
            } else {
                match spec_cat048_records(p.subrange(n, p.len() as int)) {
                    Ok(rs) => Ok(seq![r] + rs),
                    Err(e) => Err(e),
                }
            },
        }
    }
}

/// A CAT048 data block: the category octet 48, a two-octet length of at
/// least 3 and at most the size of `msg`, then records up to that length.
/// Octets past the declared length are ignored.
pub open spec fn spec_parse_cat048_block(msg: Seq<u8>) -> Result<Seq<Cat048View>, AsterixError> {
    if msg.len() < 3 {
        Err(AsterixError::BlockTooShort)
    } else if msg[0] != CAT048 {
        Err(AsterixError::WrongCategory(msg[0]))
    } else if be16(msg[1], msg[2]) < 3 {
        Err(AsterixError::InvalidLength(be16(msg[1], msg[2])))
    } else if msg.len() < be16(msg[1], msg[2]) {
        Err(AsterixError::ShorterThanDeclared { declared: be16(msg[1], msg[2]), actual: msg.len() as usize })
    } else {
        spec_cat048_records(msg.subrange(3, be16(msg[1], msg[2]) as int))
    }
}

/// The views of a sequence of records.
pub open spec fn cat048_views(v: Seq<Cat048>) -> Seq<Cat048View> {
    v.map_values(|c: Cat048| c@)
}

/// `r` with `prefix` put in front of the records it yields.
pub open spec fn records048_after(prefix: Seq<Cat048View>, r: Result<Seq<Cat048View>, AsterixError>) -> Result<Seq<Cat048View>, AsterixError> {
    match r {
        Ok(rs) => Ok(prefix + rs),
        Err(e) => Err(e),
    }
}

/// Parse a CAT048 data block (CAT, LEN, then one or more records).
pub fn parse_cat048_block(msg: &[u8]) -> (res: Result<Vec<Cat048>, AsterixError>)
    ensures
        match spec_parse_cat048_block(msg@) {
            Ok(rs) => res matches Ok(v) && cat048_views(v@) == rs,
            Err(e) => res == Err::<Vec<Cat048>, AsterixError>(e),
        },
        res matches Ok(v) ==> forall|i: int|
            0 <= i < v@.len() ==> crate::asterix::decode_laws::cat048_fields_from(msg@, #[trigger] cat048_views(v@)[i]),
{
    proof {
        crate::asterix::decode_laws::lemma_cat048_block_fields(msg@);
    }
    if msg.len() < 3 {
        return Err(AsterixError::BlockTooShort);
    }
    let cat = msg[0];
    if cat != CAT048 {
        return Err(AsterixError::WrongCategory(cat));
    }
    let declared16: u16 = (msg[1] as u16) * 256 + (msg[2] as u16);
    if declared16 < 3 {
        return Err(AsterixError::InvalidLength(declared16));
    }
    let declared = declared16 as usize;
    if msg.len() < declared {
        return Err(AsterixError::ShorterThanDeclared { declared: declared16, actual: msg.len() });
    }
    let mut payload = vstd::slice::slice_subrange(msg, 3, declared);
    let ghost body = payload@;
    let mut out: Vec<Cat048> = Vec::new();
    assert(cat048_views(out@) =~= Seq::<Cat048View>::empty());
    assert(records048_after(Seq::empty(), spec_cat048_records(body)) == spec_cat048_records(body)) by {
        if let Ok(rs) = spec_cat048_records(body) {
            assert(Seq::<Cat048View>::empty() + rs =~= rs);
        }
    }
    assert(msg@.subrange(3, declared as int) == body);
    while payload.len() > 0
        invariant
            spec_parse_cat048_block(msg@) == spec_cat048_records(body),
            spec_cat048_records(body) == records048_after(cat048_views(out@), spec_cat048_records(payload@)),
        decreases payload.len(),
    {
        let (rec, consumed) = parse_cat048_record(payload)?;
        if consumed > payload.len() {
            return Err(AsterixError::RecordOverrun);
        }
        if consumed == 0 {
            return Err(AsterixError::NoProgress);
        }
        let ghost rv = rec@;
        let ghost before = cat048_views(out@);
        let ghost rest = payload@.subrange(consumed as int, payload@.len() as int);
        out.push(rec);
        assert(cat048_views(out@) =~= before.push(rv));
        payload = vstd::slice::slice_subrange(payload, consumed, payload.len());
        assert(payload@ =~= rest);
        proof {
            if let Ok(rs) = spec_cat048_records(rest) {
                assert(before + (seq![rv] + rs) =~= before.push(rv) + rs);
            }
        }
    }
    Ok(out)
}

/// Octets past the declared length of a block do not change what it decodes to.
pub proof fn lemma_cat048_trailing_octets_ignored(msg: Seq<u8>, extra: Seq<u8>)
    requires
        msg.len() >= 3,
        be16(msg[1], msg[2]) <= msg.len(),
    ensures
        spec_parse_cat048_block(msg + extra) == spec_parse_cat048_block(msg),
{
    let m2 = msg + extra;
    assert(m2[0] == msg[0] && m2[1] == msg[1] && m2[2] == msg[2]);
    let d = be16(msg[1], msg[2]);
    if d >= 3 {
        assert(m2.subrange(3, d as int) =~= msg.subrange(3, d as int));
    }
}

/// The sum of the lengths of decoded records.
pub open spec fn cat048_lengths(rs: Seq<Cat048View>) -> int
    decreases rs.len(),
{
    if rs.len() == 0 {
        0
    } else {
        rs[0].length + cat048_lengths(rs.drop_first())
    }
}

/// The records decoded from a block payload cover it exactly: their lengths
/// add up to the payload's length.
pub proof fn lemma_cat048_records_tile(p: Seq<u8>)
    requires
        p.len() <= 0xFFFF,
    ensures
        spec_cat048_records(p) matches Ok(rs) ==> cat048_lengths(rs) == p.len(),
    decreases p.len(),
{
    if p.len() > 0 {
        if let Ok((r, n)) = spec_parse_cat048_record(p) {
            if 0 < n <= p.len() {
                let rest = p.subrange(n, p.len() as int);
                lemma_cat048_records_tile(rest);
                if let Ok(rs) = spec_cat048_records(rest) {
                    let all = seq![r] + rs;
                    assert(all.drop_first() =~= rs);
                    assert(all[0] == r);
                }
            }
        }
    }
}

} // verus!
