//! What decoding gives back of an encoded CAT062 block.
use vstd::prelude::*;
use crate::asterix::AsterixCategory;
use crate::asterix::cursor::{fx_run, i16_of, spec_fx_octets, spec_i16_be, spec_u16_be, spec_u24_be};
use crate::asterix::error::AsterixError;
use crate::asterix::ia5::{callsign_codes, decoded_callsign, is_ia5_char, lemma_callsign_roundtrip, pack_sixbits};
use crate::asterix::items::{announced, spec_fx_chain};
use crate::asterix::write_cursor::{be16_bytes, be24_bytes, be32_bytes, u16_of_i16, u32_of_i32};
use crate::asterix::cat062::{
    cat062_item, cat062_items_upto, empty_cat062, spec_cat062_records, spec_i062_010,
    spec_i062_080, spec_i062_105, spec_i062_185, spec_i062_245, spec_i32_be,
    spec_parse_cat062_block, spec_parse_cat062_record, declared_len, track_status_of, Cat062View, TrackStatusView,
    DataSourceId, PositionWGS84, TargetIdentificationView, VelocityCartesian, CAT062,
};
use crate::asterix::cat062_encode::{
    altitude_raw_of, fspec1_of, fspec2_of, has_altitude, has_target_id, has_velocity,
    spec_encode_cat062_block, spec_encode_cat062_record, spec_encode_records, Cat062RecordView,
};

verus! {

proof fn lemma_fspec_bits()
    by (bit_vector)
    ensures
        0x99u8 & 0x80u8 == 0x80u8,
        0x99u8 & 0x40u8 == 0x00u8,
        0x99u8 & 0x20u8 == 0x00u8,
        0x99u8 & 0x10u8 == 0x10u8,
        0x99u8 & 0x08u8 == 0x08u8,
        0x99u8 & 0x04u8 == 0x00u8,
        0x99u8 & 0x02u8 == 0x00u8,
        0x99u8 & 0x01u8 == 0x01u8,
        0x9Bu8 & 0x80u8 == 0x80u8,
        0x9Bu8 & 0x40u8 == 0x00u8,
        0x9Bu8 & 0x20u8 == 0x00u8,
        0x9Bu8 & 0x10u8 == 0x10u8,
        0x9Bu8 & 0x08u8 == 0x08u8,
        0x9Bu8 & 0x04u8 == 0x00u8,
        0x9Bu8 & 0x02u8 == 0x02u8,
        0x9Bu8 & 0x01u8 == 0x01u8,
        0x0Cu8 & 0x80u8 == 0x00u8,
        0x0Cu8 & 0x40u8 == 0x00u8,
        0x0Cu8 & 0x20u8 == 0x00u8,
        0x0Cu8 & 0x10u8 == 0x00u8,
        0x0Cu8 & 0x08u8 == 0x08u8,
        0x0Cu8 & 0x04u8 == 0x04u8,
        0x0Cu8 & 0x02u8 == 0x00u8,
        0x0Cu8 & 0x01u8 == 0x00u8,
        0x0Du8 & 0x80u8 == 0x00u8,
        0x0Du8 & 0x40u8 == 0x00u8,
        0x0Du8 & 0x20u8 == 0x00u8,
        0x0Du8 & 0x10u8 == 0x00u8,
        0x0Du8 & 0x08u8 == 0x08u8,
        0x0Du8 & 0x04u8 == 0x04u8,
        0x0Du8 & 0x02u8 == 0x00u8,
        0x0Du8 & 0x01u8 == 0x01u8,
        0x2Cu8 & 0x80u8 == 0x00u8,
        0x2Cu8 & 0x40u8 == 0x00u8,
        0x2Cu8 & 0x20u8 == 0x20u8,
        0x2Cu8 & 0x10u8 == 0x00u8,
        0x2Cu8 & 0x08u8 == 0x08u8,
        0x2Cu8 & 0x04u8 == 0x04u8,
        0x2Cu8 & 0x02u8 == 0x00u8,
        0x2Cu8 & 0x01u8 == 0x00u8,
        0x2Du8 & 0x80u8 == 0x00u8,
        0x2Du8 & 0x40u8 == 0x00u8,
        0x2Du8 & 0x20u8 == 0x20u8,
        0x2Du8 & 0x10u8 == 0x00u8,
        0x2Du8 & 0x08u8 == 0x08u8,
        0x2Du8 & 0x04u8 == 0x04u8,
        0x2Du8 & 0x02u8 == 0x00u8,
        0x2Du8 & 0x01u8 == 0x01u8,
        0x10u8 & 0x80u8 == 0x00u8,
        0x10u8 & 0x40u8 == 0x00u8,
        0x10u8 & 0x20u8 == 0x00u8,
        0x10u8 & 0x10u8 == 0x10u8,
        0x10u8 & 0x08u8 == 0x00u8,
        0x10u8 & 0x04u8 == 0x00u8,
        0x10u8 & 0x02u8 == 0x00u8,
        0x10u8 & 0x01u8 == 0x00u8,
{
}

proof fn lemma_status_bits(ts: u8)
    by (bit_vector)
    ensures
        (ts & 0xFEu8) & 0x01u8 == 0u8,
{
}

proof fn lemma_sti_bits()
    by (bit_vector)
    ensures
        (0u8 >> 6u8) & 0x03u8 == 0u8,
{
}

proof fn lemma_time_bits(t: u32)
    by (bit_vector)
    ensures
        t & 0xFF_FFFFu32 < 0x100_0000u32,
{
}

/// A signed 32-bit value written as four octets is read back.
pub proof fn lemma_read_back_i32(prefix: Seq<u8>, v: i32, rest: Seq<u8>)
    ensures
        spec_i32_be(prefix + be32_bytes(u32_of_i32(v)) + rest, prefix.len() as int) == Ok::<
            (i32, int),
            AsterixError,
        >((v, prefix.len() + 4 as int)),
{
    let s = prefix + be32_bytes(u32_of_i32(v)) + rest;
    let p = prefix.len() as int;
    assert(s.subrange(p, p + 4) =~= be32_bytes(u32_of_i32(v)));
}

/// A record can be encoded and decoded back: its callsign, if any, has at
/// most eight letters, digits or spaces and does not end with a space.
pub open spec fn encodable(r: Cat062RecordView) -> bool {
    match r.callsign {
        Some(cs) => {
            &&& cs.len() <= 8
            &&& forall|i: int| 0 <= i < cs.len() ==> is_ia5_char(#[trigger] cs[i])
            &&& (cs.len() == 0 || cs.last() != ' ')
        },
        None => true,
    }
}

/// The callsign comes back unchanged from an encoding when the record is
/// `encodable`.
pub proof fn lemma_cat062_callsign_roundtrip(r: Cat062RecordView)
    requires
        encodable(r),
    ensures
        decoded_record_callsign(r) == (match r.callsign {
            Some(c) => c,
            None => Seq::<char>::empty(),
        }),
{
    lemma_callsign_roundtrip(match r.callsign {
        Some(c) => c,
        None => Seq::<char>::empty(),
    });
}

/// The callsign that the encoding of `r` carries, as decoding gives it back:
/// its first eight characters, each cut to its 6-bit code and read back as a
/// letter, digit or space, with trailing spaces removed. With only an
/// address given this is the empty callsign.
pub open spec fn decoded_record_callsign(r: Cat062RecordView) -> Seq<char> {
    decoded_callsign(
        pack_sixbits(
            callsign_codes(
                match r.callsign {
                    Some(c) => c,
                    None => Seq::empty(),
                },
            ),
        ),
    )
}

/// The record that decoding the encoding of `r` gives: the items that the
/// encoder writes, with the time of track cut to 24 bits, the track number
/// to 12 bits, the FX bit of the track status cleared, the altitude in
/// units of 6.25 ft, and the callsign as `decoded_record_callsign` gives it.
pub open spec fn cat062_decoded(r: Cat062RecordView) -> Cat062View {
    Cat062View {
        category: AsterixCategory::Cat062,
        length: spec_encode_cat062_record(r).len() as u16,
        fspec: seq![fspec1_of(r), fspec2_of(r)] + (if has_altitude(r) { seq![0x10u8] } else { Seq::empty() }),
        data_source_id: Some(DataSourceId { sac: r.sac, sic: r.sic }),
        service_id: None,
        time_of_track: Some(r.time_of_day_raw & 0xFF_FFFF),
        position_wgs84: Some(PositionWGS84 { latitude_raw: r.latitude_raw, longitude_raw: r.longitude_raw }),
        position_cartesian: None,
        velocity_cartesian: if has_velocity(r) {
            Some(VelocityCartesian { vx_raw: r.vx_raw.unwrap(), vy_raw: r.vy_raw.unwrap() })
        } else {
            None
        },
        acceleration: None,
        mode_3a: None,
        target_id: if has_target_id(r) {
            Some(TargetIdentificationView { sti: 0, callsign: decoded_record_callsign(r) })
        } else {
            None
        },
        aircraft_derived_data: None,
        track_number: Some(r.track_number & 0x0FFF),
        track_status: Some(track_status_of(seq![r.track_status & 0xFE])),
        system_track_update_ages: None,
        mode_of_movement: None,
        track_data_ages: None,
        measured_flight_level: None,
        geometric_altitude: if has_altitude(r) {
            Some(altitude_raw_of(r.altitude_ft.unwrap()))
        } else {
            None
        },
        barometric_altitude: None,
        rate_of_climb: None,
        flight_plan_data: None,
        target_size: None,
        vehicle_fleet_id: None,
        mode_5_data: None,
        mode_2_code: None,
        composed_track_number: None,
        estimated_accuracies: None,
        measured_info: None,
    }
}

/// Part `i` (from 0) of the encoding of `r`: the FSPEC, then I062/010, 070,
/// the latitude and longitude of 105, 185, 245, 040, 080 and 130.
#[verifier::opaque]
pub open spec fn enc_part(r: Cat062RecordView, i: int) -> Seq<u8> {
    if i == 0 {
        seq![fspec1_of(r), fspec2_of(r)] + (if has_altitude(r) { seq![0x10u8] } else { Seq::empty() })
    } else if i == 1 {
        seq![r.sac, r.sic]
    } else if i == 2 {
        be24_bytes(r.time_of_day_raw & 0xFF_FFFF)
    } else if i == 3 {
        be32_bytes(u32_of_i32(r.latitude_raw))
    } else if i == 4 {
        be32_bytes(u32_of_i32(r.longitude_raw))
    } else if i == 5 {
        if has_velocity(r) {
            be16_bytes(u16_of_i16(r.vx_raw.unwrap())) + be16_bytes(u16_of_i16(r.vy_raw.unwrap()))
        } else {
            Seq::empty()
        }
    } else if i == 6 {
        if has_target_id(r) {
            seq![0u8] + pack_sixbits(
                callsign_codes(
                    match r.callsign {
                        Some(c) => c,
                        None => Seq::empty(),
                    },
                ),
            )
        } else {
            Seq::empty()
        }
    } else if i == 7 {
        be16_bytes(r.track_number & 0x0FFF)
    } else if i == 8 {
        seq![r.track_status & 0xFE]
    } else {
        if has_altitude(r) {
            be16_bytes(u16_of_i16(altitude_raw_of(r.altitude_ft.unwrap())))
        } else {
            Seq::empty()
        }
    }
}

/// The first `i` parts of the encoding of `r`.
pub open spec fn enc_prefix(r: Cat062RecordView, i: int) -> Seq<u8>
    decreases i,
{
    if i <= 0 {
        Seq::empty()
    } else {
        enc_prefix(r, i - 1) + enc_part(r, i - 1)
    }
}

proof fn lemma_enc_prefix_all(r: Cat062RecordView)
    ensures
        enc_prefix(r, 10) == spec_encode_cat062_record(r),
{
    reveal_with_fuel(enc_prefix, 11);
    reveal(enc_part);
    reveal(spec_encode_cat062_record);
    assert(enc_prefix(r, 10) =~= spec_encode_cat062_record(r));
}

proof fn lemma_enc_part_at(r: Cat062RecordView, i: int, n: int)
    requires
        0 <= i < n,
    ensures
        enc_prefix(r, n).len() >= enc_prefix(r, i + 1).len() == enc_prefix(r, i).len() + enc_part(r, i).len(),
        enc_prefix(r, n).subrange(enc_prefix(r, i).len() as int, enc_prefix(r, i + 1).len() as int)
            == enc_part(r, i),
    decreases n - i,
{
    if n == i + 1 {
        let x = enc_prefix(r, i);
        assert((x + enc_part(r, i)).subrange(x.len() as int, (x + enc_part(r, i)).len() as int) =~= enc_part(r, i));
    } else {
        lemma_enc_part_at(r, i, n - 1);
        let x = enc_prefix(r, n - 1);
        let lo = enc_prefix(r, i).len() as int;
        let hi = enc_prefix(r, i + 1).len() as int;
        assert((x + enc_part(r, n - 1)).subrange(lo, hi) =~= x.subrange(lo, hi));
    }
}

/// Where part `i` of the encoding of `r`, followed by `rest`, starts.
pub open spec fn enc_offset(r: Cat062RecordView, i: int) -> int {
    enc_prefix(r, i).len() as int
}

proof fn lemma_part_in_stream(r: Cat062RecordView, rest: Seq<u8>, i: int)
    requires
        0 <= i < 10,
    ensures
        0 <= enc_offset(r, i),
        enc_offset(r, i + 1) == enc_offset(r, i) + enc_part(r, i).len(),
        enc_offset(r, i + 1) <= spec_encode_cat062_record(r).len(),
        (spec_encode_cat062_record(r) + rest).subrange(enc_offset(r, i), enc_offset(r, i + 1)) == enc_part(r, i),
{
    lemma_enc_prefix_all(r);
    lemma_enc_part_at(r, i, 10);
    let e = spec_encode_cat062_record(r);
    assert((e + rest).subrange(enc_offset(r, i), enc_offset(r, i + 1)) =~= e.subrange(
        enc_offset(r, i),
        enc_offset(r, i + 1),
    ));
}

proof fn lemma_sub_u16(s: Seq<u8>, p: int, v: u16)
    requires
        0 <= p,
        p + 2 <= s.len(),
        s.subrange(p, p + 2) == be16_bytes(v),
    ensures
        spec_u16_be(s, p) == Ok::<(u16, int), AsterixError>((v, p + 2)),
        spec_i16_be(s, p) == Ok::<(i16, int), AsterixError>((i16_of(v), p + 2)),
{
    assert(s[p] == s.subrange(p, p + 2)[0]);
    assert(s[p + 1] == s.subrange(p, p + 2)[1]);
}

proof fn lemma_sub_u24(s: Seq<u8>, p: int, v: u32)
    requires
        0 <= p,
        p + 3 <= s.len(),
        v < 0x100_0000,
        s.subrange(p, p + 3) == be24_bytes(v),
    ensures
        spec_u24_be(s, p) == Ok::<(u32, int), AsterixError>((v, p + 3)),
{
    assert(s[p] == s.subrange(p, p + 3)[0]);
    assert(s[p + 1] == s.subrange(p, p + 3)[1]);
    assert(s[p + 2] == s.subrange(p, p + 3)[2]);
}

proof fn lemma_sub_i32(s: Seq<u8>, p: int, v: i32)
    requires
        0 <= p,
        p + 4 <= s.len(),
        s.subrange(p, p + 4) == be32_bytes(u32_of_i32(v)),
    ensures
        spec_i32_be(s, p) == Ok::<(i32, int), AsterixError>((v, p + 4)),
{
}

proof fn lemma_fspec_read(r: Cat062RecordView, rest: Seq<u8>)
    ensures
        spec_fx_octets(spec_encode_cat062_record(r) + rest, 0, 7, AsterixError::FspecTooLong) == Ok::<
            (Seq<u8>, int),
            AsterixError,
        >((enc_part(r, 0), enc_offset(r, 1))),
{
    reveal(enc_part);
    lemma_fspec_bits();
    lemma_part_in_stream(r, rest, 0);
    let s = spec_encode_cat062_record(r) + rest;
    let a0 = enc_part(r, 0);
    assert(enc_offset(r, 0) == 0);
    assert(s[0] == a0[0]);
    assert(s[1] == a0[1]);
    if has_altitude(r) {
        assert(s[2] == a0[2]);
        assert(fx_run(s, 2) == 0);
        assert(fx_run(s, 1) == 1);
    } else {
        assert(fx_run(s, 1) == 0);
    }
    assert(fx_run(s, 0) == a0.len() - 1);
}

proof fn lemma_first_reads(r: Cat062RecordView, rest: Seq<u8>)
    ensures
        spec_i062_010(spec_encode_cat062_record(r) + rest, enc_offset(r, 1)) == Ok::<(DataSourceId, int), AsterixError>(
            (DataSourceId { sac: r.sac, sic: r.sic }, enc_offset(r, 2)),
        ),
        spec_u24_be(spec_encode_cat062_record(r) + rest, enc_offset(r, 2)) == Ok::<(u32, int), AsterixError>(
            (r.time_of_day_raw & 0xFF_FFFF, enc_offset(r, 3)),
        ),
        spec_i062_105(spec_encode_cat062_record(r) + rest, enc_offset(r, 3)) == Ok::<(PositionWGS84, int), AsterixError>(
            (PositionWGS84 { latitude_raw: r.latitude_raw, longitude_raw: r.longitude_raw }, enc_offset(r, 5)),
        ),
{
    reveal(enc_part);
    lemma_time_bits(r.time_of_day_raw);
    let s = spec_encode_cat062_record(r) + rest;
    lemma_part_in_stream(r, rest, 1);
    lemma_part_in_stream(r, rest, 2);
    lemma_part_in_stream(r, rest, 3);
    lemma_part_in_stream(r, rest, 4);
    assert(s.subrange(enc_offset(r, 1), enc_offset(r, 1) + 2) == enc_part(r, 1));
    lemma_sub_u24(s, enc_offset(r, 2), r.time_of_day_raw & 0xFF_FFFF);
    lemma_sub_i32(s, enc_offset(r, 3), r.latitude_raw);
    lemma_sub_i32(s, enc_offset(r, 4), r.longitude_raw);
}

proof fn lemma_velocity_read(r: Cat062RecordView, rest: Seq<u8>)
    ensures
        has_velocity(r) ==> spec_i062_185(spec_encode_cat062_record(r) + rest, enc_offset(r, 5)) == Ok::<
            (VelocityCartesian, int),
            AsterixError,
        >((VelocityCartesian { vx_raw: r.vx_raw.unwrap(), vy_raw: r.vy_raw.unwrap() }, enc_offset(r, 6))),
        !has_velocity(r) ==> enc_offset(r, 6) == enc_offset(r, 5),
{
    reveal(enc_part);
    let s = spec_encode_cat062_record(r) + rest;
    lemma_part_in_stream(r, rest, 5);
    if has_velocity(r) {
        let p = enc_offset(r, 5);
        let bx = be16_bytes(u16_of_i16(r.vx_raw.unwrap()));
        let by = be16_bytes(u16_of_i16(r.vy_raw.unwrap()));
        let a5 = enc_part(r, 5);
        assert(a5 == bx + by);
        assert(s.subrange(p, p + 2) =~= a5.subrange(0, 2));
        assert(a5.subrange(0, 2) =~= bx);
        assert(s.subrange(p + 2, p + 4) =~= a5.subrange(2, 4));
        assert(a5.subrange(2, 4) =~= by);
        lemma_sub_u16(s, p, u16_of_i16(r.vx_raw.unwrap()));
        lemma_sub_u16(s, p + 2, u16_of_i16(r.vy_raw.unwrap()));
    }
}

proof fn lemma_target_id_read(r: Cat062RecordView, rest: Seq<u8>)
    ensures
        has_target_id(r) ==> spec_i062_245(spec_encode_cat062_record(r) + rest, enc_offset(r, 6)) == Ok::<
            (TargetIdentificationView, int),
            AsterixError,
        >((TargetIdentificationView { sti: 0, callsign: decoded_record_callsign(r) }, enc_offset(r, 7))),
        !has_target_id(r) ==> enc_offset(r, 7) == enc_offset(r, 6),
{
    reveal(enc_part);
    lemma_sti_bits();
    let s = spec_encode_cat062_record(r) + rest;
    lemma_part_in_stream(r, rest, 6);
    if has_target_id(r) {
        let cs: Seq<char> = match r.callsign {
            Some(c) => c,
            None => Seq::empty(),
        };
        let p = enc_offset(r, 6);
        let b = s.subrange(p, p + 7);
        assert(b == enc_part(r, 6));
        assert(b.subrange(1, 7) =~= pack_sixbits(callsign_codes(cs)));
        assert(b[0] == 0u8);
    }
}

proof fn lemma_last_reads(r: Cat062RecordView, rest: Seq<u8>)
    ensures
        spec_u16_be(spec_encode_cat062_record(r) + rest, enc_offset(r, 7)) == Ok::<(u16, int), AsterixError>(
            (r.track_number & 0x0FFF, enc_offset(r, 8)),
        ),
        spec_fx_chain(spec_encode_cat062_record(r) + rest, enc_offset(r, 8)) == Ok::<(Seq<u8>, int), AsterixError>(
            (seq![r.track_status & 0xFE], enc_offset(r, 9)),
        ),
        has_altitude(r) ==> spec_i16_be(spec_encode_cat062_record(r) + rest, enc_offset(r, 9)) == Ok::<
            (i16, int),
            AsterixError,
        >((altitude_raw_of(r.altitude_ft.unwrap()), enc_offset(r, 10))),
        !has_altitude(r) ==> enc_offset(r, 10) == enc_offset(r, 9),
        enc_offset(r, 10) == spec_encode_cat062_record(r).len(),
{
    reveal(enc_part);
    lemma_status_bits(r.track_status);
    lemma_enc_prefix_all(r);
    let s = spec_encode_cat062_record(r) + rest;
    lemma_part_in_stream(r, rest, 7);
    lemma_part_in_stream(r, rest, 8);
    lemma_part_in_stream(r, rest, 9);
    lemma_sub_u16(s, enc_offset(r, 7), r.track_number & 0x0FFF);
    let p = enc_offset(r, 8);
    assert(s[p] == enc_part(r, 8)[0]);
    assert(fx_run(s, p) == 0);
    assert(s.subrange(p, p + 1) =~= seq![r.track_status & 0xFE]);
    if has_altitude(r) {
        lemma_sub_u16(s, enc_offset(r, 9), u16_of_i16(altitude_raw_of(r.altitude_ft.unwrap())));
    }
}

proof fn lemma_item_0(s: Seq<u8>, r: Cat062View, p: int, v: DataSourceId, q: int)
    requires
        spec_i062_010(s, p) == Ok::<(DataSourceId, int), AsterixError>((v, q)),
    ensures
        cat062_item(s, 0, r, p) == Ok::<(Cat062View, int), AsterixError>((Cat062View { data_source_id: Some(v), ..r }, q)),
{
    reveal(cat062_item);
}

proof fn lemma_item_3(s: Seq<u8>, r: Cat062View, p: int, v: u32, q: int)
    requires
        spec_u24_be(s, p) == Ok::<(u32, int), AsterixError>((v, q)),
    ensures
        cat062_item(s, 3, r, p) == Ok::<(Cat062View, int), AsterixError>((Cat062View { time_of_track: Some(v), ..r }, q)),
{
    reveal(cat062_item);
}

proof fn lemma_item_4(s: Seq<u8>, r: Cat062View, p: int, v: PositionWGS84, q: int)
    requires
        spec_i062_105(s, p) == Ok::<(PositionWGS84, int), AsterixError>((v, q)),
    ensures
        cat062_item(s, 4, r, p) == Ok::<(Cat062View, int), AsterixError>((Cat062View { position_wgs84: Some(v), ..r }, q)),
{
    reveal(cat062_item);
}

proof fn lemma_item_6(s: Seq<u8>, r: Cat062View, p: int, v: VelocityCartesian, q: int)
    requires
        spec_i062_185(s, p) == Ok::<(VelocityCartesian, int), AsterixError>((v, q)),
    ensures
        cat062_item(s, 6, r, p) == Ok::<(Cat062View, int), AsterixError>((Cat062View { velocity_cartesian: Some(v), ..r }, q)),
{
    reveal(cat062_item);
}

proof fn lemma_item_9(s: Seq<u8>, r: Cat062View, p: int, v: TargetIdentificationView, q: int)
    requires
        spec_i062_245(s, p) == Ok::<(TargetIdentificationView, int), AsterixError>((v, q)),
    ensures
        cat062_item(s, 9, r, p) == Ok::<(Cat062View, int), AsterixError>((Cat062View { target_id: Some(v), ..r }, q)),
{
    reveal(cat062_item);
}

proof fn lemma_item_11(s: Seq<u8>, r: Cat062View, p: int, v: u16, q: int)
    requires
        spec_u16_be(s, p) == Ok::<(u16, int), AsterixError>((v, q)),
    ensures
        cat062_item(s, 11, r, p) == Ok::<(Cat062View, int), AsterixError>((Cat062View { track_number: Some(v), ..r }, q)),
{
    reveal(cat062_item);
}

proof fn lemma_item_12(s: Seq<u8>, r: Cat062View, p: int, v: TrackStatusView, q: int)
    requires
        spec_i062_080(s, p) == Ok::<(TrackStatusView, int), AsterixError>((v, q)),
    ensures
        cat062_item(s, 12, r, p) == Ok::<(Cat062View, int), AsterixError>((Cat062View { track_status: Some(v), ..r }, q)),
{
    reveal(cat062_item);
}

proof fn lemma_item_17(s: Seq<u8>, r: Cat062View, p: int, v: i16, q: int)
    requires
        spec_i16_be(s, p) == Ok::<(i16, int), AsterixError>((v, q)),
    ensures
        cat062_item(s, 17, r, p) == Ok::<(Cat062View, int), AsterixError>((Cat062View { geometric_altitude: Some(v), ..r }, q)),
{
    reveal(cat062_item);
}

/// Decoding the encoding of a record, followed by any octets, gives back
/// the record's items (see `cat062_decoded`) and the encoding's length.
pub proof fn lemma_cat062_record_roundtrip(r: Cat062RecordView, rest: Seq<u8>)
    ensures
        spec_parse_cat062_record(spec_encode_cat062_record(r) + rest) == Ok::<(Cat062View, int), AsterixError>(
            (cat062_decoded(r), spec_encode_cat062_record(r).len() as int),
        ),
{
    let s = spec_encode_cat062_record(r) + rest;
    lemma_fspec_read(r, rest);
    lemma_first_reads(r, rest);
    lemma_velocity_read(r, rest);
    lemma_target_id_read(r, rest);
    lemma_last_reads(r, rest);
    lemma_fspec_bits();
    let vel = has_velocity(r);
    let tid = has_target_id(r);
    let alt = has_altitude(r);
    let a0 = enc_part(r, 0);
    assert(a0 == seq![fspec1_of(r), fspec2_of(r)] + (if alt { seq![0x10u8] } else { Seq::empty() })) by {
        reveal(enc_part);
    }
    assert(a0[0] == fspec1_of(r));
    assert(a0[1] == fspec2_of(r));
    assert(alt ==> a0.len() == 3 && a0[2] == 0x10u8);
    assert(!alt ==> a0.len() == 2);
    let cs = decoded_record_callsign(r);
    let start = (empty_cat062(a0), enc_offset(r, 1));
    let d0 = empty_cat062(a0);
    let d1 = Cat062View { data_source_id: Some(DataSourceId { sac: r.sac, sic: r.sic }), ..d0 };
    assert(announced(a0, 0));
    assert(cat062_items_upto(s, a0, start, 0) == Ok::<(Cat062View, int), AsterixError>(start));
    lemma_item_0(s, d0, enc_offset(r, 1), DataSourceId { sac: r.sac, sic: r.sic }, enc_offset(r, 2));
    assert(cat062_items_upto(s, a0, start, 1) == Ok::<(Cat062View, int), AsterixError>((d1, enc_offset(r, 2))));
    assert(cat062_items_upto(s, a0, start, 2) == Ok::<(Cat062View, int), AsterixError>((d1, enc_offset(r, 2))));
    assert(cat062_items_upto(s, a0, start, 3) == Ok::<(Cat062View, int), AsterixError>((d1, enc_offset(r, 2))));
    let d2 = Cat062View { time_of_track: Some(r.time_of_day_raw & 0xFF_FFFF), ..d1 };
    lemma_item_3(s, d1, enc_offset(r, 2), r.time_of_day_raw & 0xFF_FFFF, enc_offset(r, 3));
    assert(cat062_items_upto(s, a0, start, 4) == Ok::<(Cat062View, int), AsterixError>((d2, enc_offset(r, 3))));
    let d3 = Cat062View {
        position_wgs84: Some(PositionWGS84 { latitude_raw: r.latitude_raw, longitude_raw: r.longitude_raw }),
        ..d2
    };
    lemma_item_4(
        s,
        d2,
        enc_offset(r, 3),
        PositionWGS84 { latitude_raw: r.latitude_raw, longitude_raw: r.longitude_raw },
        enc_offset(r, 5),
    );
    assert(cat062_items_upto(s, a0, start, 5) == Ok::<(Cat062View, int), AsterixError>((d3, enc_offset(r, 5))));
    assert(cat062_items_upto(s, a0, start, 6) == Ok::<(Cat062View, int), AsterixError>((d3, enc_offset(r, 5))));
    let d4 = if vel {
        Cat062View {
            velocity_cartesian: Some(VelocityCartesian { vx_raw: r.vx_raw.unwrap(), vy_raw: r.vy_raw.unwrap() }),
            ..d3
        }
    } else {
        d3
    };
    if vel {
        lemma_item_6(
            s,
            d3,
            enc_offset(r, 5),
            VelocityCartesian { vx_raw: r.vx_raw.unwrap(), vy_raw: r.vy_raw.unwrap() },
            enc_offset(r, 6),
        );
    }
    assert(cat062_items_upto(s, a0, start, 7) == Ok::<(Cat062View, int), AsterixError>((d4, enc_offset(r, 6))));
    assert(cat062_items_upto(s, a0, start, 8) == Ok::<(Cat062View, int), AsterixError>((d4, enc_offset(r, 6))));
    assert(cat062_items_upto(s, a0, start, 9) == Ok::<(Cat062View, int), AsterixError>((d4, enc_offset(r, 6))));
    let d5 = if tid {
        Cat062View { target_id: Some(TargetIdentificationView { sti: 0, callsign: cs }), ..d4 }
    } else {
        d4
    };
    if tid {
        lemma_item_9(s, d4, enc_offset(r, 6), TargetIdentificationView { sti: 0, callsign: cs }, enc_offset(r, 7));
    }
    assert(cat062_items_upto(s, a0, start, 10) == Ok::<(Cat062View, int), AsterixError>((d5, enc_offset(r, 7))));
    assert(cat062_items_upto(s, a0, start, 11) == Ok::<(Cat062View, int), AsterixError>((d5, enc_offset(r, 7))));
    let d6 = Cat062View { track_number: Some(r.track_number & 0x0FFF), ..d5 };
    lemma_item_11(s, d5, enc_offset(r, 7), r.track_number & 0x0FFF, enc_offset(r, 8));
    assert(cat062_items_upto(s, a0, start, 12) == Ok::<(Cat062View, int), AsterixError>((d6, enc_offset(r, 8))));
    let d7 = Cat062View { track_status: Some(track_status_of(seq![r.track_status & 0xFE])), ..d6 };
    lemma_item_12(s, d6, enc_offset(r, 8), track_status_of(seq![r.track_status & 0xFE]), enc_offset(r, 9));
    assert(cat062_items_upto(s, a0, start, 13) == Ok::<(Cat062View, int), AsterixError>((d7, enc_offset(r, 9))));
    assert(cat062_items_upto(s, a0, start, 14) == Ok::<(Cat062View, int), AsterixError>((d7, enc_offset(r, 9))));
    assert(cat062_items_upto(s, a0, start, 15) == Ok::<(Cat062View, int), AsterixError>((d7, enc_offset(r, 9))));
    assert(cat062_items_upto(s, a0, start, 16) == Ok::<(Cat062View, int), AsterixError>((d7, enc_offset(r, 9))));
    assert(cat062_items_upto(s, a0, start, 17) == Ok::<(Cat062View, int), AsterixError>((d7, enc_offset(r, 9))));
    let d8 = if alt {
        Cat062View { geometric_altitude: Some(altitude_raw_of(r.altitude_ft.unwrap())), ..d7 }
    } else {
        d7
    };
    if alt {
        lemma_item_17(s, d7, enc_offset(r, 9), altitude_raw_of(r.altitude_ft.unwrap()), enc_offset(r, 10));
    }
    assert(cat062_items_upto(s, a0, start, 18) == Ok::<(Cat062View, int), AsterixError>((d8, enc_offset(r, 10))));
    assert(cat062_items_upto(s, a0, start, 19) == Ok::<(Cat062View, int), AsterixError>((d8, enc_offset(r, 10))));
    assert(cat062_items_upto(s, a0, start, 20) == Ok::<(Cat062View, int), AsterixError>((d8, enc_offset(r, 10))));
    assert(cat062_items_upto(s, a0, start, 21) == Ok::<(Cat062View, int), AsterixError>((d8, enc_offset(r, 10))));
    assert(cat062_items_upto(s, a0, start, 22) == Ok::<(Cat062View, int), AsterixError>((d8, enc_offset(r, 10))));
    assert(cat062_items_upto(s, a0, start, 23) == Ok::<(Cat062View, int), AsterixError>((d8, enc_offset(r, 10))));
    assert(cat062_items_upto(s, a0, start, 24) == Ok::<(Cat062View, int), AsterixError>((d8, enc_offset(r, 10))));
    assert(cat062_items_upto(s, a0, start, 25) == Ok::<(Cat062View, int), AsterixError>((d8, enc_offset(r, 10))));
    assert(cat062_items_upto(s, a0, start, 26) == Ok::<(Cat062View, int), AsterixError>((d8, enc_offset(r, 10))));
    assert(cat062_items_upto(s, a0, start, 27) == Ok::<(Cat062View, int), AsterixError>((d8, enc_offset(r, 10))));
    assert(cat062_items_upto(s, a0, start, 28) == Ok::<(Cat062View, int), AsterixError>((d8, enc_offset(r, 10))));
    assert(Cat062View { length: enc_offset(r, 10) as u16, ..d8 } == cat062_decoded(r));
}

proof fn lemma_encode_len(r: Cat062RecordView)
    ensures
        spec_encode_cat062_record(r).len() >= 2,
{
    reveal(spec_encode_cat062_record);
}

proof fn lemma_encode_records_front(rs: Seq<Cat062RecordView>)
    requires
        rs.len() > 0,
    ensures
        spec_encode_records(rs) == spec_encode_cat062_record(rs[0]) + spec_encode_records(rs.drop_first()),
    decreases rs.len(),
{
    if rs.len() == 1 {
        assert(rs.drop_last() =~= Seq::<Cat062RecordView>::empty());
        assert(rs.drop_first() =~= Seq::<Cat062RecordView>::empty());
        assert(spec_encode_records(rs) =~= spec_encode_cat062_record(rs[0]) + spec_encode_records(rs.drop_first()));
    } else {
        lemma_encode_records_front(rs.drop_last());
        assert(rs.drop_last().drop_first() =~= rs.drop_first().drop_last());
        assert(rs.drop_first().last() == rs.last());
        assert(rs.drop_last()[0] == rs[0]);
        let a = spec_encode_cat062_record(rs[0]);
        let m = spec_encode_records(rs.drop_first().drop_last());
        let z = spec_encode_cat062_record(rs.last());
        assert((a + m) + z =~= a + (m + z));
    }
}

/// Decoding the records encoded one after the other gives back each
/// record's items, in order.
pub proof fn lemma_cat062_records_roundtrip(rs: Seq<Cat062RecordView>)
    ensures
        spec_cat062_records(spec_encode_records(rs)) == Ok::<Seq<Cat062View>, AsterixError>(
            rs.map_values(|r: Cat062RecordView| cat062_decoded(r)),
        ),
    decreases rs.len(),
{
    if rs.len() == 0 {
        assert(rs.map_values(|r: Cat062RecordView| cat062_decoded(r)) =~= Seq::<Cat062View>::empty());
    } else {
        lemma_encode_records_front(rs);
        let e0 = spec_encode_cat062_record(rs[0]);
        let tail = spec_encode_records(rs.drop_first());
        let body = e0 + tail;
        lemma_cat062_record_roundtrip(rs[0], tail);
        lemma_encode_len(rs[0]);
        assert(body.subrange(e0.len() as int, body.len() as int) =~= tail);
        lemma_cat062_records_roundtrip(rs.drop_first());
        assert(seq![cat062_decoded(rs[0])] + rs.drop_first().map_values(|r: Cat062RecordView| cat062_decoded(r))
            =~= rs.map_values(|r: Cat062RecordView| cat062_decoded(r)));
    }
}

/// Decoding an encoded CAT062 block gives back the items of each record, in
/// order, whenever the block fits the 16-bit length field.
pub proof fn lemma_cat062_block_roundtrip(rs: Seq<Cat062RecordView>)
    requires
        spec_encode_records(rs).len() + 3 <= 0xFFFF,
    ensures
        spec_parse_cat062_block(spec_encode_cat062_block(rs)) == Ok::<Seq<Cat062View>, AsterixError>(
            rs.map_values(|r: Cat062RecordView| cat062_decoded(r)),
        ),
{
    let body = spec_encode_records(rs);
    let total = (3 + body.len()) as int;
    let msg = spec_encode_cat062_block(rs);
    assert(msg == seq![CAT062] + be16_bytes(total as u16) + body);
    assert(msg.len() == total);
    assert(msg[0] == CAT062);
    assert(msg[1] == (total / 256) as u8);
    assert(msg[2] == (total % 256) as u8);
    assert(declared_len(msg) == total);
    assert(msg.subrange(3, total) =~= body);
    lemma_cat062_records_roundtrip(rs);
}

/// The length field of an encoded block is the block's length, when that
/// fits in 16 bits.
pub proof fn lemma_cat062_block_length(rs: Seq<Cat062RecordView>)
    requires
        spec_encode_records(rs).len() + 3 <= 0xFFFF,
    ensures
        spec_encode_cat062_block(rs)[0] == CAT062,
        declared_len(spec_encode_cat062_block(rs)) == spec_encode_cat062_block(rs).len(),
{
    let body = spec_encode_records(rs);
    let total = (3 + body.len()) as int;
    let msg = spec_encode_cat062_block(rs);
    assert(msg[1] == (total / 256) as u8);
    assert(msg[2] == (total % 256) as u8);
}

/// The first FSPEC octet of an encoded record always has its FX bit set.
pub proof fn lemma_cat062_fspec_extends(r: Cat062RecordView)
    ensures
        spec_encode_cat062_record(r)[0] & 1 == 1,
{
    reveal(spec_encode_cat062_record);
    lemma_fspec_bits();
}

/// Octets past the declared length of a block do not change what it decodes to.
pub proof fn lemma_cat062_trailing_octets_ignored(msg: Seq<u8>, extra: Seq<u8>)
    requires
        msg.len() >= 3,
        declared_len(msg) <= msg.len(),
    ensures
        spec_parse_cat062_block(msg + extra) == spec_parse_cat062_block(msg),
{
    let m2 = msg + extra;
    assert(m2[0] == msg[0] && m2[1] == msg[1] && m2[2] == msg[2]);
    if declared_len(msg) >= 3 {
        assert(m2.subrange(3, declared_len(msg) as int) =~= msg.subrange(3, declared_len(msg) as int));
    }
}

/// The sum of the lengths of decoded records.
pub open spec fn cat062_lengths(rs: Seq<Cat062View>) -> int
    decreases rs.len(),
{
    if rs.len() == 0 {
        0
    } else {
        rs[0].length + cat062_lengths(rs.drop_first())
    }
}

/// The records decoded from a block payload cover it exactly: their lengths
/// add up to the payload's length.
pub proof fn lemma_cat062_records_tile(p: Seq<u8>)
    requires
        p.len() <= 0xFFFF,
    ensures
        spec_cat062_records(p) matches Ok(rs) ==> cat062_lengths(rs) == p.len(),
    decreases p.len(),
{
    if p.len() > 0 {
        if let Ok((r, n)) = spec_parse_cat062_record(p) {
            if 0 < n <= p.len() {
                let rest = p.subrange(n, p.len() as int);
                lemma_cat062_records_tile(rest);
                if let Ok(rs) = spec_cat062_records(rest) {
                    let all = seq![r] + rs;
                    assert(all.drop_first() =~= rs);
                    assert(all[0] == r);
                }
            }
        }
    }
}

} // verus!
