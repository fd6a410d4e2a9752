//! What the decoders read from the octets of a record: each decoded item
//! field stated directly over the input octets it came from.
use vstd::prelude::*;
use crate::asterix::cursor::{be16, be24, be32, fx_run, i16_of, i32_of, i8_of, spec_fx_octets};
use crate::asterix::error::AsterixError;
use crate::asterix::ia5::decoded_callsign;
use crate::asterix::items::{announced, presence_mask, spec_compound, subfields_len, spec_fx_chain};
use crate::asterix::cat062_items::{
    i24_of, spec_i062_380, spec_i062_380_subfield, spec_i062_380_upto, spec_i062_510, spec_i062_510_more,
};
use crate::asterix::cat062::{
    cat062_item, cat062_items_upto, declared_len, empty_cat062, spec_cat062_records, spec_parse_cat062_block,
    spec_parse_cat062_record, squawk_of, Acceleration, BarometricAltitude, Cat062View, DataSourceId, Mode3ACode,
    PositionCartesian, PositionWGS84, TargetIdentificationView, TrackStatusView, VelocityCartesian,
};
use crate::asterix::cat048;
use crate::asterix::cat048::{
    cat048_item, cat048_items_upto, empty_cat048, spec_cat048_records, spec_parse_cat048_block,
    spec_parse_cat048_record, CartesianPosition, Cat048View, FlightLevel, Mode3AConfidence, TrackPosition,
    TrackQualityView, TrackVelocityPolar,
};

verus! {

// ---------------------------------------------------------------------------
// Squawk digits

/// A four-digit decimal number whose digits are all octal.
pub open spec fn octal_digits(r: int) -> bool {
    &&& 0 <= r < 10000
    &&& r / 1000 < 8
    &&& (r / 100) % 10 < 8
    &&& (r / 10) % 10 < 8
    &&& r % 10 < 8
}

/// The value of a four-digit decimal number read as four octal digits.
pub open spec fn octal_value(r: int) -> int {
    (r / 1000) * 512 + ((r / 100) % 10) * 64 + ((r / 10) % 10) * 8 + r % 10
}

/// The squawk of a Mode 3/A code is its 12-bit code written in octal: every
/// decimal digit of it is below 8, and read back as octal it gives the code.
pub proof fn lemma_squawk_is_octal(code_raw: u16)
    ensures
        octal_digits(squawk_of(code_raw) as int),
        octal_value(squawk_of(code_raw) as int) == code_raw % 4096,
{
    let c: int = code_raw as int % 4096;
    let a = c / 512;
    let b = (c / 64) % 8;
    let d = (c / 8) % 8;
    let e = c % 8;
    assert(c == a * 512 + b * 64 + d * 8 + e && 0 <= a < 8 && 0 <= b < 8 && 0 <= d < 8 && 0 <= e < 8)
        by (nonlinear_arith)
        requires
            0 <= c < 4096,
            a == c / 512,
            b == (c / 64) % 8,
            d == (c / 8) % 8,
            e == c % 8,
    ;
    let r = a * 1000 + b * 100 + d * 10 + e;
    assert(squawk_of(code_raw) as int == r);
    assert(r / 1000 == a && (r / 100) % 10 == b && (r / 10) % 10 == d && r % 10 == e) by (nonlinear_arith)
        requires
            r == a * 1000 + b * 100 + d * 10 + e,
            0 <= a < 8,
            0 <= b < 8,
            0 <= d < 8,
            0 <= e < 8,
    ;
}

// ---------------------------------------------------------------------------
// Values held by octets

/// The unsigned value of the two octets of `s` at `p`, most significant first.
pub open spec fn octets_u16(s: Seq<u8>, p: int) -> int {
    s[p] as int * 256 + s[p + 1] as int
}

/// The unsigned value of the three octets of `s` at `p`, most significant first.
pub open spec fn octets_u24(s: Seq<u8>, p: int) -> int {
    s[p] as int * 65536 + s[p + 1] as int * 256 + s[p + 2] as int
}

/// The two's complement value of the two octets of `s` at `p`.
pub open spec fn octets_s16(s: Seq<u8>, p: int) -> int {
    octets_u16(s, p) - (if s[p] >= 128 { 0x1_0000int } else { 0int })
}

/// The two's complement value of the three octets of `s` at `p`.
pub open spec fn octets_s24(s: Seq<u8>, p: int) -> int {
    octets_u24(s, p) - (if s[p] >= 128 { 0x100_0000int } else { 0int })
}

/// The two's complement value of the four octets of `s` at `p`.
pub open spec fn octets_s32(s: Seq<u8>, p: int) -> int {
    s[p] as int * 16777216 + s[p + 1] as int * 65536 + s[p + 2] as int * 256 + s[p + 3] as int - (if s[p]
        >= 128 {
        0x1_0000_0000int
    } else {
        0int
    })
}

/// The two's complement value of one octet.
pub open spec fn octet_s8(o: u8) -> int {
    o as int - (if o >= 128 { 256int } else { 0int })
}

/// Whether `v` is the run of octets of `s` that starts at `p`, as it stands.
pub open spec fn octets_at(s: Seq<u8>, p: int, v: Seq<u8>) -> bool {
    0 <= p && p + v.len() <= s.len() && v == s.subrange(p, p + v.len())
}

proof fn lemma_u16_octets(s: Seq<u8>, p: int)
    requires
        0 <= p,
        p + 2 <= s.len(),
    ensures
        be16(s[p], s[p + 1]) as int == octets_u16(s, p),
        i16_of(be16(s[p], s[p + 1])) as int == octets_s16(s, p),
{
}

proof fn lemma_u24_octets(s: Seq<u8>, p: int)
    requires
        0 <= p,
        p + 3 <= s.len(),
    ensures
        be24(s[p], s[p + 1], s[p + 2]) as int == octets_u24(s, p),
        i24_of(be24(s[p], s[p + 1], s[p + 2])) as int == octets_s24(s, p),
{
}

proof fn lemma_s32_octets(s: Seq<u8>, p: int)
    requires
        0 <= p,
        p + 4 <= s.len(),
    ensures
        i32_of(be32(s[p], s[p + 1], s[p + 2], s[p + 3])) as int == octets_s32(s, p),
{
}

proof fn lemma_octet_bits(o: u8)
    ensures
        (o & 0x80 != 0) == (o >= 128),
        (o & 0x40 != 0) == ((o / 64) % 2 == 1),
        (o & 0x20 != 0) == ((o / 32) % 2 == 1),
        (o & 0x02 != 0) == ((o / 2) % 2 == 1),
        (o >> 2) & 0x07 == (o / 4) % 8,
        (o >> 6) & 0x03 == o / 64,
        o >> 5 == o / 32,
        i8_of(o) as int == octet_s8(o),
{
    assert((o & 0x80 != 0) == (o >= 128)) by (bit_vector);
    assert((o & 0x40 != 0) == ((o / 64) % 2 == 1)) by (bit_vector);
    assert((o & 0x20 != 0) == ((o / 32) % 2 == 1)) by (bit_vector);
    assert((o & 0x02 != 0) == ((o / 2) % 2 == 1)) by (bit_vector);
    assert((o >> 2) & 0x07 == (o / 4) % 8) by (bit_vector);
    assert((o >> 6) & 0x03 == o / 64) by (bit_vector);
    assert(o >> 5 == o / 32) by (bit_vector);
}

proof fn lemma_be16_bits(hi: u8, lo: u8)
    ensures
        (be16(hi, lo) & 0x8000 != 0) == (hi >= 128),
        (be16(hi, lo) & 0x4000 != 0) == ((hi / 64) % 2 == 1),
        (be16(hi, lo) & 0x2000 != 0) == ((hi / 32) % 2 == 1),
        (be16(hi, lo) & 0x0FFF) as int == (hi % 16) as int * 256 + lo as int,
        (be16(hi, lo) & 0x3FFF) as int == (hi % 64) as int * 256 + lo as int,
        (be16(hi, lo) & 0x7FFF) as int == (hi % 128) as int * 256 + lo as int,
{
    let v = be16(hi, lo);
    let h = hi as u16;
    let l = lo as u16;
    assert(v == h * 256 + l);
    assert((v & 0x8000 != 0) == (h >= 128) && (v & 0x4000 != 0) == ((h / 64) % 2 == 1) && (v & 0x2000 != 0) == ((h
        / 32) % 2 == 1) && v & 0x0FFF == (h % 16) * 256 + l && v & 0x3FFF == (h % 64) * 256 + l && v & 0x7FFF == (h
        % 128) * 256 + l) by (bit_vector)
        requires
            v == h * 256 + l,
            h < 256,
            l < 256,
    ;
}

proof fn lemma_u16_flag_bits(v: u16)
    ensures
        (v & 0x0800 != 0) == ((v / 2048) % 2 == 1),
        (v & 0x0400 != 0) == ((v / 1024) % 2 == 1),
        (v & 0x0200 != 0) == ((v / 512) % 2 == 1),
        (v & 0x0100 != 0) == ((v / 256) % 2 == 1),
        (v & 0x0080 != 0) == ((v / 128) % 2 == 1),
        (v & 0x0040 != 0) == ((v / 64) % 2 == 1),
        (v & 0x0020 != 0) == ((v / 32) % 2 == 1),
        (v & 0x0010 != 0) == ((v / 16) % 2 == 1),
        (v & 0x0008 != 0) == ((v / 8) % 2 == 1),
        (v & 0x0004 != 0) == ((v / 4) % 2 == 1),
        (v & 0x0002 != 0) == ((v / 2) % 2 == 1),
        (v & 0x0001 != 0) == (v % 2 == 1),
{
    assert((v & 0x0800 != 0) == ((v / 2048) % 2 == 1)) by (bit_vector);
    assert((v & 0x0400 != 0) == ((v / 1024) % 2 == 1)) by (bit_vector);
    assert((v & 0x0200 != 0) == ((v / 512) % 2 == 1)) by (bit_vector);
    assert((v & 0x0100 != 0) == ((v / 256) % 2 == 1)) by (bit_vector);
    assert((v & 0x0080 != 0) == ((v / 128) % 2 == 1)) by (bit_vector);
    assert((v & 0x0040 != 0) == ((v / 64) % 2 == 1)) by (bit_vector);
    assert((v & 0x0020 != 0) == ((v / 32) % 2 == 1)) by (bit_vector);
    assert((v & 0x0010 != 0) == ((v / 16) % 2 == 1)) by (bit_vector);
    assert((v & 0x0008 != 0) == ((v / 8) % 2 == 1)) by (bit_vector);
    assert((v & 0x0004 != 0) == ((v / 4) % 2 == 1)) by (bit_vector);
    assert((v & 0x0002 != 0) == ((v / 2) % 2 == 1)) by (bit_vector);
    assert((v & 0x0001 != 0) == (v % 2 == 1)) by (bit_vector);
}

proof fn lemma_fx_chain_octets(s: Seq<u8>, p: int)
    ensures
        spec_fx_chain(s, p) matches Ok((o, q)) ==> 1 <= o.len() && q == p + o.len() && octets_at(s, p, o),
{
}

proof fn lemma_fx_octets_octets(s: Seq<u8>, p: int, max: int, e: AsterixError)
    ensures
        spec_fx_octets(s, p, max, e) matches Ok((o, q)) ==> 1 <= o.len() && q == p + o.len() && octets_at(s, p, o),
{
}

proof fn lemma_i062_510_more_octets(s: Seq<u8>, p: int, g: int)
    ensures
        spec_i062_510_more(s, p, g) matches Ok((v, q)) ==> q == p + v.len() && octets_at(s, p, v),
    decreases 11 - g,
{
    if 0 <= p && p + 3 <= s.len() && 3 * (g + 1) <= 30 {
        let grp = s.subrange(p, p + 3);
        if grp[2] & 1 != 0 {
            lemma_i062_510_more_octets(s, p + 3, g + 1);
            if let Ok((rest, r)) = spec_i062_510_more(s, p + 3, g + 1) {
                assert(grp + rest =~= s.subrange(p, r));
            }
        }
    }
}

proof fn lemma_i062_510_octets(s: Seq<u8>, p: int)
    ensures
        spec_i062_510(s, p) matches Ok((v, q)) ==> q == p + v.len() && octets_at(s, p, v),
{
    if 0 <= p && p + 3 <= s.len() {
        let grp = s.subrange(p, p + 3);
        if grp[2] & 1 != 0 {
            lemma_i062_510_more_octets(s, p + 3, 1);
            if let Ok((rest, r)) = spec_i062_510_more(s, p + 3, 1) {
                assert(grp + rest =~= s.subrange(p, r));
            }
        }
    }
}

proof fn lemma_i062_380_subfield_octets(i: int, s: Seq<u8>, p: int)
    requires
        0 <= i < 28,
    ensures
        spec_i062_380_subfield(i, s, p) matches Ok((v, q)) ==> q == p + v.len() && octets_at(s, p, v),
{
    lemma_fx_chain_octets(s, p);
    if i == 8 || i == 24 {
        let w: int = if i == 8 { 15 } else { 8 };
        if 0 <= p < s.len() {
            let n = s[p];
            if p + 1 + n * w <= s.len() {
                assert(seq![n] + s.subrange(p + 1, p + 1 + n * w) =~= s.subrange(p, p + 1 + n * w));
            }
        }
    } else if i == 10 {
        if let Ok((d, q)) = spec_fx_chain(s, p) {
            if 0 <= q < s.len() {
                assert(d.push(s[q]) =~= s.subrange(p, q + 1));
            }
        }
    }
}

proof fn lemma_i062_380_upto_octets(s: Seq<u8>, ind: Seq<u8>, p0: int, k: int)
    requires
        octets_at(s, p0, ind),
    ensures
        spec_i062_380_upto(s, ind, p0 + ind.len(), k) matches Ok((acc, q)) ==> q == p0 + acc.len() && octets_at(
            s,
            p0,
            acc,
        ),
    decreases k,
{
    if k > 0 {
        lemma_i062_380_upto_octets(s, ind, p0, k - 1);
        if let Ok((acc, q)) = spec_i062_380_upto(s, ind, p0 + ind.len(), k - 1) {
            if k - 1 < 28 && announced(ind, k - 1) {
                lemma_i062_380_subfield_octets(k - 1, s, q);
                if let Ok((b, r)) = spec_i062_380_subfield(k - 1, s, q) {
                    assert(acc + b =~= s.subrange(p0, r));
                }
            }
        }
    } else {
        assert(ind =~= s.subrange(p0, p0 + ind.len()));
    }
}

proof fn lemma_i062_380_octets(s: Seq<u8>, p: int)
    ensures
        spec_i062_380(s, p) matches Ok((v, q)) ==> q == p + v.len() && octets_at(s, p, v),
{
    lemma_fx_chain_octets(s, p);
    if let Ok((ind, q)) = spec_fx_chain(s, p) {
        lemma_i062_380_upto_octets(s, ind, p, 7 * ind.len() as int);
    }
}

proof fn lemma_compound_octets(s: Seq<u8>, p: int, sizes: Option<Seq<usize>>)
    ensures
        spec_compound(s, p, sizes) matches Ok((o, q)) ==> octets_at(s, p, o),
{
    lemma_fx_chain_octets(s, p);
    if let Ok((ind, q)) = spec_fx_chain(s, p) {
        let n = subfields_len(ind, sizes, 7 * ind.len() as int);
        if 0 <= n && q + n <= s.len() {
            assert(ind + s.subrange(q, q + n) =~= s.subrange(p, q + n));
        }
    }
}

// ---------------------------------------------------------------------------
// Records that carry a single item

/// The FSPEC that announces item `k` (from 0) and no other: the octets before
/// the one that holds item `k`'s bit carry only their FX bit, and that octet
/// carries only item `k`'s bit.
pub open spec fn single_item_fspec(k: int) -> Seq<u8> {
    Seq::new((k / 7 + 1) as nat, |i: int| if i < k / 7 { 1u8 } else { presence_mask(k % 7) })
}

proof fn lemma_mask_bits(b1: int, b2: int)
    requires
        0 <= b1 < 7,
        0 <= b2 < 7,
    ensures
        (presence_mask(b1) & presence_mask(b2) != 0) == (b1 == b2),
        1u8 & presence_mask(b1) == 0,
{
    let m1 = presence_mask(b1);
    let m2 = presence_mask(b2);
    assert((m1 == m2) == (b1 == b2));
    assert((m1 & m2 != 0) == (m1 == m2) && 1u8 & m1 == 0) by (bit_vector)
        requires
            m1 == 0x80 || m1 == 0x40 || m1 == 0x20 || m1 == 0x10 || m1 == 0x08 || m1 == 0x04 || m1 == 0x02,
            m2 == 0x80 || m2 == 0x40 || m2 == 0x20 || m2 == 0x10 || m2 == 0x08 || m2 == 0x04 || m2 == 0x02,
    ;
}

proof fn lemma_single_fspec_run(s: Seq<u8>, k: int, i: int)
    requires
        0 <= k,
        0 <= i <= k / 7,
        k / 7 + 1 <= s.len(),
        s.subrange(0, k / 7 + 1) == single_item_fspec(k),
    ensures
        fx_run(s, i) == k / 7 - i,
    decreases k / 7 - i,
{
    assert(s[i] == single_item_fspec(k)[i]);
    lemma_mask_bits(k % 7, k % 7);
    let m = presence_mask(k % 7);
    assert(m & 1 == 0) by (bit_vector)
        requires
            m == 0x80 || m == 0x40 || m == 0x20 || m == 0x10 || m == 0x08 || m == 0x04 || m == 0x02,
    ;
    assert(1u8 & 1 != 0) by (bit_vector);
    if i < k / 7 {
        lemma_single_fspec_run(s, k, i + 1);
    }
}

proof fn lemma_single_fspec(s: Seq<u8>, k: int, max: int, e: AsterixError)
    requires
        0 <= k,
        k / 7 + 1 <= max,
        k / 7 + 1 <= s.len(),
        s.subrange(0, k / 7 + 1) == single_item_fspec(k),
    ensures
        spec_fx_octets(s, 0, max, e) == Ok::<(Seq<u8>, int), AsterixError>((single_item_fspec(k), k / 7 + 1)),
        forall|j: int| #[trigger] announced(single_item_fspec(k), j) <==> j == k,
{
    lemma_single_fspec_run(s, k, 0);
    let f = single_item_fspec(k);
    assert forall|j: int| #[trigger] announced(f, j) <==> j == k by {
        if 0 <= j < 7 * f.len() {
            lemma_mask_bits(k % 7, j % 7);
            lemma_mask_bits(j % 7, k % 7);
        }
    }
}

// ---------------------------------------------------------------------------
// CAT062

/// The `data_source_id` of a CAT062 record (item number 0 from 0) as read from the octets of `s` at
/// `p`.
pub open spec fn cat062_data_source_id_at(s: Seq<u8>, p: int, v: DataSourceId) -> bool {
    &&& 0 <= p
    &&& p + 2 <= s.len()
    &&& v.sac == s[p]
    &&& v.sic == s[p + 1]
}

/// The `service_id` of a CAT062 record (item number 2 from 0) as read from the octets of `s` at
/// `p`.
pub open spec fn cat062_service_id_at(s: Seq<u8>, p: int, v: u8) -> bool {
    &&& 0 <= p
    &&& p + 1 <= s.len()
    &&& v == s[p]
}

/// The `time_of_track` of a CAT062 record (item number 3 from 0) as read from the octets of `s` at
/// `p`.
pub open spec fn cat062_time_of_track_at(s: Seq<u8>, p: int, v: u32) -> bool {
    &&& 0 <= p
    &&& p + 3 <= s.len()
    &&& v as int == octets_u24(s, p)
}

/// The `position_wgs84` of a CAT062 record (item number 4 from 0) as read from the octets of `s` at
/// `p`.
pub open spec fn cat062_position_wgs84_at(s: Seq<u8>, p: int, v: PositionWGS84) -> bool {
    &&& 0 <= p
    &&& p + 8 <= s.len()
    &&& v.latitude_raw as int == octets_s32(s, p)
    &&& v.longitude_raw as int == octets_s32(s, p + 4)
}

/// The `position_cartesian` of a CAT062 record (item number 5 from 0) as read from the octets of
/// `s` at `p`.
pub open spec fn cat062_position_cartesian_at(s: Seq<u8>, p: int, v: PositionCartesian) -> bool {
    &&& 0 <= p
    &&& p + 6 <= s.len()
    &&& v.x_raw as int == octets_s24(s, p)
    &&& v.y_raw as int == octets_s24(s, p + 3)
}

/// The `velocity_cartesian` of a CAT062 record (item number 6 from 0) as read from the octets of
/// `s` at `p`.
pub open spec fn cat062_velocity_cartesian_at(s: Seq<u8>, p: int, v: VelocityCartesian) -> bool {
    &&& 0 <= p
    &&& p + 4 <= s.len()
    &&& v.vx_raw as int == octets_s16(s, p)
    &&& v.vy_raw as int == octets_s16(s, p + 2)
}

/// The `acceleration` of a CAT062 record (item number 7 from 0) as read from the octets of `s` at
/// `p`.
pub open spec fn cat062_acceleration_at(s: Seq<u8>, p: int, v: Acceleration) -> bool {
    &&& 0 <= p
    &&& p + 2 <= s.len()
    &&& v.ax_raw as int == octet_s8(s[p])
    &&& v.ay_raw as int == octet_s8(s[p + 1])
}

/// A CAT062 Mode 3/A code (I062/060) read from the two octets of `s` at `p`: V, G and CH are the
/// three top bits of the first octet, the code its low four bits followed by the second octet.
pub open spec fn cat062_mode_3a_at(s: Seq<u8>, p: int, v: Mode3ACode) -> bool {
    &&& 0 <= p
    &&& p + 2 <= s.len()
    &&& v.v == (s[p] >= 128)
    &&& v.g == ((s[p] / 64) % 2 == 1)
    &&& v.ch == ((s[p] / 32) % 2 == 1)
    &&& v.code_raw as int == (s[p] % 16) as int * 256 + s[p + 1] as int
}

/// The `target_id` of a CAT062 record (item number 9 from 0) as read from the octets of `s` at `p`.
pub open spec fn cat062_target_id_at(s: Seq<u8>, p: int, v: TargetIdentificationView) -> bool {
    &&& 0 <= p
    &&& p + 7 <= s.len()
    &&& v.sti == s[p] / 64
    &&& v.callsign == decoded_callsign(s.subrange(p + 1, p + 7))
}

/// The `track_number` of a CAT062 record (item number 11 from 0) as read from the octets of `s` at
/// `p`.
pub open spec fn cat062_track_number_at(s: Seq<u8>, p: int, v: u16) -> bool {
    &&& 0 <= p
    &&& p + 2 <= s.len()
    &&& v as int == octets_u16(s, p)
}

/// A CAT062 track status (I062/080) read from `s` at `p`: it keeps the item's octets, and MON, SPI,
/// MRH, SRC ((first / 4) % 8) and CNF come from the first of them.
pub open spec fn cat062_track_status_at(s: Seq<u8>, p: int, v: TrackStatusView) -> bool {
    &&& 0 <= p
    &&& 1 <= v.octets.len()
    &&& octets_at(s, p, v.octets)
    &&& v.mon == (s[p] >= 128)
    &&& v.spi == ((s[p] / 64) % 2 == 1)
    &&& v.mrh == ((s[p] / 32) % 2 == 1)
    &&& v.src == (s[p] / 4) % 8
    &&& v.cnf == ((s[p] / 2) % 2 == 1)
}

/// The `mode_of_movement` of a CAT062 record (item number 14 from 0) as read from the octets of `s`
/// at `p`.
pub open spec fn cat062_mode_of_movement_at(s: Seq<u8>, p: int, v: u8) -> bool {
    &&& 0 <= p
    &&& p + 1 <= s.len()
    &&& v == s[p]
}

/// The `measured_flight_level` of a CAT062 record (item number 16 from 0) as read from the octets
/// of `s` at `p`.
pub open spec fn cat062_measured_flight_level_at(s: Seq<u8>, p: int, v: i16) -> bool {
    &&& 0 <= p
    &&& p + 2 <= s.len()
    &&& v as int == octets_s16(s, p)
}

/// The `geometric_altitude` of a CAT062 record (item number 17 from 0) as read from the octets of
/// `s` at `p`.
pub open spec fn cat062_geometric_altitude_at(s: Seq<u8>, p: int, v: i16) -> bool {
    &&& 0 <= p
    &&& p + 2 <= s.len()
    &&& v as int == octets_s16(s, p)
}

/// The `barometric_altitude` of a CAT062 record (item number 18 from 0) as read from the octets of
/// `s` at `p`.
pub open spec fn cat062_barometric_altitude_at(s: Seq<u8>, p: int, v: BarometricAltitude) -> bool {
    &&& 0 <= p
    &&& p + 2 <= s.len()
    &&& v.qnh == (s[p] >= 128)
    &&& v.altitude_raw as int == (s[p] % 128) as int * 256 + s[p + 1] as int
}

/// The `rate_of_climb` of a CAT062 record (item number 19 from 0) as read from the octets of `s` at
/// `p`.
pub open spec fn cat062_rate_of_climb_at(s: Seq<u8>, p: int, v: i16) -> bool {
    &&& 0 <= p
    &&& p + 2 <= s.len()
    &&& v as int == octets_s16(s, p)
}

/// The `target_size` of a CAT062 record (item number 21 from 0) as read from the octets of `s` at
/// `p`.
pub open spec fn cat062_target_size_at(s: Seq<u8>, p: int, v: Seq<u8>) -> bool {
    &&& 0 <= p
    &&& 1 <= v.len()
    &&& octets_at(s, p, v)
}

/// The `vehicle_fleet_id` of a CAT062 record (item number 22 from 0) as read from the octets of `s`
/// at `p`.
pub open spec fn cat062_vehicle_fleet_id_at(s: Seq<u8>, p: int, v: u8) -> bool {
    &&& 0 <= p
    &&& p + 1 <= s.len()
    &&& v == s[p]
}

/// The `mode_2_code` of a CAT062 record (item number 24 from 0) as read from the octets of `s` at
/// `p`.
pub open spec fn cat062_mode_2_code_at(s: Seq<u8>, p: int, v: u16) -> bool {
    &&& 0 <= p
    &&& p + 2 <= s.len()
    &&& v as int == octets_u16(s, p)
}

/// The `system_track_update_ages` of a CAT062 record (item number 13 from 0) as read from the
/// octets of `s` at `p`.
pub open spec fn cat062_system_track_update_ages_at(s: Seq<u8>, p: int, v: Seq<u8>) -> bool {
    &&& 0 <= p
    &&& octets_at(s, p, v)
}

/// The `track_data_ages` of a CAT062 record (item number 15 from 0) as read from the octets of `s`
/// at `p`.
pub open spec fn cat062_track_data_ages_at(s: Seq<u8>, p: int, v: Seq<u8>) -> bool {
    &&& 0 <= p
    &&& octets_at(s, p, v)
}

/// The `flight_plan_data` of a CAT062 record (item number 20 from 0) as read from the octets of `s`
/// at `p`.
pub open spec fn cat062_flight_plan_data_at(s: Seq<u8>, p: int, v: Seq<u8>) -> bool {
    &&& 0 <= p
    &&& octets_at(s, p, v)
}

/// The `mode_5_data` of a CAT062 record (item number 23 from 0) as read from the octets of `s` at
/// `p`.
pub open spec fn cat062_mode_5_data_at(s: Seq<u8>, p: int, v: Seq<u8>) -> bool {
    &&& 0 <= p
    &&& octets_at(s, p, v)
}

/// The `estimated_accuracies` of a CAT062 record (item number 26 from 0) as read from the octets of
/// `s` at `p`.
pub open spec fn cat062_estimated_accuracies_at(s: Seq<u8>, p: int, v: Seq<u8>) -> bool {
    &&& 0 <= p
    &&& octets_at(s, p, v)
}

/// The `measured_info` of a CAT062 record (item number 27 from 0) as read from the octets of `s` at
/// `p`.
pub open spec fn cat062_measured_info_at(s: Seq<u8>, p: int, v: Seq<u8>) -> bool {
    &&& 0 <= p
    &&& octets_at(s, p, v)
}

/// The `aircraft_derived_data` of a CAT062 record (item number 10 from 0) as read from the octets
/// of `s` at `p`.
pub open spec fn cat062_aircraft_derived_data_at(s: Seq<u8>, p: int, v: Seq<u8>) -> bool {
    &&& 0 <= p
    &&& octets_at(s, p, v)
}

/// The `composed_track_number` of a CAT062 record (item number 25 from 0) as read from the octets
/// of `s` at `p`.
pub open spec fn cat062_composed_track_number_at(s: Seq<u8>, p: int, v: Seq<u8>) -> bool {
    &&& 0 <= p
    &&& octets_at(s, p, v)
}

/// Every item field of a CAT062 record listed here comes from octets of `s`, laid out as
/// that item lays them out.
pub open spec fn cat062_fields_from(s: Seq<u8>, r: Cat062View) -> bool {
    &&& (r.data_source_id matches Some(v) ==> exists|p: int| cat062_data_source_id_at(s, p, v))
    &&& (r.service_id matches Some(v) ==> exists|p: int| cat062_service_id_at(s, p, v))
    &&& (r.time_of_track matches Some(v) ==> exists|p: int| cat062_time_of_track_at(s, p, v))
    &&& (r.position_wgs84 matches Some(v) ==> exists|p: int| cat062_position_wgs84_at(s, p, v))
    &&& (r.position_cartesian matches Some(v) ==> exists|p: int| cat062_position_cartesian_at(s, p, v))
    &&& (r.velocity_cartesian matches Some(v) ==> exists|p: int| cat062_velocity_cartesian_at(s, p, v))
    &&& (r.acceleration matches Some(v) ==> exists|p: int| cat062_acceleration_at(s, p, v))
    &&& (r.mode_3a matches Some(v) ==> exists|p: int| cat062_mode_3a_at(s, p, v))
    &&& (r.target_id matches Some(v) ==> exists|p: int| cat062_target_id_at(s, p, v))
    &&& (r.track_number matches Some(v) ==> exists|p: int| cat062_track_number_at(s, p, v))
    &&& (r.track_status matches Some(v) ==> exists|p: int| cat062_track_status_at(s, p, v))
    &&& (r.mode_of_movement matches Some(v) ==> exists|p: int| cat062_mode_of_movement_at(s, p, v))
    &&& (r.measured_flight_level matches Some(v) ==> exists|p: int| cat062_measured_flight_level_at(s, p, v))
    &&& (r.geometric_altitude matches Some(v) ==> exists|p: int| cat062_geometric_altitude_at(s, p, v))
    &&& (r.barometric_altitude matches Some(v) ==> exists|p: int| cat062_barometric_altitude_at(s, p, v))
    &&& (r.rate_of_climb matches Some(v) ==> exists|p: int| cat062_rate_of_climb_at(s, p, v))
    &&& (r.target_size matches Some(v) ==> exists|p: int| cat062_target_size_at(s, p, v))
    &&& (r.vehicle_fleet_id matches Some(v) ==> exists|p: int| cat062_vehicle_fleet_id_at(s, p, v))
    &&& (r.mode_2_code matches Some(v) ==> exists|p: int| cat062_mode_2_code_at(s, p, v))
    &&& (r.system_track_update_ages matches Some(v) ==> exists|p: int| cat062_system_track_update_ages_at(s, p, v))
    &&& (r.track_data_ages matches Some(v) ==> exists|p: int| cat062_track_data_ages_at(s, p, v))
    &&& (r.flight_plan_data matches Some(v) ==> exists|p: int| cat062_flight_plan_data_at(s, p, v))
    &&& (r.mode_5_data matches Some(v) ==> exists|p: int| cat062_mode_5_data_at(s, p, v))
    &&& (r.estimated_accuracies matches Some(v) ==> exists|p: int| cat062_estimated_accuracies_at(s, p, v))
    &&& (r.measured_info matches Some(v) ==> exists|p: int| cat062_measured_info_at(s, p, v))
    &&& (r.aircraft_derived_data matches Some(v) ==> exists|p: int| cat062_aircraft_derived_data_at(s, p, v))
    &&& (r.composed_track_number matches Some(v) ==> exists|p: int| cat062_composed_track_number_at(s, p, v))
}

proof fn lemma_cat062_item_fields(s: Seq<u8>, k: int, r: Cat062View, p: int)
    requires
        0 <= k < 28,
    ensures
        cat062_item(s, k, r, p) matches Ok((r2, q)) ==> {
            &&& (k != 0 ==> r2.data_source_id == r.data_source_id)
            &&& (k == 0 ==> (r2.data_source_id matches Some(v) && cat062_data_source_id_at(s, p, v)))
            &&& (k != 2 ==> r2.service_id == r.service_id)
            &&& (k == 2 ==> (r2.service_id matches Some(v) && cat062_service_id_at(s, p, v)))
            &&& (k != 3 ==> r2.time_of_track == r.time_of_track)
            &&& (k == 3 ==> (r2.time_of_track matches Some(v) && cat062_time_of_track_at(s, p, v)))
            &&& (k != 4 ==> r2.position_wgs84 == r.position_wgs84)
            &&& (k == 4 ==> (r2.position_wgs84 matches Some(v) && cat062_position_wgs84_at(s, p, v)))
            &&& (k != 5 ==> r2.position_cartesian == r.position_cartesian)
            &&& (k == 5 ==> (r2.position_cartesian matches Some(v) && cat062_position_cartesian_at(s, p, v)))
            &&& (k != 6 ==> r2.velocity_cartesian == r.velocity_cartesian)
            &&& (k == 6 ==> (r2.velocity_cartesian matches Some(v) && cat062_velocity_cartesian_at(s, p, v)))
            &&& (k != 7 ==> r2.acceleration == r.acceleration)
            &&& (k == 7 ==> (r2.acceleration matches Some(v) && cat062_acceleration_at(s, p, v)))
            &&& (k != 8 ==> r2.mode_3a == r.mode_3a)
            &&& (k == 8 ==> (r2.mode_3a matches Some(v) && cat062_mode_3a_at(s, p, v)))
            &&& (k != 9 ==> r2.target_id == r.target_id)
            &&& (k == 9 ==> (r2.target_id matches Some(v) && cat062_target_id_at(s, p, v)))
            &&& (k != 11 ==> r2.track_number == r.track_number)
            &&& (k == 11 ==> (r2.track_number matches Some(v) && cat062_track_number_at(s, p, v)))
            &&& (k != 12 ==> r2.track_status == r.track_status)
            &&& (k == 12 ==> (r2.track_status matches Some(v) && cat062_track_status_at(s, p, v)))
            &&& (k != 14 ==> r2.mode_of_movement == r.mode_of_movement)
            &&& (k == 14 ==> (r2.mode_of_movement matches Some(v) && cat062_mode_of_movement_at(s, p, v)))
            &&& (k != 16 ==> r2.measured_flight_level == r.measured_flight_level)
            &&& (k == 16 ==> (r2.measured_flight_level matches Some(v) && cat062_measured_flight_level_at(s, p, v)))
            &&& (k != 17 ==> r2.geometric_altitude == r.geometric_altitude)
            &&& (k == 17 ==> (r2.geometric_altitude matches Some(v) && cat062_geometric_altitude_at(s, p, v)))
            &&& (k != 18 ==> r2.barometric_altitude == r.barometric_altitude)
            &&& (k == 18 ==> (r2.barometric_altitude matches Some(v) && cat062_barometric_altitude_at(s, p, v)))
            &&& (k != 19 ==> r2.rate_of_climb == r.rate_of_climb)
            &&& (k == 19 ==> (r2.rate_of_climb matches Some(v) && cat062_rate_of_climb_at(s, p, v)))
            &&& (k != 21 ==> r2.target_size == r.target_size)
            &&& (k == 21 ==> (r2.target_size matches Some(v) && cat062_target_size_at(s, p, v)))
            &&& (k != 22 ==> r2.vehicle_fleet_id == r.vehicle_fleet_id)
            &&& (k == 22 ==> (r2.vehicle_fleet_id matches Some(v) && cat062_vehicle_fleet_id_at(s, p, v)))
            &&& (k != 24 ==> r2.mode_2_code == r.mode_2_code)
            &&& (k == 24 ==> (r2.mode_2_code matches Some(v) && cat062_mode_2_code_at(s, p, v)))
            &&& (k != 13 ==> r2.system_track_update_ages == r.system_track_update_ages)
            &&& (k == 13 ==> (r2.system_track_update_ages matches Some(v) && cat062_system_track_update_ages_at(s, p, v)))
            &&& (k != 15 ==> r2.track_data_ages == r.track_data_ages)
            &&& (k == 15 ==> (r2.track_data_ages matches Some(v) && cat062_track_data_ages_at(s, p, v)))
            &&& (k != 20 ==> r2.flight_plan_data == r.flight_plan_data)
            &&& (k == 20 ==> (r2.flight_plan_data matches Some(v) && cat062_flight_plan_data_at(s, p, v)))
            &&& (k != 23 ==> r2.mode_5_data == r.mode_5_data)
            &&& (k == 23 ==> (r2.mode_5_data matches Some(v) && cat062_mode_5_data_at(s, p, v)))
            &&& (k != 26 ==> r2.estimated_accuracies == r.estimated_accuracies)
            &&& (k == 26 ==> (r2.estimated_accuracies matches Some(v) && cat062_estimated_accuracies_at(s, p, v)))
            &&& (k != 27 ==> r2.measured_info == r.measured_info)
            &&& (k == 27 ==> (r2.measured_info matches Some(v) && cat062_measured_info_at(s, p, v)))
            &&& (k != 10 ==> r2.aircraft_derived_data == r.aircraft_derived_data)
            &&& (k == 10 ==> (r2.aircraft_derived_data matches Some(v) && cat062_aircraft_derived_data_at(s, p, v)))
            &&& (k != 25 ==> r2.composed_track_number == r.composed_track_number)
            &&& (k == 25 ==> (r2.composed_track_number matches Some(v) && cat062_composed_track_number_at(s, p, v)))
            &&& r2.fspec == r.fspec
        },
{
    reveal(cat062_item);
    if k == 3 {
        if 0 <= p && p + 3 <= s.len() {
            lemma_u24_octets(s, p);
        }
    } else if k == 4 {
        if 0 <= p && p + 8 <= s.len() {
            lemma_s32_octets(s, p); lemma_s32_octets(s, p + 4);
        }
    } else if k == 5 {
        if 0 <= p && p + 6 <= s.len() {
            lemma_u24_octets(s, p); lemma_u24_octets(s, p + 3);
        }
    } else if k == 6 {
        if 0 <= p && p + 4 <= s.len() {
            lemma_u16_octets(s, p); lemma_u16_octets(s, p + 2);
        }
    } else if k == 7 {
        if 0 <= p && p + 2 <= s.len() {
            lemma_octet_bits(s[p]); lemma_octet_bits(s[p + 1]);
        }
    } else if k == 8 {
        if 0 <= p && p + 2 <= s.len() {
            lemma_be16_bits(s[p], s[p + 1]);
        }
    } else if k == 9 {
        if 0 <= p && p + 7 <= s.len() {
            lemma_octet_bits(s[p]);
        }
    } else if k == 11 {
        if 0 <= p && p + 2 <= s.len() {
            lemma_u16_octets(s, p);
        }
    } else if k == 12 {
        lemma_fx_chain_octets(s, p); if 0 <= p < s.len() { lemma_octet_bits(s[p]); }
    } else if k == 16 {
        if 0 <= p && p + 2 <= s.len() {
            lemma_u16_octets(s, p);
        }
    } else if k == 17 {
        if 0 <= p && p + 2 <= s.len() {
            lemma_u16_octets(s, p);
        }
    } else if k == 18 {
        if 0 <= p && p + 2 <= s.len() {
            lemma_be16_bits(s[p], s[p + 1]);
        }
    } else if k == 19 {
        if 0 <= p && p + 2 <= s.len() {
            lemma_u16_octets(s, p);
        }
    } else if k == 21 {
        lemma_fx_chain_octets(s, p);
    } else if k == 24 {
        if 0 <= p && p + 2 <= s.len() {
            lemma_u16_octets(s, p);
        }
    } else if k == 13 {
        lemma_compound_octets(s, p, None);
    } else if k == 15 {
        lemma_compound_octets(s, p, None);
    } else if k == 20 {
        lemma_compound_octets(s, p, Some(crate::asterix::cat062_items::table_i062_390()));
    } else if k == 23 {
        lemma_compound_octets(s, p, Some(crate::asterix::cat062_items::table_i062_110()));
    } else if k == 26 {
        lemma_compound_octets(s, p, Some(crate::asterix::cat062_items::table_i062_500()));
    } else if k == 27 {
        lemma_compound_octets(s, p, Some(crate::asterix::cat062_items::table_i062_340()));
    } else if k == 10 {
        lemma_i062_380_octets(s, p);
    } else if k == 25 {
        lemma_i062_510_octets(s, p);
    }
}

proof fn lemma_cat062_items_fields(s: Seq<u8>, fspec: Seq<u8>, start: (Cat062View, int), k: int)
    requires
        cat062_fields_from(s, start.0),
        k <= 28,
    ensures
        cat062_items_upto(s, fspec, start, k) matches Ok((r, q)) ==> cat062_fields_from(s, r),
    decreases k,
{
    if k > 0 {
        lemma_cat062_items_fields(s, fspec, start, k - 1);
        if let Ok((r, p)) = cat062_items_upto(s, fspec, start, k - 1) {
            if announced(fspec, k - 1) {
                lemma_cat062_item_fields(s, k - 1, r, p);
                if let Ok((r2, q)) = cat062_item(s, k - 1, r, p) {
                    if k - 1 == 0 {
                        assert(cat062_data_source_id_at(s, p, r2.data_source_id->0));
                    }
                    if k - 1 == 2 {
                        assert(cat062_service_id_at(s, p, r2.service_id->0));
                    }
                    if k - 1 == 3 {
                        assert(cat062_time_of_track_at(s, p, r2.time_of_track->0));
                    }
                    if k - 1 == 4 {
                        assert(cat062_position_wgs84_at(s, p, r2.position_wgs84->0));
                    }
                    if k - 1 == 5 {
                        assert(cat062_position_cartesian_at(s, p, r2.position_cartesian->0));
                    }
                    if k - 1 == 6 {
                        assert(cat062_velocity_cartesian_at(s, p, r2.velocity_cartesian->0));
                    }
                    if k - 1 == 7 {
                        assert(cat062_acceleration_at(s, p, r2.acceleration->0));
                    }
                    if k - 1 == 8 {
                        assert(cat062_mode_3a_at(s, p, r2.mode_3a->0));
                    }
                    if k - 1 == 9 {
                        assert(cat062_target_id_at(s, p, r2.target_id->0));
                    }
                    if k - 1 == 11 {
                        assert(cat062_track_number_at(s, p, r2.track_number->0));
                    }
                    if k - 1 == 12 {
                        assert(cat062_track_status_at(s, p, r2.track_status->0));
                    }
                    if k - 1 == 14 {
                        assert(cat062_mode_of_movement_at(s, p, r2.mode_of_movement->0));
                    }
                    if k - 1 == 16 {
                        assert(cat062_measured_flight_level_at(s, p, r2.measured_flight_level->0));
                    }
                    if k - 1 == 17 {
                        assert(cat062_geometric_altitude_at(s, p, r2.geometric_altitude->0));
                    }
                    if k - 1 == 18 {
                        assert(cat062_barometric_altitude_at(s, p, r2.barometric_altitude->0));
                    }
                    if k - 1 == 19 {
                        assert(cat062_rate_of_climb_at(s, p, r2.rate_of_climb->0));
                    }
                    if k - 1 == 21 {
                        assert(cat062_target_size_at(s, p, r2.target_size->0));
                    }
                    if k - 1 == 22 {
                        assert(cat062_vehicle_fleet_id_at(s, p, r2.vehicle_fleet_id->0));
                    }
                    if k - 1 == 24 {
                        assert(cat062_mode_2_code_at(s, p, r2.mode_2_code->0));
                    }
                    if k - 1 == 13 {
                        assert(cat062_system_track_update_ages_at(s, p, r2.system_track_update_ages->0));
                    }
                    if k - 1 == 15 {
                        assert(cat062_track_data_ages_at(s, p, r2.track_data_ages->0));
                    }
                    if k - 1 == 20 {
                        assert(cat062_flight_plan_data_at(s, p, r2.flight_plan_data->0));
                    }
                    if k - 1 == 23 {
                        assert(cat062_mode_5_data_at(s, p, r2.mode_5_data->0));
                    }
                    if k - 1 == 26 {
                        assert(cat062_estimated_accuracies_at(s, p, r2.estimated_accuracies->0));
                    }
                    if k - 1 == 27 {
                        assert(cat062_measured_info_at(s, p, r2.measured_info->0));
                    }
                    if k - 1 == 10 {
                        assert(cat062_aircraft_derived_data_at(s, p, r2.aircraft_derived_data->0));
                    }
                    if k - 1 == 25 {
                        assert(cat062_composed_track_number_at(s, p, r2.composed_track_number->0));
                    }
                }
            }
        }
    }
}

/// A decoded CAT062 record takes each item field below from the octets of
/// the input, as the item lays them out (`p` is where the item starts):
/// SAC and SIC are I062/010's two octets; the time of track I062/070's three
/// octets; latitude and longitude I062/105's two signed four-octet halves,
/// and X, Y of I062/100 its signed three-octet halves; Vx, Vy (I062/185) and
/// the flight levels, altitude and rate of climb are signed two-octet
/// values; Ax, Ay are signed octets; for I062/060 V, G and CH are the three
/// top bits of the first octet and the code its low four bits followed by the
/// second; the track number and the Mode 2 code are two unsigned octets; the
/// track status keeps its octets, with MON, SPI, MRH, SRC ((first / 4) % 8)
/// and CNF taken from the first; QNH is the top bit of I062/135 and the
/// altitude the fifteen below; STI is the two top bits of I062/245 and the
/// callsign the IA-5 characters of the six octets after it; the items kept
/// raw hold their octets as they stand.
pub proof fn lemma_cat062_record_fields(s: Seq<u8>)
    ensures
        spec_parse_cat062_record(s) matches Ok((r, n)) ==> cat062_fields_from(s, r),
{
    if let Ok((fspec, p)) = spec_fx_octets(s, 0, 7, AsterixError::FspecTooLong) {
        lemma_cat062_items_fields(s, fspec, (empty_cat062(fspec), p), 28);
    }
}

proof fn lemma_cat062_data_source_id_shift(s: Seq<u8>, a: int, b: int, v: DataSourceId)
    requires
        0 <= a <= b <= s.len(),
        exists|p: int| cat062_data_source_id_at(s.subrange(a, b), p, v),
    ensures
        exists|p: int| cat062_data_source_id_at(s, p, v),
{
    let sub = s.subrange(a, b);
    let p = choose|p: int| cat062_data_source_id_at(sub, p, v);
    assert(sub[p + 0] == s[a + p + 0] && sub[p + 1] == s[a + p + 1]);
    assert(cat062_data_source_id_at(s, a + p, v));
}

proof fn lemma_cat062_service_id_shift(s: Seq<u8>, a: int, b: int, v: u8)
    requires
        0 <= a <= b <= s.len(),
        exists|p: int| cat062_service_id_at(s.subrange(a, b), p, v),
    ensures
        exists|p: int| cat062_service_id_at(s, p, v),
{
    let sub = s.subrange(a, b);
    let p = choose|p: int| cat062_service_id_at(sub, p, v);
    assert(sub[p + 0] == s[a + p + 0]);
    assert(cat062_service_id_at(s, a + p, v));
}

proof fn lemma_cat062_time_of_track_shift(s: Seq<u8>, a: int, b: int, v: u32)
    requires
        0 <= a <= b <= s.len(),
        exists|p: int| cat062_time_of_track_at(s.subrange(a, b), p, v),
    ensures
        exists|p: int| cat062_time_of_track_at(s, p, v),
{
    let sub = s.subrange(a, b);
    let p = choose|p: int| cat062_time_of_track_at(sub, p, v);
    assert(sub[p + 0] == s[a + p + 0] && sub[p + 1] == s[a + p + 1] && sub[p + 2] == s[a + p + 2]);
    assert(cat062_time_of_track_at(s, a + p, v));
}

proof fn lemma_cat062_position_wgs84_shift(s: Seq<u8>, a: int, b: int, v: PositionWGS84)
    requires
        0 <= a <= b <= s.len(),
        exists|p: int| cat062_position_wgs84_at(s.subrange(a, b), p, v),
    ensures
        exists|p: int| cat062_position_wgs84_at(s, p, v),
{
    let sub = s.subrange(a, b);
    let p = choose|p: int| cat062_position_wgs84_at(sub, p, v);
    assert(sub[p + 0] == s[a + p + 0] && sub[p + 1] == s[a + p + 1] && sub[p + 2] == s[a + p + 2] && sub[p + 3] == s[a + p + 3] && sub[p + 4] == s[a + p + 4] && sub[p + 5] == s[a + p + 5] && sub[p + 6] == s[a + p + 6] && sub[p + 7] == s[a + p + 7]);
    assert(cat062_position_wgs84_at(s, a + p, v));
}

proof fn lemma_cat062_position_cartesian_shift(s: Seq<u8>, a: int, b: int, v: PositionCartesian)
    requires
        0 <= a <= b <= s.len(),
        exists|p: int| cat062_position_cartesian_at(s.subrange(a, b), p, v),
    ensures
        exists|p: int| cat062_position_cartesian_at(s, p, v),
{
    let sub = s.subrange(a, b);
    let p = choose|p: int| cat062_position_cartesian_at(sub, p, v);
    assert(sub[p + 0] == s[a + p + 0] && sub[p + 1] == s[a + p + 1] && sub[p + 2] == s[a + p + 2] && sub[p + 3] == s[a + p + 3] && sub[p + 4] == s[a + p + 4] && sub[p + 5] == s[a + p + 5]);
    assert(cat062_position_cartesian_at(s, a + p, v));
}

proof fn lemma_cat062_velocity_cartesian_shift(s: Seq<u8>, a: int, b: int, v: VelocityCartesian)
    requires
        0 <= a <= b <= s.len(),
        exists|p: int| cat062_velocity_cartesian_at(s.subrange(a, b), p, v),
    ensures
        exists|p: int| cat062_velocity_cartesian_at(s, p, v),
{
    let sub = s.subrange(a, b);
    let p = choose|p: int| cat062_velocity_cartesian_at(sub, p, v);
    assert(sub[p + 0] == s[a + p + 0] && sub[p + 1] == s[a + p + 1] && sub[p + 2] == s[a + p + 2] && sub[p + 3] == s[a + p + 3]);
    assert(cat062_velocity_cartesian_at(s, a + p, v));
}

proof fn lemma_cat062_acceleration_shift(s: Seq<u8>, a: int, b: int, v: Acceleration)
    requires
        0 <= a <= b <= s.len(),
        exists|p: int| cat062_acceleration_at(s.subrange(a, b), p, v),
    ensures
        exists|p: int| cat062_acceleration_at(s, p, v),
{
    let sub = s.subrange(a, b);
    let p = choose|p: int| cat062_acceleration_at(sub, p, v);
    assert(sub[p + 0] == s[a + p + 0] && sub[p + 1] == s[a + p + 1]);
    assert(cat062_acceleration_at(s, a + p, v));
}

proof fn lemma_cat062_mode_3a_shift(s: Seq<u8>, a: int, b: int, v: Mode3ACode)
    requires
        0 <= a <= b <= s.len(),
        exists|p: int| cat062_mode_3a_at(s.subrange(a, b), p, v),
    ensures
        exists|p: int| cat062_mode_3a_at(s, p, v),
{
    let sub = s.subrange(a, b);
    let p = choose|p: int| cat062_mode_3a_at(sub, p, v);
    assert(sub[p + 0] == s[a + p + 0] && sub[p + 1] == s[a + p + 1]);
    assert(cat062_mode_3a_at(s, a + p, v));
}

proof fn lemma_cat062_target_id_shift(s: Seq<u8>, a: int, b: int, v: TargetIdentificationView)
    requires
        0 <= a <= b <= s.len(),
        exists|p: int| cat062_target_id_at(s.subrange(a, b), p, v),
    ensures
        exists|p: int| cat062_target_id_at(s, p, v),
{
    let sub = s.subrange(a, b);
    let p = choose|p: int| cat062_target_id_at(sub, p, v);
    assert(sub[p + 0] == s[a + p + 0] && sub[p + 1] == s[a + p + 1] && sub[p + 2] == s[a + p + 2] && sub[p + 3] == s[a + p + 3] && sub[p + 4] == s[a + p + 4] && sub[p + 5] == s[a + p + 5] && sub[p + 6] == s[a + p + 6]);
    assert(sub.subrange(p + 1, p + 7) =~= s.subrange(a + p + 1, a + p + 7));
    assert(cat062_target_id_at(s, a + p, v));
}

proof fn lemma_cat062_track_number_shift(s: Seq<u8>, a: int, b: int, v: u16)
    requires
        0 <= a <= b <= s.len(),
        exists|p: int| cat062_track_number_at(s.subrange(a, b), p, v),
    ensures
        exists|p: int| cat062_track_number_at(s, p, v),
{
    let sub = s.subrange(a, b);
    let p = choose|p: int| cat062_track_number_at(sub, p, v);
    assert(sub[p + 0] == s[a + p + 0] && sub[p + 1] == s[a + p + 1]);
    assert(cat062_track_number_at(s, a + p, v));
}

proof fn lemma_cat062_track_status_shift(s: Seq<u8>, a: int, b: int, v: TrackStatusView)
    requires
        0 <= a <= b <= s.len(),
        exists|p: int| cat062_track_status_at(s.subrange(a, b), p, v),
    ensures
        exists|p: int| cat062_track_status_at(s, p, v),
{
    let sub = s.subrange(a, b);
    let p = choose|p: int| cat062_track_status_at(sub, p, v);
    assert(sub[p] == s[a + p]);
    assert(sub.subrange(p, p + v.octets.len()) =~= s.subrange(a + p, a + p + v.octets.len()));
    assert(cat062_track_status_at(s, a + p, v));
}

proof fn lemma_cat062_mode_of_movement_shift(s: Seq<u8>, a: int, b: int, v: u8)
    requires
        0 <= a <= b <= s.len(),
        exists|p: int| cat062_mode_of_movement_at(s.subrange(a, b), p, v),
    ensures
        exists|p: int| cat062_mode_of_movement_at(s, p, v),
{
    let sub = s.subrange(a, b);
    let p = choose|p: int| cat062_mode_of_movement_at(sub, p, v);
    assert(sub[p + 0] == s[a + p + 0]);
    assert(cat062_mode_of_movement_at(s, a + p, v));
}

proof fn lemma_cat062_measured_flight_level_shift(s: Seq<u8>, a: int, b: int, v: i16)
    requires
        0 <= a <= b <= s.len(),
        exists|p: int| cat062_measured_flight_level_at(s.subrange(a, b), p, v),
    ensures
        exists|p: int| cat062_measured_flight_level_at(s, p, v),
{
    let sub = s.subrange(a, b);
    let p = choose|p: int| cat062_measured_flight_level_at(sub, p, v);
    assert(sub[p + 0] == s[a + p + 0] && sub[p + 1] == s[a + p + 1]);
    assert(cat062_measured_flight_level_at(s, a + p, v));
}

proof fn lemma_cat062_geometric_altitude_shift(s: Seq<u8>, a: int, b: int, v: i16)
    requires
        0 <= a <= b <= s.len(),
        exists|p: int| cat062_geometric_altitude_at(s.subrange(a, b), p, v),
    ensures
        exists|p: int| cat062_geometric_altitude_at(s, p, v),
{
    let sub = s.subrange(a, b);
    let p = choose|p: int| cat062_geometric_altitude_at(sub, p, v);
    assert(sub[p + 0] == s[a + p + 0] && sub[p + 1] == s[a + p + 1]);
    assert(cat062_geometric_altitude_at(s, a + p, v));
}

proof fn lemma_cat062_barometric_altitude_shift(s: Seq<u8>, a: int, b: int, v: BarometricAltitude)
    requires
        0 <= a <= b <= s.len(),
        exists|p: int| cat062_barometric_altitude_at(s.subrange(a, b), p, v),
    ensures
        exists|p: int| cat062_barometric_altitude_at(s, p, v),
{
    let sub = s.subrange(a, b);
    let p = choose|p: int| cat062_barometric_altitude_at(sub, p, v);
    assert(sub[p + 0] == s[a + p + 0] && sub[p + 1] == s[a + p + 1]);
    assert(cat062_barometric_altitude_at(s, a + p, v));
}

proof fn lemma_cat062_rate_of_climb_shift(s: Seq<u8>, a: int, b: int, v: i16)
    requires
        0 <= a <= b <= s.len(),
        exists|p: int| cat062_rate_of_climb_at(s.subrange(a, b), p, v),
    ensures
        exists|p: int| cat062_rate_of_climb_at(s, p, v),
{
    let sub = s.subrange(a, b);
    let p = choose|p: int| cat062_rate_of_climb_at(sub, p, v);
    assert(sub[p + 0] == s[a + p + 0] && sub[p + 1] == s[a + p + 1]);
    assert(cat062_rate_of_climb_at(s, a + p, v));
}

proof fn lemma_cat062_target_size_shift(s: Seq<u8>, a: int, b: int, v: Seq<u8>)
    requires
        0 <= a <= b <= s.len(),
        exists|p: int| cat062_target_size_at(s.subrange(a, b), p, v),
    ensures
        exists|p: int| cat062_target_size_at(s, p, v),
{
    let sub = s.subrange(a, b);
    let p = choose|p: int| cat062_target_size_at(sub, p, v);
    assert(sub.subrange(p, p + v.len()) =~= s.subrange(a + p, a + p + v.len()));
    assert(cat062_target_size_at(s, a + p, v));
}

proof fn lemma_cat062_vehicle_fleet_id_shift(s: Seq<u8>, a: int, b: int, v: u8)
    requires
        0 <= a <= b <= s.len(),
        exists|p: int| cat062_vehicle_fleet_id_at(s.subrange(a, b), p, v),
    ensures
        exists|p: int| cat062_vehicle_fleet_id_at(s, p, v),
{
    let sub = s.subrange(a, b);
    let p = choose|p: int| cat062_vehicle_fleet_id_at(sub, p, v);
    assert(sub[p + 0] == s[a + p + 0]);
    assert(cat062_vehicle_fleet_id_at(s, a + p, v));
}

proof fn lemma_cat062_mode_2_code_shift(s: Seq<u8>, a: int, b: int, v: u16)
    requires
        0 <= a <= b <= s.len(),
        exists|p: int| cat062_mode_2_code_at(s.subrange(a, b), p, v),
    ensures
        exists|p: int| cat062_mode_2_code_at(s, p, v),
{
    let sub = s.subrange(a, b);
    let p = choose|p: int| cat062_mode_2_code_at(sub, p, v);
    assert(sub[p + 0] == s[a + p + 0] && sub[p + 1] == s[a + p + 1]);
    assert(cat062_mode_2_code_at(s, a + p, v));
}

proof fn lemma_cat062_system_track_update_ages_shift(s: Seq<u8>, a: int, b: int, v: Seq<u8>)
    requires
        0 <= a <= b <= s.len(),
        exists|p: int| cat062_system_track_update_ages_at(s.subrange(a, b), p, v),
    ensures
        exists|p: int| cat062_system_track_update_ages_at(s, p, v),
{
    let sub = s.subrange(a, b);
    let p = choose|p: int| cat062_system_track_update_ages_at(sub, p, v);
    assert(sub.subrange(p, p + v.len()) =~= s.subrange(a + p, a + p + v.len()));
    assert(cat062_system_track_update_ages_at(s, a + p, v));
}

proof fn lemma_cat062_track_data_ages_shift(s: Seq<u8>, a: int, b: int, v: Seq<u8>)
    requires
        0 <= a <= b <= s.len(),
        exists|p: int| cat062_track_data_ages_at(s.subrange(a, b), p, v),
    ensures
        exists|p: int| cat062_track_data_ages_at(s, p, v),
{
    let sub = s.subrange(a, b);
    let p = choose|p: int| cat062_track_data_ages_at(sub, p, v);
    assert(sub.subrange(p, p + v.len()) =~= s.subrange(a + p, a + p + v.len()));
    assert(cat062_track_data_ages_at(s, a + p, v));
}

proof fn lemma_cat062_flight_plan_data_shift(s: Seq<u8>, a: int, b: int, v: Seq<u8>)
    requires
        0 <= a <= b <= s.len(),
        exists|p: int| cat062_flight_plan_data_at(s.subrange(a, b), p, v),
    ensures
        exists|p: int| cat062_flight_plan_data_at(s, p, v),
{
    let sub = s.subrange(a, b);
    let p = choose|p: int| cat062_flight_plan_data_at(sub, p, v);
    assert(sub.subrange(p, p + v.len()) =~= s.subrange(a + p, a + p + v.len()));
    assert(cat062_flight_plan_data_at(s, a + p, v));
}

proof fn lemma_cat062_mode_5_data_shift(s: Seq<u8>, a: int, b: int, v: Seq<u8>)
    requires
        0 <= a <= b <= s.len(),
        exists|p: int| cat062_mode_5_data_at(s.subrange(a, b), p, v),
    ensures
        exists|p: int| cat062_mode_5_data_at(s, p, v),
{
    let sub = s.subrange(a, b);
    let p = choose|p: int| cat062_mode_5_data_at(sub, p, v);
    assert(sub.subrange(p, p + v.len()) =~= s.subrange(a + p, a + p + v.len()));
    assert(cat062_mode_5_data_at(s, a + p, v));
}

proof fn lemma_cat062_estimated_accuracies_shift(s: Seq<u8>, a: int, b: int, v: Seq<u8>)
    requires
        0 <= a <= b <= s.len(),
        exists|p: int| cat062_estimated_accuracies_at(s.subrange(a, b), p, v),
    ensures
        exists|p: int| cat062_estimated_accuracies_at(s, p, v),
{
    let sub = s.subrange(a, b);
    let p = choose|p: int| cat062_estimated_accuracies_at(sub, p, v);
    assert(sub.subrange(p, p + v.len()) =~= s.subrange(a + p, a + p + v.len()));
    assert(cat062_estimated_accuracies_at(s, a + p, v));
}

proof fn lemma_cat062_measured_info_shift(s: Seq<u8>, a: int, b: int, v: Seq<u8>)
    requires
        0 <= a <= b <= s.len(),
        exists|p: int| cat062_measured_info_at(s.subrange(a, b), p, v),
    ensures
        exists|p: int| cat062_measured_info_at(s, p, v),
{
    let sub = s.subrange(a, b);
    let p = choose|p: int| cat062_measured_info_at(sub, p, v);
    assert(sub.subrange(p, p + v.len()) =~= s.subrange(a + p, a + p + v.len()));
    assert(cat062_measured_info_at(s, a + p, v));
}

proof fn lemma_cat062_aircraft_derived_data_shift(s: Seq<u8>, a: int, b: int, v: Seq<u8>)
    requires
        0 <= a <= b <= s.len(),
        exists|p: int| cat062_aircraft_derived_data_at(s.subrange(a, b), p, v),
    ensures
        exists|p: int| cat062_aircraft_derived_data_at(s, p, v),
{
    let sub = s.subrange(a, b);
    let p = choose|p: int| cat062_aircraft_derived_data_at(sub, p, v);
    assert(sub.subrange(p, p + v.len()) =~= s.subrange(a + p, a + p + v.len()));
    assert(cat062_aircraft_derived_data_at(s, a + p, v));
}

proof fn lemma_cat062_composed_track_number_shift(s: Seq<u8>, a: int, b: int, v: Seq<u8>)
    requires
        0 <= a <= b <= s.len(),
        exists|p: int| cat062_composed_track_number_at(s.subrange(a, b), p, v),
    ensures
        exists|p: int| cat062_composed_track_number_at(s, p, v),
{
    let sub = s.subrange(a, b);
    let p = choose|p: int| cat062_composed_track_number_at(sub, p, v);
    assert(sub.subrange(p, p + v.len()) =~= s.subrange(a + p, a + p + v.len()));
    assert(cat062_composed_track_number_at(s, a + p, v));
}

proof fn lemma_cat062_fields_shift(s: Seq<u8>, a: int, b: int, r: Cat062View)
    requires
        0 <= a <= b <= s.len(),
        cat062_fields_from(s.subrange(a, b), r),
    ensures
        cat062_fields_from(s, r),
{
    if let Some(v) = r.data_source_id {
        lemma_cat062_data_source_id_shift(s, a, b, v);
    }
    if let Some(v) = r.service_id {
        lemma_cat062_service_id_shift(s, a, b, v);
    }
    if let Some(v) = r.time_of_track {
        lemma_cat062_time_of_track_shift(s, a, b, v);
    }
    if let Some(v) = r.position_wgs84 {
        lemma_cat062_position_wgs84_shift(s, a, b, v);
    }
    if let Some(v) = r.position_cartesian {
        lemma_cat062_position_cartesian_shift(s, a, b, v);
    }
    if let Some(v) = r.velocity_cartesian {
        lemma_cat062_velocity_cartesian_shift(s, a, b, v);
    }
    if let Some(v) = r.acceleration {
        lemma_cat062_acceleration_shift(s, a, b, v);
    }
    if let Some(v) = r.mode_3a {
        lemma_cat062_mode_3a_shift(s, a, b, v);
    }
    if let Some(v) = r.target_id {
        lemma_cat062_target_id_shift(s, a, b, v);
    }
    if let Some(v) = r.track_number {
        lemma_cat062_track_number_shift(s, a, b, v);
    }
    if let Some(v) = r.track_status {
        lemma_cat062_track_status_shift(s, a, b, v);
    }
    if let Some(v) = r.mode_of_movement {
        lemma_cat062_mode_of_movement_shift(s, a, b, v);
    }
    if let Some(v) = r.measured_flight_level {
        lemma_cat062_measured_flight_level_shift(s, a, b, v);
    }
    if let Some(v) = r.geometric_altitude {
        lemma_cat062_geometric_altitude_shift(s, a, b, v);
    }
    if let Some(v) = r.barometric_altitude {
        lemma_cat062_barometric_altitude_shift(s, a, b, v);
    }
    if let Some(v) = r.rate_of_climb {
        lemma_cat062_rate_of_climb_shift(s, a, b, v);
    }
    if let Some(v) = r.target_size {
        lemma_cat062_target_size_shift(s, a, b, v);
    }
    if let Some(v) = r.vehicle_fleet_id {
        lemma_cat062_vehicle_fleet_id_shift(s, a, b, v);
    }
    if let Some(v) = r.mode_2_code {
        lemma_cat062_mode_2_code_shift(s, a, b, v);
    }
    if let Some(v) = r.system_track_update_ages {
        lemma_cat062_system_track_update_ages_shift(s, a, b, v);
    }
    if let Some(v) = r.track_data_ages {
        lemma_cat062_track_data_ages_shift(s, a, b, v);
    }
    if let Some(v) = r.flight_plan_data {
        lemma_cat062_flight_plan_data_shift(s, a, b, v);
    }
    if let Some(v) = r.mode_5_data {
        lemma_cat062_mode_5_data_shift(s, a, b, v);
    }
    if let Some(v) = r.estimated_accuracies {
        lemma_cat062_estimated_accuracies_shift(s, a, b, v);
    }
    if let Some(v) = r.measured_info {
        lemma_cat062_measured_info_shift(s, a, b, v);
    }
    if let Some(v) = r.aircraft_derived_data {
        lemma_cat062_aircraft_derived_data_shift(s, a, b, v);
    }
    if let Some(v) = r.composed_track_number {
        lemma_cat062_composed_track_number_shift(s, a, b, v);
    }
}

proof fn lemma_cat062_records_fields(s: Seq<u8>, a: int, b: int)
    requires
        0 <= a <= b <= s.len(),
    ensures
        spec_cat062_records(s.subrange(a, b)) matches Ok(rs) ==> forall|i: int|
            0 <= i < rs.len() ==> cat062_fields_from(s, #[trigger] rs[i]),
    decreases b - a,
{
    let sub = s.subrange(a, b);
    if sub.len() > 0 {
        if let Ok((r, n)) = spec_parse_cat062_record(sub) {
            if 0 < n <= sub.len() {
                lemma_cat062_record_fields(sub);
                lemma_cat062_fields_shift(s, a, b, r);
                assert(sub.subrange(n, sub.len() as int) =~= s.subrange(a + n, b));
                lemma_cat062_records_fields(s, a + n, b);
                if let Ok(rs) = spec_cat062_records(s.subrange(a + n, b)) {
                    let all = seq![r] + rs;
                    assert forall|i: int| 0 <= i < all.len() implies cat062_fields_from(s, #[trigger] all[i]) by {
                        if i > 0 {
                            assert(all[i] == rs[i - 1]);
                        }
                    }
                }
            }
        }
    }
}

/// Every record of a decoded CAT062 block takes its item fields from the
/// octets of the block, as `lemma_cat062_record_fields` describes.
pub proof fn lemma_cat062_block_fields(msg: Seq<u8>)
    ensures
        spec_parse_cat062_block(msg) matches Ok(rs) ==> forall|i: int|
            0 <= i < rs.len() ==> cat062_fields_from(msg, #[trigger] rs[i]),
{
    if msg.len() >= 3 && 3 <= declared_len(msg) <= msg.len() {
        lemma_cat062_records_fields(msg, 3, declared_len(msg) as int);
    }
}

proof fn lemma_cat062_upto_single(s: Seq<u8>, f: Seq<u8>, start: (Cat062View, int), k: int, j: int)
    requires
        0 <= k < 28,
        0 <= j <= 28,
        forall|i: int| #[trigger] announced(f, i) <==> i == k,
    ensures
        cat062_items_upto(s, f, start, j) == (if j <= k {
            Ok::<(Cat062View, int), AsterixError>(start)
        } else {
            cat062_item(s, k, start.0, start.1)
        }),
    decreases j,
{
    if j > 0 {
        lemma_cat062_upto_single(s, f, start, k, j - 1);
        assert(announced(f, j - 1) <==> j - 1 == k);
    }
}

/// The fields of a CAT062 record that carries item `k` alone, read at `p`: that
/// item's field holds what the item's octets at `p` say, every other field is empty.
pub open spec fn cat062_only_item(s: Seq<u8>, k: int, p: int, r: Cat062View) -> bool {
    &&& (k == 0 ==> (r.data_source_id matches Some(v) && cat062_data_source_id_at(s, p, v)))
    &&& (k != 0 ==> r.data_source_id is None)
    &&& (k == 2 ==> (r.service_id matches Some(v) && cat062_service_id_at(s, p, v)))
    &&& (k != 2 ==> r.service_id is None)
    &&& (k == 3 ==> (r.time_of_track matches Some(v) && cat062_time_of_track_at(s, p, v)))
    &&& (k != 3 ==> r.time_of_track is None)
    &&& (k == 4 ==> (r.position_wgs84 matches Some(v) && cat062_position_wgs84_at(s, p, v)))
    &&& (k != 4 ==> r.position_wgs84 is None)
    &&& (k == 5 ==> (r.position_cartesian matches Some(v) && cat062_position_cartesian_at(s, p, v)))
    &&& (k != 5 ==> r.position_cartesian is None)
    &&& (k == 6 ==> (r.velocity_cartesian matches Some(v) && cat062_velocity_cartesian_at(s, p, v)))
    &&& (k != 6 ==> r.velocity_cartesian is None)
    &&& (k == 7 ==> (r.acceleration matches Some(v) && cat062_acceleration_at(s, p, v)))
    &&& (k != 7 ==> r.acceleration is None)
    &&& (k == 8 ==> (r.mode_3a matches Some(v) && cat062_mode_3a_at(s, p, v)))
    &&& (k != 8 ==> r.mode_3a is None)
    &&& (k == 9 ==> (r.target_id matches Some(v) && cat062_target_id_at(s, p, v)))
    &&& (k != 9 ==> r.target_id is None)
    &&& (k == 11 ==> (r.track_number matches Some(v) && cat062_track_number_at(s, p, v)))
    &&& (k != 11 ==> r.track_number is None)
    &&& (k == 12 ==> (r.track_status matches Some(v) && cat062_track_status_at(s, p, v)))
    &&& (k != 12 ==> r.track_status is None)
    &&& (k == 14 ==> (r.mode_of_movement matches Some(v) && cat062_mode_of_movement_at(s, p, v)))
    &&& (k != 14 ==> r.mode_of_movement is None)
    &&& (k == 16 ==> (r.measured_flight_level matches Some(v) && cat062_measured_flight_level_at(s, p, v)))
    &&& (k != 16 ==> r.measured_flight_level is None)
    &&& (k == 17 ==> (r.geometric_altitude matches Some(v) && cat062_geometric_altitude_at(s, p, v)))
    &&& (k != 17 ==> r.geometric_altitude is None)
    &&& (k == 18 ==> (r.barometric_altitude matches Some(v) && cat062_barometric_altitude_at(s, p, v)))
    &&& (k != 18 ==> r.barometric_altitude is None)
    &&& (k == 19 ==> (r.rate_of_climb matches Some(v) && cat062_rate_of_climb_at(s, p, v)))
    &&& (k != 19 ==> r.rate_of_climb is None)
    &&& (k == 21 ==> (r.target_size matches Some(v) && cat062_target_size_at(s, p, v)))
    &&& (k != 21 ==> r.target_size is None)
    &&& (k == 22 ==> (r.vehicle_fleet_id matches Some(v) && cat062_vehicle_fleet_id_at(s, p, v)))
    &&& (k != 22 ==> r.vehicle_fleet_id is None)
    &&& (k == 24 ==> (r.mode_2_code matches Some(v) && cat062_mode_2_code_at(s, p, v)))
    &&& (k != 24 ==> r.mode_2_code is None)
    &&& (k == 13 ==> (r.system_track_update_ages matches Some(v) && cat062_system_track_update_ages_at(s, p, v)))
    &&& (k != 13 ==> r.system_track_update_ages is None)
    &&& (k == 15 ==> (r.track_data_ages matches Some(v) && cat062_track_data_ages_at(s, p, v)))
    &&& (k != 15 ==> r.track_data_ages is None)
    &&& (k == 20 ==> (r.flight_plan_data matches Some(v) && cat062_flight_plan_data_at(s, p, v)))
    &&& (k != 20 ==> r.flight_plan_data is None)
    &&& (k == 23 ==> (r.mode_5_data matches Some(v) && cat062_mode_5_data_at(s, p, v)))
    &&& (k != 23 ==> r.mode_5_data is None)
    &&& (k == 26 ==> (r.estimated_accuracies matches Some(v) && cat062_estimated_accuracies_at(s, p, v)))
    &&& (k != 26 ==> r.estimated_accuracies is None)
    &&& (k == 27 ==> (r.measured_info matches Some(v) && cat062_measured_info_at(s, p, v)))
    &&& (k != 27 ==> r.measured_info is None)
    &&& (k == 10 ==> (r.aircraft_derived_data matches Some(v) && cat062_aircraft_derived_data_at(s, p, v)))
    &&& (k != 10 ==> r.aircraft_derived_data is None)
    &&& (k == 25 ==> (r.composed_track_number matches Some(v) && cat062_composed_track_number_at(s, p, v)))
    &&& (k != 25 ==> r.composed_track_number is None)
}

/// A CAT062 record whose FSPEC announces one item `k` alone holds that item,
/// read from the octets right after the FSPEC, in the field the UAP assigns
/// to FRN `k + 1` (as `lemma_cat062_record_fields` lays it out), and no other
/// field. FRN 2 is spare: a record announcing it alone holds no field.
pub proof fn lemma_cat062_single_item_record(s: Seq<u8>, k: int)
    requires
        0 <= k < 28,
        k / 7 + 1 <= s.len(),
        s.subrange(0, k / 7 + 1) == single_item_fspec(k),
    ensures
        spec_parse_cat062_record(s) matches Ok((r, n)) ==> r.fspec == single_item_fspec(k) && cat062_only_item(s, k, k / 7 + 1, r),
{
    lemma_single_fspec(s, k, 7, AsterixError::FspecTooLong);
    let f = single_item_fspec(k);
    let start = (empty_cat062(f), k / 7 + 1);
    lemma_cat062_upto_single(s, f, start, k, 28);
    lemma_cat062_item_fields(s, k, start.0, start.1);
}

// ---------------------------------------------------------------------------
// CAT048

/// The `data_source_id` of a CAT048 record (item number 0 from 0) as read from the octets of `s` at
/// `p`.
pub open spec fn cat048_data_source_id_at(s: Seq<u8>, p: int, v: cat048::DataSourceId) -> bool {
    &&& 0 <= p
    &&& p + 2 <= s.len()
    &&& v.sac == s[p]
    &&& v.sic == s[p + 1]
}

/// The `time_of_track` of a CAT048 record (item number 1 from 0) as read from the octets of `s` at
/// `p`.
pub open spec fn cat048_time_of_track_at(s: Seq<u8>, p: int, v: u32) -> bool {
    &&& 0 <= p
    &&& p + 3 <= s.len()
    &&& v as int == octets_u24(s, p)
}

/// The `track_type` of a CAT048 record (item number 2 from 0) as read from the octets of `s` at
/// `p`.
pub open spec fn cat048_track_type_at(s: Seq<u8>, p: int, v: u8) -> bool {
    &&& 0 <= p
    &&& p + 1 <= s.len()
    &&& v == s[p] / 32
}

/// The `track_position` of a CAT048 record (item number 3 from 0) as read from the octets of `s` at
/// `p`.
pub open spec fn cat048_track_position_at(s: Seq<u8>, p: int, v: TrackPosition) -> bool {
    &&& 0 <= p
    &&& p + 4 <= s.len()
    &&& v.range_raw as int == octets_u16(s, p)
    &&& v.bearing_raw as int == octets_u16(s, p + 2)
}

/// The `mode_3a` of a CAT048 record (item number 4 from 0) as read from the octets of `s` at `p`.
pub open spec fn cat048_mode_3a_at(s: Seq<u8>, p: int, v: cat048::Mode3ACode) -> bool {
    &&& 0 <= p
    &&& p + 2 <= s.len()
    &&& v.v == (s[p] >= 128)
    &&& v.g == ((s[p] / 64) % 2 == 1)
    &&& v.l == ((s[p] / 32) % 2 == 1)
    &&& v.code_raw as int == (s[p] % 16) as int * 256 + s[p + 1] as int
}

/// A CAT048 flight level (I048/090) read from the two octets of `s` at `p`: V and G are the two top
/// bits, and the flight level in quarters the low fourteen bits read in two's complement.
pub open spec fn cat048_flight_level_at(s: Seq<u8>, p: int, v: FlightLevel) -> bool {
    &&& 0 <= p
    &&& p + 2 <= s.len()
    &&& v.v == (s[p] >= 128)
    &&& v.g == ((s[p] / 64) % 2 == 1)
    &&& v.fl_quarter as int == (if (s[p] % 64) as int * 256 + s[p + 1] as int >= 0x2000 { (s[p] % 64) as int * 256 + s[p + 1] as int - 0x4000 } else { (s[p] % 64) as int * 256 + s[p + 1] as int })
}

/// The `radar_plot_characteristics` of a CAT048 record (item number 6 from 0) as read from the
/// octets of `s` at `p`.
pub open spec fn cat048_radar_plot_characteristics_at(s: Seq<u8>, p: int, v: cat048::RadarPlotCharacteristicsView) -> bool {
    &&& 0 <= p
    &&& 1 <= v.subfield_fspec.len()
    &&& octets_at(s, p, v.subfield_fspec + v.subfields)
}

/// The `mode_s_mb_data` of a CAT048 record (item number 9 from 0) as read from the octets of `s` at
/// `p`.
pub open spec fn cat048_mode_s_mb_data_at(s: Seq<u8>, p: int, v: Seq<Seq<u8>>) -> bool {
    &&& 0 <= p
    &&& p < s.len()
    &&& v.len() == s[p] as int
    &&& p + 1 + 8 * v.len() <= s.len()
    &&& (forall|i: int| 0 <= i < v.len() ==> #[trigger] v[i] == s.subrange(p + 1 + 8 * i, p + 9 + 8 * i))
}

/// The `aircraft_address` of a CAT048 record (item number 7 from 0) as read from the octets of `s`
/// at `p`.
pub open spec fn cat048_aircraft_address_at(s: Seq<u8>, p: int, v: u32) -> bool {
    &&& 0 <= p
    &&& p + 3 <= s.len()
    &&& v as int == octets_u24(s, p)
}

/// The `aircraft_identification` of a CAT048 record (item number 8 from 0) as read from the octets
/// of `s` at `p`.
pub open spec fn cat048_aircraft_identification_at(s: Seq<u8>, p: int, v: Seq<char>) -> bool {
    &&& 0 <= p
    &&& p + 6 <= s.len()
    &&& v == decoded_callsign(s.subrange(p, p + 6))
}

/// The `track_number` of a CAT048 record (item number 10 from 0) as read from the octets of `s` at
/// `p`.
pub open spec fn cat048_track_number_at(s: Seq<u8>, p: int, v: u16) -> bool {
    &&& 0 <= p
    &&& p + 2 <= s.len()
    &&& v as int == octets_u16(s, p)
}

/// The `calculated_position` of a CAT048 record (item number 11 from 0) as read from the octets of
/// `s` at `p`.
pub open spec fn cat048_calculated_position_at(s: Seq<u8>, p: int, v: CartesianPosition) -> bool {
    &&& 0 <= p
    &&& p + 4 <= s.len()
    &&& v.x_raw as int == octets_s16(s, p)
    &&& v.y_raw as int == octets_s16(s, p + 2)
}

/// The `calculated_track_velocity` of a CAT048 record (item number 12 from 0) as read from the
/// octets of `s` at `p`.
pub open spec fn cat048_calculated_track_velocity_at(s: Seq<u8>, p: int, v: TrackVelocityPolar) -> bool {
    &&& 0 <= p
    &&& p + 4 <= s.len()
    &&& v.ground_speed_raw as int == octets_u16(s, p)
    &&& v.heading_raw as int == octets_u16(s, p + 2)
}

/// The `track_status` of a CAT048 record (item number 13 from 0) as read from the octets of `s` at
/// `p`.
pub open spec fn cat048_track_status_at(s: Seq<u8>, p: int, v: Seq<u8>) -> bool {
    &&& 0 <= p
    &&& 1 <= v.len()
    &&& octets_at(s, p, v)
}

/// A CAT048 track quality (I048/210) read from the four octets of `s` at `p`: sigma X, sigma Y,
/// sigma V and sigma H are those octets in that order.
pub open spec fn cat048_track_quality_at(s: Seq<u8>, p: int, v: TrackQualityView) -> bool {
    &&& 0 <= p
    &&& p + 4 <= s.len()
    &&& v.octets == s.subrange(p, p + 4)
    &&& v.sigx_raw == s[p]
    &&& v.sigy_raw == s[p + 1]
    &&& v.sigv_raw == s[p + 2]
    &&& v.siga_raw == s[p + 3]
}

/// The `warning_error_conditions` of a CAT048 record (item number 15 from 0) as read from the
/// octets of `s` at `p`.
pub open spec fn cat048_warning_error_conditions_at(s: Seq<u8>, p: int, v: Seq<u8>) -> bool {
    &&& 0 <= p
    &&& 1 <= v.len()
    &&& octets_at(s, p, v)
}

/// The `mode_3a_confidence` of a CAT048 record (item number 16 from 0) as read from the octets of
/// `s` at `p`.
pub open spec fn cat048_mode_3a_confidence_at(s: Seq<u8>, p: int, v: Mode3AConfidence) -> bool {
    &&& 0 <= p
    &&& p + 2 <= s.len()
    &&& v.raw as int == octets_u16(s, p)
    &&& v.qa4 == ((octets_u16(s, p) / 2048) % 2 == 1)
    &&& v.qa2 == ((octets_u16(s, p) / 1024) % 2 == 1)
    &&& v.qa1 == ((octets_u16(s, p) / 512) % 2 == 1)
    &&& v.qb4 == ((octets_u16(s, p) / 256) % 2 == 1)
    &&& v.qb2 == ((octets_u16(s, p) / 128) % 2 == 1)
    &&& v.qb1 == ((octets_u16(s, p) / 64) % 2 == 1)
    &&& v.qc4 == ((octets_u16(s, p) / 32) % 2 == 1)
    &&& v.qc2 == ((octets_u16(s, p) / 16) % 2 == 1)
    &&& v.qc1 == ((octets_u16(s, p) / 8) % 2 == 1)
    &&& v.qd4 == ((octets_u16(s, p) / 4) % 2 == 1)
    &&& v.qd2 == ((octets_u16(s, p) / 2) % 2 == 1)
    &&& v.qd1 == (octets_u16(s, p) % 2 == 1)
}

/// Every item field of a CAT048 record listed here comes from octets of `s`, laid out as
/// that item lays them out.
pub open spec fn cat048_fields_from(s: Seq<u8>, r: Cat048View) -> bool {
    &&& (r.data_source_id matches Some(v) ==> exists|p: int| cat048_data_source_id_at(s, p, v))
    &&& (r.time_of_track matches Some(v) ==> exists|p: int| cat048_time_of_track_at(s, p, v))
    &&& (r.track_type matches Some(v) ==> exists|p: int| cat048_track_type_at(s, p, v))
    &&& (r.track_position matches Some(v) ==> exists|p: int| cat048_track_position_at(s, p, v))
    &&& (r.mode_3a matches Some(v) ==> exists|p: int| cat048_mode_3a_at(s, p, v))
    &&& (r.flight_level matches Some(v) ==> exists|p: int| cat048_flight_level_at(s, p, v))
    &&& (r.radar_plot_characteristics matches Some(v) ==> exists|p: int| cat048_radar_plot_characteristics_at(s, p, v))
    &&& (r.mode_s_mb_data matches Some(v) ==> exists|p: int| cat048_mode_s_mb_data_at(s, p, v))
    &&& (r.aircraft_address matches Some(v) ==> exists|p: int| cat048_aircraft_address_at(s, p, v))
    &&& (r.aircraft_identification matches Some(v) ==> exists|p: int| cat048_aircraft_identification_at(s, p, v))
    &&& (r.track_number matches Some(v) ==> exists|p: int| cat048_track_number_at(s, p, v))
    &&& (r.calculated_position matches Some(v) ==> exists|p: int| cat048_calculated_position_at(s, p, v))
    &&& (r.calculated_track_velocity matches Some(v) ==> exists|p: int| cat048_calculated_track_velocity_at(s, p, v))
    &&& (r.track_status matches Some(v) ==> exists|p: int| cat048_track_status_at(s, p, v))
    &&& (r.track_quality matches Some(v) ==> exists|p: int| cat048_track_quality_at(s, p, v))
    &&& (r.warning_error_conditions matches Some(v) ==> exists|p: int| cat048_warning_error_conditions_at(s, p, v))
    &&& (r.mode_3a_confidence matches Some(v) ==> exists|p: int| cat048_mode_3a_confidence_at(s, p, v))
}

proof fn lemma_cat048_item_fields(s: Seq<u8>, k: int, r: Cat048View, p: int)
    requires
        0 <= k < 17,
    ensures
        cat048_item(s, k, r, p) matches Ok((r2, q)) ==> {
            &&& (k != 0 ==> r2.data_source_id == r.data_source_id)
            &&& (k == 0 ==> (r2.data_source_id matches Some(v) && cat048_data_source_id_at(s, p, v)))
            &&& (k != 1 ==> r2.time_of_track == r.time_of_track)
            &&& (k == 1 ==> (r2.time_of_track matches Some(v) && cat048_time_of_track_at(s, p, v)))
            &&& (k != 2 ==> r2.track_type == r.track_type)
            &&& (k == 2 ==> (r2.track_type matches Some(v) && cat048_track_type_at(s, p, v)))
            &&& (k != 3 ==> r2.track_position == r.track_position)
            &&& (k == 3 ==> (r2.track_position matches Some(v) && cat048_track_position_at(s, p, v)))
            &&& (k != 4 ==> r2.mode_3a == r.mode_3a)
            &&& (k == 4 ==> (r2.mode_3a matches Some(v) && cat048_mode_3a_at(s, p, v)))
            &&& (k != 5 ==> r2.flight_level == r.flight_level)
            &&& (k == 5 ==> (r2.flight_level matches Some(v) && cat048_flight_level_at(s, p, v)))
            &&& (k != 6 ==> r2.radar_plot_characteristics == r.radar_plot_characteristics)
            &&& (k == 6 ==> (r2.radar_plot_characteristics matches Some(v) && cat048_radar_plot_characteristics_at(s, p, v)))
            &&& (k != 9 ==> r2.mode_s_mb_data == r.mode_s_mb_data)
            &&& (k == 9 ==> (r2.mode_s_mb_data matches Some(v) && cat048_mode_s_mb_data_at(s, p, v)))
            &&& (k != 7 ==> r2.aircraft_address == r.aircraft_address)
            &&& (k == 7 ==> (r2.aircraft_address matches Some(v) && cat048_aircraft_address_at(s, p, v)))
            &&& (k != 8 ==> r2.aircraft_identification == r.aircraft_identification)
            &&& (k == 8 ==> (r2.aircraft_identification matches Some(v) && cat048_aircraft_identification_at(s, p, v)))
            &&& (k != 10 ==> r2.track_number == r.track_number)
            &&& (k == 10 ==> (r2.track_number matches Some(v) && cat048_track_number_at(s, p, v)))
            &&& (k != 11 ==> r2.calculated_position == r.calculated_position)
            &&& (k == 11 ==> (r2.calculated_position matches Some(v) && cat048_calculated_position_at(s, p, v)))
            &&& (k != 12 ==> r2.calculated_track_velocity == r.calculated_track_velocity)
            &&& (k == 12 ==> (r2.calculated_track_velocity matches Some(v) && cat048_calculated_track_velocity_at(s, p, v)))
            &&& (k != 13 ==> r2.track_status == r.track_status)
            &&& (k == 13 ==> (r2.track_status matches Some(v) && cat048_track_status_at(s, p, v)))
            &&& (k != 14 ==> r2.track_quality == r.track_quality)
            &&& (k == 14 ==> (r2.track_quality matches Some(v) && cat048_track_quality_at(s, p, v)))
            &&& (k != 15 ==> r2.warning_error_conditions == r.warning_error_conditions)
            &&& (k == 15 ==> (r2.warning_error_conditions matches Some(v) && cat048_warning_error_conditions_at(s, p, v)))
            &&& (k != 16 ==> r2.mode_3a_confidence == r.mode_3a_confidence)
            &&& (k == 16 ==> (r2.mode_3a_confidence matches Some(v) && cat048_mode_3a_confidence_at(s, p, v)))
            &&& r2.fspec == r.fspec
        },
{
    reveal(cat048_item);
    if k == 1 {
        if 0 <= p && p + 3 <= s.len() {
            lemma_u24_octets(s, p);
        }
    } else if k == 2 {
        if 0 <= p && p + 1 <= s.len() {
            if 0 <= p < s.len() { lemma_octet_bits(s[p]); }
        }
    } else if k == 3 {
        if 0 <= p && p + 4 <= s.len() {
            lemma_u16_octets(s, p); lemma_u16_octets(s, p + 2);
        }
    } else if k == 4 {
        if 0 <= p && p + 2 <= s.len() {
            lemma_be16_bits(s[p], s[p + 1]);
        }
    } else if k == 5 {
        if 0 <= p && p + 2 <= s.len() {
            lemma_be16_bits(s[p], s[p + 1]);
        }
    } else if k == 6 {
        lemma_fx_octets_octets(s, p, 4, AsterixError::SubfieldFspecTooLong);
        if let Ok((sf, q)) = spec_fx_octets(s, p, 4, AsterixError::SubfieldFspecTooLong) {
            let n = subfields_len(sf, None, 7 * sf.len() as int);
            if 0 <= n && q + n <= s.len() {
                assert(sf + s.subrange(q, q + n) =~= s.subrange(p, q + n));
            }
        }
    } else if k == 7 {
        if 0 <= p && p + 3 <= s.len() {
            lemma_u24_octets(s, p);
        }
    } else if k == 10 {
        if 0 <= p && p + 2 <= s.len() {
            lemma_u16_octets(s, p);
        }
    } else if k == 11 {
        if 0 <= p && p + 4 <= s.len() {
            lemma_u16_octets(s, p); lemma_u16_octets(s, p + 2);
        }
    } else if k == 12 {
        if 0 <= p && p + 4 <= s.len() {
            lemma_u16_octets(s, p); lemma_u16_octets(s, p + 2);
        }
    } else if k == 13 {
        lemma_fx_chain_octets(s, p);
    } else if k == 15 {
        lemma_fx_chain_octets(s, p);
    } else if k == 16 {
        if 0 <= p && p + 2 <= s.len() {
            lemma_u16_octets(s, p); lemma_u16_flag_bits(be16(s[p], s[p + 1]));
        }
    }
}

proof fn lemma_cat048_items_fields(s: Seq<u8>, fspec: Seq<u8>, start: (Cat048View, int), k: int)
    requires
        cat048_fields_from(s, start.0),
        k <= 17,
    ensures
        cat048_items_upto(s, fspec, start, k) matches Ok((r, q)) ==> cat048_fields_from(s, r),
    decreases k,
{
    if k > 0 {
        lemma_cat048_items_fields(s, fspec, start, k - 1);
        if let Ok((r, p)) = cat048_items_upto(s, fspec, start, k - 1) {
            if announced(fspec, k - 1) {
                lemma_cat048_item_fields(s, k - 1, r, p);
                if let Ok((r2, q)) = cat048_item(s, k - 1, r, p) {
                    if k - 1 == 0 {
                        assert(cat048_data_source_id_at(s, p, r2.data_source_id->0));
                    }
                    if k - 1 == 1 {
                        assert(cat048_time_of_track_at(s, p, r2.time_of_track->0));
                    }
                    if k - 1 == 2 {
                        assert(cat048_track_type_at(s, p, r2.track_type->0));
                    }
                    if k - 1 == 3 {
                        assert(cat048_track_position_at(s, p, r2.track_position->0));
                    }
                    if k - 1 == 4 {
                        assert(cat048_mode_3a_at(s, p, r2.mode_3a->0));
                    }
                    if k - 1 == 5 {
                        assert(cat048_flight_level_at(s, p, r2.flight_level->0));
                    }
                    if k - 1 == 6 {
                        assert(cat048_radar_plot_characteristics_at(s, p, r2.radar_plot_characteristics->0));
                    }
                    if k - 1 == 9 {
                        assert(cat048_mode_s_mb_data_at(s, p, r2.mode_s_mb_data->0));
                    }
                    if k - 1 == 7 {
                        assert(cat048_aircraft_address_at(s, p, r2.aircraft_address->0));
                    }
                    if k - 1 == 8 {
                        assert(cat048_aircraft_identification_at(s, p, r2.aircraft_identification->0));
                    }
                    if k - 1 == 10 {
                        assert(cat048_track_number_at(s, p, r2.track_number->0));
                    }
                    if k - 1 == 11 {
                        assert(cat048_calculated_position_at(s, p, r2.calculated_position->0));
                    }
                    if k - 1 == 12 {
                        assert(cat048_calculated_track_velocity_at(s, p, r2.calculated_track_velocity->0));
                    }
                    if k - 1 == 13 {
                        assert(cat048_track_status_at(s, p, r2.track_status->0));
                    }
                    if k - 1 == 14 {
                        assert(cat048_track_quality_at(s, p, r2.track_quality->0));
                    }
                    if k - 1 == 15 {
                        assert(cat048_warning_error_conditions_at(s, p, r2.warning_error_conditions->0));
                    }
                    if k - 1 == 16 {
                        assert(cat048_mode_3a_confidence_at(s, p, r2.mode_3a_confidence->0));
                    }
                }
            }
        }
    }
}

/// A decoded CAT048 record takes each item field below from the octets of
/// the input, as the item lays them out (`p` is where the item starts):
/// SAC and SIC are I048/010's two octets; the time of day and the aircraft
/// address three unsigned octets; the track type the three top bits of
/// I048/020's first octet; range, bearing, track number, ground speed and
/// heading unsigned two-octet values, X and Y signed ones; for I048/070 V, G
/// and L are the three top bits of the first octet and the code its low four
/// bits followed by the second; for I048/090 V and G are the two top bits and
/// the flight level in quarters the low fourteen bits in two's complement;
/// sigma X, Y, V and H are I048/210's four octets in order; the track status
/// and warning conditions keep their octets; the aircraft identification is
/// the IA-5 characters of I048/240; and the confidence flags of I048/080 are
/// the twelve low bits of its value, most significant first.
pub proof fn lemma_cat048_record_fields(s: Seq<u8>)
    ensures
        spec_parse_cat048_record(s) matches Ok((r, n)) ==> cat048_fields_from(s, r),
{
    if let Ok((fspec, p)) = spec_fx_octets(s, 0, 4, AsterixError::FspecTooLong) {
        lemma_cat048_items_fields(s, fspec, (empty_cat048(fspec), p), 17);
    }
}

proof fn lemma_cat048_data_source_id_shift(s: Seq<u8>, a: int, b: int, v: cat048::DataSourceId)
    requires
        0 <= a <= b <= s.len(),
        exists|p: int| cat048_data_source_id_at(s.subrange(a, b), p, v),
    ensures
        exists|p: int| cat048_data_source_id_at(s, p, v),
{
    let sub = s.subrange(a, b);
    let p = choose|p: int| cat048_data_source_id_at(sub, p, v);
    assert(sub[p + 0] == s[a + p + 0] && sub[p + 1] == s[a + p + 1]);
    assert(cat048_data_source_id_at(s, a + p, v));
}

proof fn lemma_cat048_time_of_track_shift(s: Seq<u8>, a: int, b: int, v: u32)
    requires
        0 <= a <= b <= s.len(),
        exists|p: int| cat048_time_of_track_at(s.subrange(a, b), p, v),
    ensures
        exists|p: int| cat048_time_of_track_at(s, p, v),
{
    let sub = s.subrange(a, b);
    let p = choose|p: int| cat048_time_of_track_at(sub, p, v);
    assert(sub[p + 0] == s[a + p + 0] && sub[p + 1] == s[a + p + 1] && sub[p + 2] == s[a + p + 2]);
    assert(cat048_time_of_track_at(s, a + p, v));
}

proof fn lemma_cat048_track_type_shift(s: Seq<u8>, a: int, b: int, v: u8)
    requires
        0 <= a <= b <= s.len(),
        exists|p: int| cat048_track_type_at(s.subrange(a, b), p, v),
    ensures
        exists|p: int| cat048_track_type_at(s, p, v),
{
    let sub = s.subrange(a, b);
    let p = choose|p: int| cat048_track_type_at(sub, p, v);
    assert(sub[p + 0] == s[a + p + 0]);
    assert(cat048_track_type_at(s, a + p, v));
}

proof fn lemma_cat048_track_position_shift(s: Seq<u8>, a: int, b: int, v: TrackPosition)
    requires
        0 <= a <= b <= s.len(),
        exists|p: int| cat048_track_position_at(s.subrange(a, b), p, v),
    ensures
        exists|p: int| cat048_track_position_at(s, p, v),
{
    let sub = s.subrange(a, b);
    let p = choose|p: int| cat048_track_position_at(sub, p, v);
    assert(sub[p + 0] == s[a + p + 0] && sub[p + 1] == s[a + p + 1] && sub[p + 2] == s[a + p + 2] && sub[p + 3] == s[a + p + 3]);
    assert(cat048_track_position_at(s, a + p, v));
}

proof fn lemma_cat048_mode_3a_shift(s: Seq<u8>, a: int, b: int, v: cat048::Mode3ACode)
    requires
        0 <= a <= b <= s.len(),
        exists|p: int| cat048_mode_3a_at(s.subrange(a, b), p, v),
    ensures
        exists|p: int| cat048_mode_3a_at(s, p, v),
{
    let sub = s.subrange(a, b);
    let p = choose|p: int| cat048_mode_3a_at(sub, p, v);
    assert(sub[p + 0] == s[a + p + 0] && sub[p + 1] == s[a + p + 1]);
    assert(cat048_mode_3a_at(s, a + p, v));
}

proof fn lemma_cat048_flight_level_shift(s: Seq<u8>, a: int, b: int, v: FlightLevel)
    requires
        0 <= a <= b <= s.len(),
        exists|p: int| cat048_flight_level_at(s.subrange(a, b), p, v),
    ensures
        exists|p: int| cat048_flight_level_at(s, p, v),
{
    let sub = s.subrange(a, b);
    let p = choose|p: int| cat048_flight_level_at(sub, p, v);
    assert(sub[p + 0] == s[a + p + 0] && sub[p + 1] == s[a + p + 1]);
    assert(cat048_flight_level_at(s, a + p, v));
}

proof fn lemma_cat048_radar_plot_characteristics_shift(s: Seq<u8>, a: int, b: int, v: cat048::RadarPlotCharacteristicsView)
    requires
        0 <= a <= b <= s.len(),
        exists|p: int| cat048_radar_plot_characteristics_at(s.subrange(a, b), p, v),
    ensures
        exists|p: int| cat048_radar_plot_characteristics_at(s, p, v),
{
    let sub = s.subrange(a, b);
    let p = choose|p: int| cat048_radar_plot_characteristics_at(sub, p, v);
    assert(sub.subrange(p, p + (v.subfield_fspec + v.subfields).len()) =~= s.subrange(a + p, a + p + (v.subfield_fspec + v.subfields).len()));
    assert(cat048_radar_plot_characteristics_at(s, a + p, v));
}

proof fn lemma_cat048_mode_s_mb_data_shift(s: Seq<u8>, a: int, b: int, v: Seq<Seq<u8>>)
    requires
        0 <= a <= b <= s.len(),
        exists|p: int| cat048_mode_s_mb_data_at(s.subrange(a, b), p, v),
    ensures
        exists|p: int| cat048_mode_s_mb_data_at(s, p, v),
{
    let sub = s.subrange(a, b);
    let p = choose|p: int| cat048_mode_s_mb_data_at(sub, p, v);
    assert(sub[p] == s[a + p]);
    assert forall|i: int| 0 <= i < v.len() implies #[trigger] v[i] == s.subrange(a + p + 1 + 8 * i, a + p + 9 + 8 * i) by {
        assert(sub.subrange(p + 1 + 8 * i, p + 9 + 8 * i) =~= s.subrange(a + p + 1 + 8 * i, a + p + 9 + 8 * i));
    }
    assert(cat048_mode_s_mb_data_at(s, a + p, v));
}

proof fn lemma_cat048_aircraft_address_shift(s: Seq<u8>, a: int, b: int, v: u32)
    requires
        0 <= a <= b <= s.len(),
        exists|p: int| cat048_aircraft_address_at(s.subrange(a, b), p, v),
    ensures
        exists|p: int| cat048_aircraft_address_at(s, p, v),
{
    let sub = s.subrange(a, b);
    let p = choose|p: int| cat048_aircraft_address_at(sub, p, v);
    assert(sub[p + 0] == s[a + p + 0] && sub[p + 1] == s[a + p + 1] && sub[p + 2] == s[a + p + 2]);
    assert(cat048_aircraft_address_at(s, a + p, v));
}

proof fn lemma_cat048_aircraft_identification_shift(s: Seq<u8>, a: int, b: int, v: Seq<char>)
    requires
        0 <= a <= b <= s.len(),
        exists|p: int| cat048_aircraft_identification_at(s.subrange(a, b), p, v),
    ensures
        exists|p: int| cat048_aircraft_identification_at(s, p, v),
{
    let sub = s.subrange(a, b);
    let p = choose|p: int| cat048_aircraft_identification_at(sub, p, v);
    assert(sub[p + 0] == s[a + p + 0] && sub[p + 1] == s[a + p + 1] && sub[p + 2] == s[a + p + 2] && sub[p + 3] == s[a + p + 3] && sub[p + 4] == s[a + p + 4] && sub[p + 5] == s[a + p + 5]);
    assert(sub.subrange(p, p + 6) =~= s.subrange(a + p, a + p + 6));
    assert(cat048_aircraft_identification_at(s, a + p, v));
}

proof fn lemma_cat048_track_number_shift(s: Seq<u8>, a: int, b: int, v: u16)
    requires
        0 <= a <= b <= s.len(),
        exists|p: int| cat048_track_number_at(s.subrange(a, b), p, v),
    ensures
        exists|p: int| cat048_track_number_at(s, p, v),
{
    let sub = s.subrange(a, b);
    let p = choose|p: int| cat048_track_number_at(sub, p, v);
    assert(sub[p + 0] == s[a + p + 0] && sub[p + 1] == s[a + p + 1]);
    assert(cat048_track_number_at(s, a + p, v));
}

proof fn lemma_cat048_calculated_position_shift(s: Seq<u8>, a: int, b: int, v: CartesianPosition)
    requires
        0 <= a <= b <= s.len(),
        exists|p: int| cat048_calculated_position_at(s.subrange(a, b), p, v),
    ensures
        exists|p: int| cat048_calculated_position_at(s, p, v),
{
    let sub = s.subrange(a, b);
    let p = choose|p: int| cat048_calculated_position_at(sub, p, v);
    assert(sub[p + 0] == s[a + p + 0] && sub[p + 1] == s[a + p + 1] && sub[p + 2] == s[a + p + 2] && sub[p + 3] == s[a + p + 3]);
    assert(cat048_calculated_position_at(s, a + p, v));
}

proof fn lemma_cat048_calculated_track_velocity_shift(s: Seq<u8>, a: int, b: int, v: TrackVelocityPolar)
    requires
        0 <= a <= b <= s.len(),
        exists|p: int| cat048_calculated_track_velocity_at(s.subrange(a, b), p, v),
    ensures
        exists|p: int| cat048_calculated_track_velocity_at(s, p, v),
{
    let sub = s.subrange(a, b);
    let p = choose|p: int| cat048_calculated_track_velocity_at(sub, p, v);
    assert(sub[p + 0] == s[a + p + 0] && sub[p + 1] == s[a + p + 1] && sub[p + 2] == s[a + p + 2] && sub[p + 3] == s[a + p + 3]);
    assert(cat048_calculated_track_velocity_at(s, a + p, v));
}

proof fn lemma_cat048_track_status_shift(s: Seq<u8>, a: int, b: int, v: Seq<u8>)
    requires
        0 <= a <= b <= s.len(),
        exists|p: int| cat048_track_status_at(s.subrange(a, b), p, v),
    ensures
        exists|p: int| cat048_track_status_at(s, p, v),
{
    let sub = s.subrange(a, b);
    let p = choose|p: int| cat048_track_status_at(sub, p, v);
    assert(sub.subrange(p, p + v.len()) =~= s.subrange(a + p, a + p + v.len()));
    assert(cat048_track_status_at(s, a + p, v));
}

proof fn lemma_cat048_track_quality_shift(s: Seq<u8>, a: int, b: int, v: TrackQualityView)
    requires
        0 <= a <= b <= s.len(),
        exists|p: int| cat048_track_quality_at(s.subrange(a, b), p, v),
    ensures
        exists|p: int| cat048_track_quality_at(s, p, v),
{
    let sub = s.subrange(a, b);
    let p = choose|p: int| cat048_track_quality_at(sub, p, v);
    assert(sub[p + 0] == s[a + p + 0] && sub[p + 1] == s[a + p + 1] && sub[p + 2] == s[a + p + 2] && sub[p + 3] == s[a + p + 3]);
    assert(sub.subrange(p, p + 4) =~= s.subrange(a + p, a + p + 4));
    assert(cat048_track_quality_at(s, a + p, v));
}

proof fn lemma_cat048_warning_error_conditions_shift(s: Seq<u8>, a: int, b: int, v: Seq<u8>)
    requires
        0 <= a <= b <= s.len(),
        exists|p: int| cat048_warning_error_conditions_at(s.subrange(a, b), p, v),
    ensures
        exists|p: int| cat048_warning_error_conditions_at(s, p, v),
{
    let sub = s.subrange(a, b);
    let p = choose|p: int| cat048_warning_error_conditions_at(sub, p, v);
    assert(sub.subrange(p, p + v.len()) =~= s.subrange(a + p, a + p + v.len()));
    assert(cat048_warning_error_conditions_at(s, a + p, v));
}

proof fn lemma_cat048_mode_3a_confidence_shift(s: Seq<u8>, a: int, b: int, v: Mode3AConfidence)
    requires
        0 <= a <= b <= s.len(),
        exists|p: int| cat048_mode_3a_confidence_at(s.subrange(a, b), p, v),
    ensures
        exists|p: int| cat048_mode_3a_confidence_at(s, p, v),
{
    let sub = s.subrange(a, b);
    let p = choose|p: int| cat048_mode_3a_confidence_at(sub, p, v);
    assert(sub[p + 0] == s[a + p + 0] && sub[p + 1] == s[a + p + 1]);
    assert(cat048_mode_3a_confidence_at(s, a + p, v));
}

proof fn lemma_cat048_fields_shift(s: Seq<u8>, a: int, b: int, r: Cat048View)
    requires
        0 <= a <= b <= s.len(),
        cat048_fields_from(s.subrange(a, b), r),
    ensures
        cat048_fields_from(s, r),
{
    if let Some(v) = r.data_source_id {
        lemma_cat048_data_source_id_shift(s, a, b, v);
    }
    if let Some(v) = r.time_of_track {
        lemma_cat048_time_of_track_shift(s, a, b, v);
    }
    if let Some(v) = r.track_type {
        lemma_cat048_track_type_shift(s, a, b, v);
    }
    if let Some(v) = r.track_position {
        lemma_cat048_track_position_shift(s, a, b, v);
    }
    if let Some(v) = r.mode_3a {
        lemma_cat048_mode_3a_shift(s, a, b, v);
    }
    if let Some(v) = r.flight_level {
        lemma_cat048_flight_level_shift(s, a, b, v);
    }
    if let Some(v) = r.radar_plot_characteristics {
        lemma_cat048_radar_plot_characteristics_shift(s, a, b, v);
    }
    if let Some(v) = r.mode_s_mb_data {
        lemma_cat048_mode_s_mb_data_shift(s, a, b, v);
    }
    if let Some(v) = r.aircraft_address {
        lemma_cat048_aircraft_address_shift(s, a, b, v);
    }
    if let Some(v) = r.aircraft_identification {
        lemma_cat048_aircraft_identification_shift(s, a, b, v);
    }
    if let Some(v) = r.track_number {
        lemma_cat048_track_number_shift(s, a, b, v);
    }
    if let Some(v) = r.calculated_position {
        lemma_cat048_calculated_position_shift(s, a, b, v);
    }
    if let Some(v) = r.calculated_track_velocity {
        lemma_cat048_calculated_track_velocity_shift(s, a, b, v);
    }
    if let Some(v) = r.track_status {
        lemma_cat048_track_status_shift(s, a, b, v);
    }
    if let Some(v) = r.track_quality {
        lemma_cat048_track_quality_shift(s, a, b, v);
    }
    if let Some(v) = r.warning_error_conditions {
        lemma_cat048_warning_error_conditions_shift(s, a, b, v);
    }
    if let Some(v) = r.mode_3a_confidence {
        lemma_cat048_mode_3a_confidence_shift(s, a, b, v);
    }
}

proof fn lemma_cat048_records_fields(s: Seq<u8>, a: int, b: int)
    requires
        0 <= a <= b <= s.len(),
    ensures
        spec_cat048_records(s.subrange(a, b)) matches Ok(rs) ==> forall|i: int|
            0 <= i < rs.len() ==> cat048_fields_from(s, #[trigger] rs[i]),
    decreases b - a,
{
    let sub = s.subrange(a, b);
    if sub.len() > 0 {
        if let Ok((r, n)) = spec_parse_cat048_record(sub) {
            if 0 < n <= sub.len() {
                lemma_cat048_record_fields(sub);
                lemma_cat048_fields_shift(s, a, b, r);
                assert(sub.subrange(n, sub.len() as int) =~= s.subrange(a + n, b));
                lemma_cat048_records_fields(s, a + n, b);
                if let Ok(rs) = spec_cat048_records(s.subrange(a + n, b)) {
                    let all = seq![r] + rs;
                    assert forall|i: int| 0 <= i < all.len() implies cat048_fields_from(s, #[trigger] all[i]) by {
                        if i > 0 {
                            assert(all[i] == rs[i - 1]);
                        }
                    }
                }
            }
        }
    }
}

/// Every record of a decoded CAT048 block takes its item fields from the
/// octets of the block, as `lemma_cat048_record_fields` describes.
pub proof fn lemma_cat048_block_fields(msg: Seq<u8>)
    ensures
        spec_parse_cat048_block(msg) matches Ok(rs) ==> forall|i: int|
            0 <= i < rs.len() ==> cat048_fields_from(msg, #[trigger] rs[i]),
{
    if msg.len() >= 3 && 3 <= be16(msg[1], msg[2]) <= msg.len() {
        lemma_cat048_records_fields(msg, 3, be16(msg[1], msg[2]) as int);
    }
}

proof fn lemma_cat048_upto_single(s: Seq<u8>, f: Seq<u8>, start: (Cat048View, int), k: int, j: int)
    requires
        0 <= k < 17,
        0 <= j <= 17,
        forall|i: int| #[trigger] announced(f, i) <==> i == k,
    ensures
        cat048_items_upto(s, f, start, j) == (if j <= k {
            Ok::<(Cat048View, int), AsterixError>(start)
        } else {
            cat048_item(s, k, start.0, start.1)
        }),
    decreases j,
{
    if j > 0 {
        lemma_cat048_upto_single(s, f, start, k, j - 1);
        assert(announced(f, j - 1) <==> j - 1 == k);
    }
}

/// The fields of a CAT048 record that carries item `k` alone, read at `p`: that
/// item's field holds what the item's octets at `p` say, every other field is empty.
pub open spec fn cat048_only_item(s: Seq<u8>, k: int, p: int, r: Cat048View) -> bool {
    &&& (k == 0 ==> (r.data_source_id matches Some(v) && cat048_data_source_id_at(s, p, v)))
    &&& (k != 0 ==> r.data_source_id is None)
    &&& (k == 1 ==> (r.time_of_track matches Some(v) && cat048_time_of_track_at(s, p, v)))
    &&& (k != 1 ==> r.time_of_track is None)
    &&& (k == 2 ==> (r.track_type matches Some(v) && cat048_track_type_at(s, p, v)))
    &&& (k != 2 ==> r.track_type is None)
    &&& (k == 3 ==> (r.track_position matches Some(v) && cat048_track_position_at(s, p, v)))
    &&& (k != 3 ==> r.track_position is None)
    &&& (k == 4 ==> (r.mode_3a matches Some(v) && cat048_mode_3a_at(s, p, v)))
    &&& (k != 4 ==> r.mode_3a is None)
    &&& (k == 5 ==> (r.flight_level matches Some(v) && cat048_flight_level_at(s, p, v)))
    &&& (k != 5 ==> r.flight_level is None)
    &&& (k == 6 ==> (r.radar_plot_characteristics matches Some(v) && cat048_radar_plot_characteristics_at(s, p, v)))
    &&& (k != 6 ==> r.radar_plot_characteristics is None)
    &&& (k == 9 ==> (r.mode_s_mb_data matches Some(v) && cat048_mode_s_mb_data_at(s, p, v)))
    &&& (k != 9 ==> r.mode_s_mb_data is None)
    &&& (k == 7 ==> (r.aircraft_address matches Some(v) && cat048_aircraft_address_at(s, p, v)))
    &&& (k != 7 ==> r.aircraft_address is None)
    &&& (k == 8 ==> (r.aircraft_identification matches Some(v) && cat048_aircraft_identification_at(s, p, v)))
    &&& (k != 8 ==> r.aircraft_identification is None)
    &&& (k == 10 ==> (r.track_number matches Some(v) && cat048_track_number_at(s, p, v)))
    &&& (k != 10 ==> r.track_number is None)
    &&& (k == 11 ==> (r.calculated_position matches Some(v) && cat048_calculated_position_at(s, p, v)))
    &&& (k != 11 ==> r.calculated_position is None)
    &&& (k == 12 ==> (r.calculated_track_velocity matches Some(v) && cat048_calculated_track_velocity_at(s, p, v)))
    &&& (k != 12 ==> r.calculated_track_velocity is None)
    &&& (k == 13 ==> (r.track_status matches Some(v) && cat048_track_status_at(s, p, v)))
    &&& (k != 13 ==> r.track_status is None)
    &&& (k == 14 ==> (r.track_quality matches Some(v) && cat048_track_quality_at(s, p, v)))
    &&& (k != 14 ==> r.track_quality is None)
    &&& (k == 15 ==> (r.warning_error_conditions matches Some(v) && cat048_warning_error_conditions_at(s, p, v)))
    &&& (k != 15 ==> r.warning_error_conditions is None)
    &&& (k == 16 ==> (r.mode_3a_confidence matches Some(v) && cat048_mode_3a_confidence_at(s, p, v)))
    &&& (k != 16 ==> r.mode_3a_confidence is None)
}

/// A CAT048 record whose FSPEC announces one item `k` alone holds that item,
/// read from the octets right after the FSPEC, in the field the UAP assigns
/// to FRN `k + 1` (as `lemma_cat048_record_fields` lays it out), and no other
/// of those fields.
pub proof fn lemma_cat048_single_item_record(s: Seq<u8>, k: int)
    requires
        0 <= k < 17,
        k / 7 + 1 <= s.len(),
        s.subrange(0, k / 7 + 1) == single_item_fspec(k),
    ensures
        spec_parse_cat048_record(s) matches Ok((r, n)) ==> r.fspec == single_item_fspec(k) && cat048_only_item(s, k, k / 7 + 1, r),
{
    lemma_single_fspec(s, k, 4, AsterixError::FspecTooLong);
    let f = single_item_fspec(k);
    let start = (empty_cat048(f), k / 7 + 1);
    lemma_cat048_upto_single(s, f, start, k, 17);
    lemma_cat048_item_fields(s, k, start.0, start.1);
}

} // verus!
