//! Battery frames of wireless gaming headsets (Corsair, Logitech, SteelSeries,
//! and a few single-model protocols).

use vstd::prelude::*;
use crate::text::owned;

verus! {

/// A headset's battery reading.
#[derive(Debug, Clone, Copy, PartialEq, Eq, Structural)]
pub struct Reading {
    pub level: Option<u8>,
    pub charging: bool,
}

impl Reading {
    pub fn charging(level: Option<u8>) -> (r: Reading)
        ensures
            r == (Reading { level, charging: true }),
    {
        Reading { level, charging: true }
    }

    pub fn discharging(level: u8) -> (r: Reading)
        ensures
            r == (Reading { level: Some(level), charging: false }),
    {
        Reading { level: Some(level), charging: false }
    }
}

/// A raw byte that already is a percentage.
pub fn percentage(level: u8) -> (r: Result<u8, String>)
    ensures
        r is Ok <==> level <= 100,
        r matches Ok(l) ==> l == level,
{
    if level <= 100 {
        Ok(level)
    } else {
        Err(owned("headset reported an invalid battery percentage"))
    }
}

/// A raw battery value in `minimum..=maximum`, scaled to a percentage (rounded down).
pub open spec fn scaled(raw: u8, minimum: u8, maximum: u8) -> int {
    (raw - minimum) * 100 / (maximum - minimum)
}

/// A raw value at the bottom of its range reads 0%, one at the top reads
/// 100%, and a higher raw value never reads a lower level.
pub proof fn law_scaled_levels_rise(low: u8, high: u8, minimum: u8, maximum: u8)
    requires
        minimum < maximum,
        minimum <= low <= high <= maximum,
    ensures
        scaled(minimum, minimum, maximum) == 0,
        scaled(maximum, minimum, maximum) == 100,
        0 <= scaled(low, minimum, maximum) <= scaled(high, minimum, maximum) <= 100,
{
    let span = maximum - minimum;
    assert((low - minimum) * 100 <= (high - minimum) * 100) by (nonlinear_arith)
        requires
            low <= high,
    ;
    vstd::arithmetic::div_mod::lemma_div_is_ordered((low - minimum) * 100, (high - minimum) * 100, span);
    vstd::arithmetic::div_mod::lemma_div_is_ordered(0, (low - minimum) * 100, span);
    vstd::arithmetic::div_mod::lemma_div_is_ordered((high - minimum) * 100, span * 100, span);
    assert((span * 100) / span == 100) by (nonlinear_arith)
        requires
            span > 0,
    ;
    assert(0int / span == 0) by (nonlinear_arith)
        requires
            span > 0,
    ;
}

pub fn map_battery(raw: u8, minimum: u8, maximum: u8) -> (r: Result<u8, String>)
    ensures
        r is Ok <==> minimum < maximum && minimum <= raw <= maximum,
        r matches Ok(l) ==> l as int == scaled(raw, minimum, maximum) && l <= 100,
{
    if minimum >= maximum || raw < minimum || raw > maximum {
        return Err(owned("headset reported a battery value outside its range"));
    }
    let offset = (raw - minimum) as u32;
    let span = (maximum - minimum) as u32;
    assert(offset * 100 <= span * 100) by (nonlinear_arith)
        requires
            offset <= span,
    ;
    let l = offset * 100 / span;
    assert(l <= 100) by (nonlinear_arith)
        requires
            l == offset * 100 / (span as int),
            offset * 100 <= span * 100,
            span > 0,
    ;
    Ok(l as u8)
}

// ---------------------------------------------------------------------------
// Corsair
// ---------------------------------------------------------------------------

pub open spec fn void_accepts(r: Seq<u8>) -> bool {
    r.len() >= 5 && (r[4] == 1 || r[4] == 2 || r[4] == 4 || r[4] == 5) && r[2] & 0x7f <= 100
}

/// Decodes a Corsair Void battery report: byte 2 holds the level (its top bit
/// is the microphone flag) and byte 4 the state (0 offline, 4 and 5 charging).
pub fn parse_void(response: &[u8]) -> (r: Result<Reading, String>)
    ensures
        r is Ok <==> void_accepts(response@),
        r matches Ok(reading) ==> reading == (Reading {
            level: Some(response@[2] & 0x7f),
            charging: response@[4] == 4 || response@[4] == 5,
        }),
{
    if response.len() < 5 {
        return Err(owned("Corsair battery response was too short"));
    }
    let status = response[4];
    if status == 0 {
        return Err(owned("Corsair headset is offline"));
    }
    if !(status == 1 || status == 2 || status == 4 || status == 5) {
        return Err(owned("unknown Corsair battery status"));
    }
    let level = percentage(response[2] & 0x7f)?;
    Ok(if status == 4 || status == 5 {
        Reading::charging(Some(level))
    } else {
        Reading::discharging(level)
    })
}

/// Decodes a Corsair wireless V2 battery frame: `None` when the frame carries
/// the receiver's identifier instead (the request is then repeated).
pub fn parse_void_v2(response: &[u8]) -> (r: Result<Option<Reading>, String>)
    ensures
        r is Ok <==> response@.len() >= 6,
        r matches Ok(o) ==> (response@[5] == 0x2a <==> o is None),
        r matches Ok(Some(reading)) ==> reading == Reading::discharging_spec(
            if (response@[4] as int + response@[5] as int * 256) / 10 >= 100 {
                100
            } else {
                ((response@[4] as int + response@[5] as int * 256) / 10) as u8
            },
        ),
{
    if response.len() < 6 {
        return Err(owned("Corsair V2 battery response was too short"));
    }
    if response[5] == 0x2a {
        return Ok(None);
    }
    let raw = (response[4] as u16) + (response[5] as u16) * 256;
    let tenths = raw / 10;
    let level: u8 = if tenths >= 100 { 100 } else { tenths as u8 };
    Ok(Some(Reading::discharging(level)))
}

impl Reading {
    pub open spec fn discharging_spec(level: u8) -> Reading {
        Reading { level: Some(level), charging: false }
    }
}

// ---------------------------------------------------------------------------
// Logitech gaming headsets
// ---------------------------------------------------------------------------

/// Between two neighbouring points the voltage rises and the level does not fall.
pub open spec fn curve_step(curve: Seq<(u16, u8)>, i: int) -> bool {
    curve[i].0 < curve[i + 1].0 && curve[i].1 <= curve[i + 1].1
}

/// A discharge curve: at least one point, voltages strictly rising, levels
/// rising and at most 100.
pub open spec fn curve_ok(curve: Seq<(u16, u8)>) -> bool {
    &&& curve.len() >= 1
    &&& forall|i: int| 0 <= i < curve.len() - 1 ==> #[trigger] curve_step(curve, i)
    &&& forall|i: int| 0 <= i < curve.len() ==> #[trigger] curve[i].1 <= 100
}

/// Index of the first curve segment `[curve[i], curve[i + 1]]` that contains `v`.
pub open spec fn segment_of(curve: Seq<(u16, u8)>, v: u16) -> int {
    crate::text::first_match(
        Seq::new((curve.len() - 1) as nat, |i: int| i),
        |i: int| curve[i].0 <= v <= curve[i + 1].0,
    )
}

/// Level for a voltage on a piecewise-linear discharge curve, rounded to the
/// nearest percent (halves up); none below the curve, the top level above it.
pub open spec fn curve_level(curve: Seq<(u16, u8)>, v: u16) -> Option<u8> {
    if v < curve[0].0 {
        None
    } else if v >= curve.last().0 {
        Some(curve.last().1)
    } else {
        let i = segment_of(curve, v);
        let (lv, ll) = curve[i];
        let (hv, hl) = curve[i + 1];
        Some((ll + ((v - lv) * (hl - ll) + (hv - lv) / 2) / (hv - lv)) as u8)
    }
}

pub fn interpolate_voltage(voltage: u16, curve: &[(u16, u8)]) -> (r: Option<u8>)
    requires
        curve_ok(curve@),
    ensures
        r == curve_level(curve@, voltage),
{
    let first = curve[0];
    let last = curve[curve.len() - 1];
    if voltage < first.0 {
        return None;
    }
    if voltage >= last.0 {
        return Some(last.1);
    }
    let ghost idx = Seq::new((curve@.len() - 1) as nat, |i: int| i);
    let ghost p = |i: int| curve@[i].0 <= voltage <= curve@[i + 1].0;
    let mut i: usize = 0;
    while i < curve.len() - 1
        invariant
            curve_ok(curve@),
            curve@[0].0 <= voltage < curve@.last().0,
            i + 1 <= curve@.len(),
            idx == Seq::new((curve@.len() - 1) as nat, |i: int| i),
            p == (|i: int| curve@[i].0 <= voltage <= curve@[i + 1].0),
            forall|j: int| 0 <= j < i ==> !p(idx[j]),
            curve@[i as int].0 <= voltage,
        decreases curve@.len() - i,
    {
        let (low_voltage, low_level) = curve[i];
        let (high_voltage, high_level) = curve[i + 1];
        assert(curve_step(curve@, i as int));
        assert(curve@[i + 1].1 <= 100);
        if low_voltage <= voltage && voltage <= high_voltage {
            proof {
                crate::text::lemma_first_match(idx, p, i as int);
            }
            let span = (high_voltage - low_voltage) as u32;
            let offset = (voltage - low_voltage) as u32;
            let level_span = (high_level - low_level) as u32;
            assert(offset * level_span <= span * 100) by (nonlinear_arith)
                requires
                    offset <= span,
                    level_span <= 100,
            ;
            let q = (offset * level_span + span / 2) / span;
            assert(q <= level_span) by (nonlinear_arith)
                requires
                    q == (offset * level_span + span / 2) / (span as int),
                    offset <= span,
                    span > 0,
            ;
            return Some(low_level + q as u8);
        }
        i += 1;
    }
    // The curve is increasing and `voltage` lies below its last point, so some
    // segment contains it.
    assert(false);
    None
}

pub open spec fn voltage_frame_accepts(r: Seq<u8>, command: (u8, u8), curve: Seq<(u16, u8)>) -> bool {
    r.len() >= 7 && r[2] != 0xff && r[2] == command.0 && r[3] == command.1
        && curve_level(curve, (r[4] as int * 256 + r[5] as int) as u16) is Some
}

/// Decodes a Logitech headset's voltage report for `command`.
pub fn parse_voltage_response(response: &[u8], command: (u8, u8), curve: &[(u16, u8)]) -> (r: Result<Reading, String>)
    requires
        curve_ok(curve@),
    ensures
        r is Ok <==> voltage_frame_accepts(response@, command, curve@),
        r matches Ok(reading) ==> reading.level == curve_level(curve@, (response@[4] as int * 256 + response@[5] as int) as u16)
            && reading.charging == (response@[6] == 0x03),
{
    if response.len() < 7 {
        return Err(owned("Logitech headset battery response was too short"));
    }
    if response[2] == 0xff {
        return Err(owned("Logitech headset is offline"));
    }
    if response[2] != command.0 || response[3] != command.1 {
        return Err(owned("Logitech headset returned an unrelated response"));
    }
    let voltage = (response[4] as u16) * 256 + (response[5] as u16);
    let level = match interpolate_voltage(voltage, curve) {
        Some(level) => level,
        None => return Err(owned("Logitech headset reported an invalid voltage")),
    };
    Ok(if response[6] == 0x03 {
        Reading::charging(Some(level))
    } else {
        Reading::discharging(level)
    })
}

/// Discharge curve of the Logitech G533.
pub fn g533_curve() -> (c: Vec<(u16, u8)>)
    ensures
        c@ == seq![(3330u16, 0u8), (3680, 5), (3750, 20), (3790, 30), (3850, 50), (4200, 100)],
        curve_ok(c@),
{
    let c = vec![(3330u16, 0u8), (3680, 5), (3750, 20), (3790, 30), (3850, 50), (4200, 100)];
    proof {
        assert(curve_step(c@, 0) && curve_step(c@, 1) && curve_step(c@, 2) && curve_step(c@, 3)
            && curve_step(c@, 4));
    }
    c
}

/// Discharge curve of the Logitech G535.
pub fn g535_curve() -> (c: Vec<(u16, u8)>)
    ensures
        c@ == seq![(3310u16, 0u8), (3664, 5), (3730, 20), (3766, 30), (3817, 50), (4175, 100)],
        curve_ok(c@),
{
    let c = vec![(3310u16, 0u8), (3664, 5), (3730, 20), (3766, 30), (3817, 50), (4175, 100)];
    proof {
        assert(curve_step(c@, 0) && curve_step(c@, 1) && curve_step(c@, 2) && curve_step(c@, 3)
            && curve_step(c@, 4));
    }
    c
}

/// Discharge curve of the Logitech G633/G635/G733/G933/G935 family.
pub fn g633_curve() -> (c: Vec<(u16, u8)>)
    ensures
        c@ == seq![
            (3150u16, 0u8),
            (3300, 5),
            (3500, 10),
            (3650, 20),
            (3750, 40),
            (3850, 60),
            (3950, 80),
            (4100, 100),
        ],
        curve_ok(c@),
{
    let c = vec![
        (3150u16, 0u8),
        (3300, 5),
        (3500, 10),
        (3650, 20),
        (3750, 40),
        (3850, 60),
        (3950, 80),
        (4100, 100),
    ];
    proof {
        assert(curve_step(c@, 0) && curve_step(c@, 1) && curve_step(c@, 2) && curve_step(c@, 3)
            && curve_step(c@, 4) && curve_step(c@, 5) && curve_step(c@, 6));
    }
    c
}

/// Discharge curve of the Logitech G PRO series.
pub fn gpro_curve() -> (c: Vec<(u16, u8)>)
    ensures
        c@ == seq![(3320u16, 0u8), (3670, 5), (3740, 20), (3780, 30), (3830, 50), (4150, 100)],
        curve_ok(c@),
{
    let c = vec![(3320u16, 0u8), (3670, 5), (3740, 20), (3780, 30), (3830, 50), (4150, 100)];
    proof {
        assert(curve_step(c@, 0) && curve_step(c@, 1) && curve_step(c@, 2) && curve_step(c@, 3)
            && curve_step(c@, 4));
    }
    c
}

/// What a frame read while waiting for a headset's battery report says.
#[derive(Debug, Clone, PartialEq, Eq)]
pub enum FrameOutcome {
    /// Not the battery frame; keep reading.
    Skip,
    /// The headset is switched off or out of range.
    Offline,
    Battery(Reading),
    Invalid,
}

pub open spec fn frame_level(raw: u8, charging: bool) -> FrameOutcome {
    if raw <= 100 {
        FrameOutcome::Battery(Reading { level: Some(raw), charging })
    } else {
        FrameOutcome::Invalid
    }
}

fn frame_reading(raw: u8, charging: bool) -> (r: FrameOutcome)
    ensures
        r == frame_level(raw, charging),
{
    if raw <= 100 {
        if charging {
            FrameOutcome::Battery(Reading::charging(Some(raw)))
        } else {
            FrameOutcome::Battery(Reading::discharging(raw))
        }
    } else {
        FrameOutcome::Invalid
    }
}

/// What a frame of the Logitech G522's reply says.
pub open spec fn g522_outcome(r: Seq<u8>) -> FrameOutcome {
    if r.len() >= 8 && r[0] == 0x50 && r[1] == 0x23 && r[2] == 0x05 && r[7] == 0 {
        FrameOutcome::Offline
    } else if r.len() >= 14 && r[0] == 0x50 && r[1] == 0x23 && r[2] == 0x0b && r[9] == 0x05 {
        frame_level(r[11], r[13] == 0x02)
    } else {
        FrameOutcome::Skip
    }
}

/// Whether `r` is a G522 battery frame.
pub open spec fn g522_battery_frame(r: Seq<u8>) -> bool {
    r.len() >= 14 && r[0] == 0x50 && r[1] == 0x23 && r[2] == 0x0b && r[9] == 0x05
}

/// One frame of the Logitech G522's reply.
pub fn parse_g522_frame(r: &[u8]) -> (o: FrameOutcome)
    ensures
        o == g522_outcome(r@),
        g522_battery_frame(r@) && r@[11] <= 100 ==> o == FrameOutcome::Battery(
            Reading { level: Some(r@[11]), charging: r@[13] == 0x02 },
        ),
        g522_battery_frame(r@) && r@[11] > 100 ==> o == FrameOutcome::Invalid,
{
    if r.len() >= 8 && r[0] == 0x50 && r[1] == 0x23 && r[2] == 0x05 && r[7] == 0 {
        return FrameOutcome::Offline;
    }
    if r.len() >= 14 && r[0] == 0x50 && r[1] == 0x23 && r[2] == 0x0b && r[9] == 0x05 {
        return frame_reading(r[11], r[13] == 0x02);
    }
    FrameOutcome::Skip
}

/// What a frame of the Logitech G PRO X 2 LIGHTSPEED's reply says.
pub open spec fn gpro_x2_outcome(r: Seq<u8>) -> FrameOutcome {
    if r.len() >= 7 && r[0] == 0x51 && r[1] == 0x05 && r[6] == 0 {
        FrameOutcome::Offline
    } else if r.len() >= 13 && r[0] == 0x51 && r[1] == 0x0b && r[8] == 0x04 {
        frame_level(r[10], r[12] == 0x02)
    } else {
        FrameOutcome::Skip
    }
}

/// Whether `r` is a G PRO X 2 battery frame.
pub open spec fn gpro_x2_battery_frame(r: Seq<u8>) -> bool {
    r.len() >= 13 && r[0] == 0x51 && r[1] == 0x0b && r[8] == 0x04
}

/// One frame of the Logitech G PRO X 2 LIGHTSPEED's reply.
pub fn parse_gpro_x2_frame(r: &[u8]) -> (o: FrameOutcome)
    ensures
        o == gpro_x2_outcome(r@),
        gpro_x2_battery_frame(r@) && r@[10] <= 100 ==> o == FrameOutcome::Battery(
            Reading { level: Some(r@[10]), charging: r@[12] == 0x02 },
        ),
        gpro_x2_battery_frame(r@) && r@[10] > 100 ==> o == FrameOutcome::Invalid,
{
    if r.len() >= 7 && r[0] == 0x51 && r[1] == 0x05 && r[6] == 0 {
        return FrameOutcome::Offline;
    }
    if r.len() >= 13 && r[0] == 0x51 && r[1] == 0x0b && r[8] == 0x04 {
        return frame_reading(r[10], r[12] == 0x02);
    }
    FrameOutcome::Skip
}

/// What a frame of the ASTRO A50's reply says.
pub open spec fn astro_a50_outcome(r: Seq<u8>) -> FrameOutcome {
    if r.len() < 9 || r[0] != 0x02 || r[1] != 0x0c || r[4] != 0x06 {
        FrameOutcome::Skip
    } else {
        frame_level(r[6], r[8] != 0)
    }
}

/// One frame of the ASTRO A50's reply.
pub fn parse_astro_a50_frame(r: &[u8]) -> (o: FrameOutcome)
    ensures
        o == astro_a50_outcome(r@),
        r@.len() >= 9 && r@[0] == 0x02 && r@[1] == 0x0c && r@[4] == 0x06 && r@[6] <= 100 ==> o
            == FrameOutcome::Battery(Reading { level: Some(r@[6]), charging: r@[8] != 0 }),
{
    if r.len() < 9 || r[0] != 0x02 || r[1] != 0x0c || r[4] != 0x06 {
        return FrameOutcome::Skip;
    }
    frame_reading(r[6], r[8] != 0)
}

/// A battery frame of a Logitech or ASTRO headset reports its level byte as
/// the level, and charging exactly when its charging byte says so (G522:
/// byte 13 is 0x02; G PRO X 2: byte 12 is 0x02; A50: byte 8 is not zero).
/// A level over 100 is invalid.
pub proof fn law_frames_report_level_and_charging(r: Seq<u8>)
    ensures
        g522_battery_frame(r) ==> g522_outcome(r) == if r[11] <= 100 {
            FrameOutcome::Battery(Reading { level: Some(r[11]), charging: r[13] == 0x02 })
        } else {
            FrameOutcome::Invalid
        },
        gpro_x2_battery_frame(r) ==> gpro_x2_outcome(r) == if r[10] <= 100 {
            FrameOutcome::Battery(Reading { level: Some(r[10]), charging: r[12] == 0x02 })
        } else {
            FrameOutcome::Invalid
        },
        r.len() >= 9 && r[0] == 0x02 && r[1] == 0x0c && r[4] == 0x06 ==> astro_a50_outcome(r) == if r[6] <= 100 {
            FrameOutcome::Battery(Reading { level: Some(r[6]), charging: r[8] != 0 })
        } else {
            FrameOutcome::Invalid
        },
{
}

/// One frame of the Sony INZONE Buds: the lower of the two buds' levels.
pub fn parse_inzone_buds_frame(r: &[u8]) -> (o: FrameOutcome)
    ensures
        o == (if r@.len() < 19 || r@[1] != 0x12 || r@[2] != 0x04 {
            FrameOutcome::Skip
        } else if r@[14] > 100 || r@[16] > 100 {
            FrameOutcome::Invalid
        } else {
            FrameOutcome::Battery(Reading {
                level: Some(if r@[16] < r@[14] { r@[16] } else { r@[14] }),
                charging: false,
            })
        }),
{
    if r.len() < 19 || r[1] != 0x12 || r[2] != 0x04 {
        return FrameOutcome::Skip;
    }
    if r[14] > 100 || r[16] > 100 {
        return FrameOutcome::Invalid;
    }
    let right = r[14];
    let left = r[16];
    FrameOutcome::Battery(Reading::discharging(if left < right { left } else { right }))
}

/// The Lenovo VoIP headset's battery report.
pub fn parse_lenovo_voip(r: &[u8]) -> (o: Result<Reading, String>)
    ensures
        o is Ok <==> r@.len() == 61 && r@[0] == 0x27 && r@[1] == 0x01 && r@[2] == 0 && r@[7] <= 100,
        o matches Ok(reading) ==> reading == Reading::discharging_spec(r@[7]),
{
    if r.len() != 61 || r[0] != 0x27 || r[1] != 0x01 {
        return Err(owned("Lenovo VoIP headset returned an unrelated response"));
    }
    if r[2] != 0 {
        return Err(owned("Lenovo VoIP headset is offline"));
    }
    Ok(Reading::discharging(percentage(r[7])?))
}

/// The Logitech G930's feature report: byte 13 is the battery, raw 44..=91.
pub fn parse_g930(r: &[u8]) -> (o: Result<Reading, String>)
    ensures
        o is Ok <==> r@.len() > 13 && 44 <= r@[13] <= 91,
        o matches Ok(reading) ==> reading == Reading::discharging_spec(scaled(r@[13], 44, 91) as u8),
{
    if r.len() <= 13 {
        return Err(owned("Logitech G930 battery response was too short"));
    }
    Ok(Reading::discharging(map_battery(r[13], 44, 91)?))
}

// ---------------------------------------------------------------------------
// SteelSeries
// ---------------------------------------------------------------------------

/// Layout of a legacy SteelSeries battery reply.
#[derive(Debug, Clone, Copy, PartialEq, Eq)]
pub struct DirectBattery {
    pub response_size: usize,
    pub battery_index: usize,
    pub status_index: Option<usize>,
    pub offline_value: Option<u8>,
    pub charging_value: Option<u8>,
    pub minimum: u8,
    pub maximum: u8,
}

pub open spec fn direct_status(r: Seq<u8>, spec: DirectBattery) -> Option<u8> {
    match spec.status_index {
        Some(i) => if i < r.len() { Some(r[i as int]) } else { None },
        None => None,
    }
}

pub open spec fn direct_offline(r: Seq<u8>, spec: DirectBattery) -> bool {
    direct_status(r, spec) is Some && spec.offline_value is Some && direct_status(r, spec)->0
        == spec.offline_value->0
}

pub open spec fn direct_charging(r: Seq<u8>, spec: DirectBattery) -> bool {
    direct_status(r, spec) is Some && spec.charging_value is Some && direct_status(r, spec)->0
        == spec.charging_value->0
}

/// Decodes a legacy SteelSeries battery reply described by `spec`.
pub fn parse_direct(response: &[u8], spec: DirectBattery) -> (r: Result<Reading, String>)
    ensures
        r is Ok <==> spec.battery_index < response@.len() && !direct_offline(response@, spec)
            && spec.minimum < spec.maximum && spec.minimum <= response@[spec.battery_index as int]
            <= spec.maximum,
        r matches Ok(reading) ==> reading.level == Some(
            scaled(response@[spec.battery_index as int], spec.minimum, spec.maximum) as u8,
        ) && reading.charging == direct_charging(response@, spec),
{
    if spec.battery_index >= response.len() {
        return Err(owned("SteelSeries battery response was too short"));
    }
    let raw = response[spec.battery_index];
    let status: Option<u8> = match spec.status_index {
        Some(i) => if i < response.len() { Some(response[i]) } else { None },
        None => None,
    };
    let offline = match (status, spec.offline_value) {
        (Some(s), Some(o)) => s == o,
        _ => false,
    };
    if offline {
        return Err(owned("SteelSeries headset is offline"));
    }
    let level = map_battery(raw, spec.minimum, spec.maximum)?;
    let charging = match (status, spec.charging_value) {
        (Some(s), Some(c)) => s == c,
        _ => false,
    };
    Ok(if charging {
        Reading::charging(Some(level))
    } else {
        Reading::discharging(level)
    })
}

/// Nova 7 models that report their level in five steps rather than percent.
pub open spec fn nova_7_discrete(product_id: u16) -> bool {
    product_id == 0x2202 || product_id == 0x2206 || product_id == 0x220a || product_id == 0x223a
        || product_id == 0x227a || product_id == 0x22a4
}

/// Decodes an Arctis Nova 7 status reply.
pub fn parse_nova_7(response: &[u8], product_id: u16) -> (r: Result<Reading, String>)
    ensures
        r is Ok <==> response@.len() >= 4 && response@[3] != 0 && (if nova_7_discrete(product_id) {
            response@[2] <= 4
        } else {
            response@[2] <= 100
        }),
        r matches Ok(reading) ==> reading.level == Some(
            if nova_7_discrete(product_id) {
                scaled(response@[2], 0, 4) as u8
            } else {
                response@[2]
            },
        ) && reading.charging == (response@[3] == 0x01 || response@[3] == 0x02),
{
    if response.len() < 4 {
        return Err(owned("Arctis Nova 7 status response was too short"));
    }
    if response[3] == 0 {
        return Err(owned("Arctis Nova 7 is offline"));
    }
    let discrete = product_id == 0x2202 || product_id == 0x2206 || product_id == 0x220a
        || product_id == 0x223a || product_id == 0x227a || product_id == 0x22a4;
    let level = if discrete {
        map_battery(response[2], 0, 4)?
    } else {
        percentage(response[2])?
    };
    Ok(if response[3] == 0x01 || response[3] == 0x02 {
        Reading::charging(Some(level))
    } else {
        Reading::discharging(level)
    })
}

/// Decodes an Arctis 7+ status reply.
pub fn parse_arctis_7_plus(r: &[u8]) -> (o: Result<Reading, String>)
    ensures
        o is Ok <==> r@.len() >= 4 && r@[1] != 0x01 && r@[2] <= 4,
        o matches Ok(reading) ==> reading.level == Some(scaled(r@[2], 0, 4) as u8) && reading.charging
            == (r@[3] == 0x01),
{
    if r.len() < 4 {
        return Err(owned("Arctis 7+ status response was too short"));
    }
    if r[1] == 0x01 {
        return Err(owned("Arctis 7+ is offline"));
    }
    let level = map_battery(r[2], 0, 4)?;
    Ok(if r[3] == 0x01 { Reading::charging(Some(level)) } else { Reading::discharging(level) })
}

/// Decodes an Arctis Nova 5 status reply.
pub fn parse_nova_5(r: &[u8]) -> (o: Result<Reading, String>)
    ensures
        o is Ok <==> r@.len() >= 5 && r@[1] != 0x02 && r@[3] <= 100,
        o matches Ok(reading) ==> reading.level == Some(r@[3]) && reading.charging == (r@[4] == 0x01),
{
    if r.len() < 5 {
        return Err(owned("Arctis Nova 5 status response was too short"));
    }
    if r[1] == 0x02 {
        return Err(owned("Arctis Nova 5 is offline"));
    }
    let level = percentage(r[3])?;
    Ok(if r[4] == 0x01 { Reading::charging(Some(level)) } else { Reading::discharging(level) })
}

/// Decodes an Arctis Nova 3P status reply.
pub fn parse_nova_3p(r: &[u8]) -> (o: Result<Reading, String>)
    ensures
        o is Ok <==> r@.len() >= 4 && r@[1] != 0x02 && r@[3] <= 100,
        o matches Ok(reading) ==> reading == Reading::discharging_spec(r@[3]),
{
    if r.len() < 4 {
        return Err(owned("Arctis Nova 3P status response was too short"));
    }
    if r[1] == 0x02 {
        return Err(owned("Arctis Nova 3P is offline"));
    }
    Ok(Reading::discharging(percentage(r[3])?))
}

/// Decodes an Arctis GameBuds status reply: the lower level of the buds that
/// are out of the case (state 3).
pub fn parse_gamebuds(r: &[u8]) -> (o: Result<Reading, String>)
    ensures
        o is Ok <==> r@.len() >= 7 && (r@[3] == 0x03 || r@[4] == 0x03) && (r@[3] == 0x03 ==> r@[5]
            <= 100) && (r@[4] == 0x03 ==> r@[6] <= 100),
        o matches Ok(reading) ==> reading == Reading::discharging_spec(
            if r@[3] == 0x03 && r@[4] == 0x03 {
                if r@[6] < r@[5] { r@[6] } else { r@[5] }
            } else if r@[3] == 0x03 {
                r@[5]
            } else {
                r@[6]
            },
        ),
{
    if r.len() < 7 {
        return Err(owned("Arctis GameBuds status response was too short"));
    }
    let left: Option<u8> = if r[3] == 0x03 { Some(percentage(r[5])?) } else { None };
    let right: Option<u8> = if r[4] == 0x03 { Some(percentage(r[6])?) } else { None };
    match (left, right) {
        (Some(a), Some(b)) => Ok(Reading::discharging(if b < a { b } else { a })),
        (Some(a), None) => Ok(Reading::discharging(a)),
        (None, Some(b)) => Ok(Reading::discharging(b)),
        (None, None) => Err(owned("Arctis GameBuds are docked")),
    }
}

/// Whether the Arctis Pro Wireless's status reply says it is offline.
pub fn arctis_pro_wireless_offline(status: &[u8]) -> (b: bool)
    ensures
        b == (status@.len() > 0 && status@[0] == 0x02),
{
    status.len() > 0 && status[0] == 0x02
}

/// Decodes the Arctis Pro Wireless's battery reply: one byte in five steps.
pub fn parse_arctis_pro_wireless(battery: &[u8]) -> (o: Result<Reading, String>)
    ensures
        o is Ok <==> battery@.len() > 0 && battery@[0] <= 4,
        o matches Ok(reading) ==> reading == Reading::discharging_spec(scaled(battery@[0], 0, 4) as u8),
{
    if battery.len() == 0 {
        return Err(owned("Arctis Pro Wireless battery response was empty"));
    }
    Ok(Reading::discharging(map_battery(battery[0], 0, 4)?))
}

/// Decodes an Arctis Nova Pro Wireless status reply.
pub fn parse_nova_pro_wireless(r: &[u8]) -> (o: Result<Reading, String>)
    ensures
        o is Ok <==> r@.len() >= 16 && r@[15] != 0x01 && r@[6] <= 8,
        o matches Ok(reading) ==> reading.level == Some(scaled(r@[6], 0, 8) as u8) && reading.charging
            == (r@[15] == 0x02),
{
    if r.len() < 16 {
        return Err(owned("Arctis Nova Pro Wireless response was too short"));
    }
    if r[15] == 0x01 {
        return Err(owned("Arctis Nova Pro Wireless is offline"));
    }
    let level = map_battery(r[6], 0, 8)?;
    Ok(if r[15] == 0x02 { Reading::charging(Some(level)) } else { Reading::discharging(level) })
}

} // verus!
