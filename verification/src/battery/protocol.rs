//! Logitech HID++ battery feature and register decoding.

use vstd::prelude::*;
use crate::text::{opt_view, owned};

verus! {

pub const DEVICE_NAME_FEATURE: u16 = 0x0005;
pub const DEVICE_FRIENDLY_NAME_FEATURE: u16 = 0x0007;

pub const BATTERY_STATUS_FEATURE: u16 = 0x1000;
pub const BATTERY_VOLTAGE_FEATURE: u16 = 0x1001;
pub const UNIFIED_BATTERY_FEATURE: u16 = 0x1004;
pub const ADC_MEASUREMENT_FEATURE: u16 = 0x1f20;
pub const CENTURION_BATTERY_FEATURE: u16 = 0x0104;

pub const HIDPP10_BATTERY_STATUS_REGISTER: u16 = 0x07;
pub const HIDPP10_BATTERY_CHARGE_REGISTER: u16 = 0x0d;

#[derive(Debug, Clone, Copy, PartialEq, Eq, Structural)]
pub enum BatteryFeature {
    Status,
    Voltage,
    Unified,
    AdcMeasurement,
    Centurion,
}

#[derive(Debug, Clone, Copy, PartialEq, Eq, Structural)]
pub enum BatteryProtocol {
    Hidpp20 { feature: BatteryFeature, index: u8 },
    Hidpp10,
    Unknown,
}

#[derive(Debug, Clone, PartialEq, Eq)]
pub struct BatteryReading {
    pub level: Option<u8>,
    pub status: Option<String>,
}

impl BatteryReading {
    pub fn copy(&self) -> (r: BatteryReading)
        ensures
            r == *self,
    {
        BatteryReading { level: self.level, status: crate::text::copy_opt_string(&self.status) }
    }
}

/// Level and status text of a reading.
pub open spec fn reading_view(r: BatteryReading) -> (Option<u8>, Option<Seq<char>>) {
    (r.level, opt_view(r.status))
}

pub open spec fn feature_id(f: BatteryFeature) -> u16 {
    match f {
        BatteryFeature::Status => BATTERY_STATUS_FEATURE,
        BatteryFeature::Voltage => BATTERY_VOLTAGE_FEATURE,
        BatteryFeature::Unified => UNIFIED_BATTERY_FEATURE,
        BatteryFeature::AdcMeasurement => ADC_MEASUREMENT_FEATURE,
        BatteryFeature::Centurion => CENTURION_BATTERY_FEATURE,
    }
}

pub open spec fn feature_function(f: BatteryFeature) -> u8 {
    match f {
        BatteryFeature::Unified => 0x10,
        _ => 0x00,
    }
}

/// The order in which battery features are probed.
pub open spec fn all_features() -> Seq<BatteryFeature> {
    seq![
        BatteryFeature::Status,
        BatteryFeature::Voltage,
        BatteryFeature::Unified,
        BatteryFeature::AdcMeasurement,
        BatteryFeature::Centurion,
    ]
}

pub fn all_battery_features() -> (r: Vec<BatteryFeature>)
    ensures
        r@ == all_features(),
{
    let r = vec![
        BatteryFeature::Status,
        BatteryFeature::Voltage,
        BatteryFeature::Unified,
        BatteryFeature::AdcMeasurement,
        BatteryFeature::Centurion,
    ];
    assert(r@ =~= all_features());
    r
}

pub open spec fn valid_pct(level: u8) -> Option<u8> {
    if level <= 100 { Some(level) } else { None }
}

pub open spec fn reported_pct(level: u8) -> Option<u8> {
    if 0 < level && level <= 100 { Some(level) } else { None }
}

pub open spec fn hidpp20_status_text(status: u8) -> Option<Seq<char>> {
    if status == 0x00 {
        Some("discharging"@)
    } else if status == 0x01 || status == 0x02 || status == 0x04 {
        Some("charging"@)
    } else if status == 0x03 {
        Some("charged"@)
    } else if status == 0x05 {
        Some("invalid battery"@)
    } else if status == 0x06 {
        Some("thermal error"@)
    } else {
        None
    }
}

/// Linear interpolation between two curve points, rounded to the nearest percent
/// (halves round up).
pub open spec fn interpolate(v: int, low_v: int, low_p: int, high_v: int, high_p: int) -> int {
    low_p + (2 * (high_p - low_p) * (v - low_v) + (high_v - low_v)) / (2 * (high_v - low_v))
}

/// Battery percentage of a single Li-ion cell at `voltage` millivolts, following
/// the discharge curve 4186→100, 4067→90, 3989→80, 3922→70, 3859→60, 3811→50,
/// 3778→40, 3751→30, 3717→20, 3671→10, 3646→5, 3579→2, 3500→0.
pub open spec fn voltage_percentage(v: u16) -> int {
    if v >= 4186 { 100 }
    else if v <= 3500 { 0 }
    else if v >= 4067 { interpolate(v as int, 4067, 90, 4186, 100) }
    else if v >= 3989 { interpolate(v as int, 3989, 80, 4067, 90) }
    else if v >= 3922 { interpolate(v as int, 3922, 70, 3989, 80) }
    else if v >= 3859 { interpolate(v as int, 3859, 60, 3922, 70) }
    else if v >= 3811 { interpolate(v as int, 3811, 50, 3859, 60) }
    else if v >= 3778 { interpolate(v as int, 3778, 40, 3811, 50) }
    else if v >= 3751 { interpolate(v as int, 3751, 30, 3778, 40) }
    else if v >= 3717 { interpolate(v as int, 3717, 20, 3751, 30) }
    else if v >= 3671 { interpolate(v as int, 3671, 10, 3717, 20) }
    else if v >= 3646 { interpolate(v as int, 3646, 5, 3671, 10) }
    else if v >= 3579 { interpolate(v as int, 3579, 2, 3646, 5) }
    else { interpolate(v as int, 3500, 0, 3579, 2) }
}

/// The curve piece (low voltage, low percent, high voltage, high percent)
/// that holds a voltage strictly between empty and full.
spec fn curve_piece(v: u16) -> (int, int, int, int) {
    if v >= 4067 { (4067, 90, 4186, 100) }
    else if v >= 3989 { (3989, 80, 4067, 90) }
    else if v >= 3922 { (3922, 70, 3989, 80) }
    else if v >= 3859 { (3859, 60, 3922, 70) }
    else if v >= 3811 { (3811, 50, 3859, 60) }
    else if v >= 3778 { (3778, 40, 3811, 50) }
    else if v >= 3751 { (3751, 30, 3778, 40) }
    else if v >= 3717 { (3717, 20, 3751, 30) }
    else if v >= 3671 { (3671, 10, 3717, 20) }
    else if v >= 3646 { (3646, 5, 3671, 10) }
    else if v >= 3579 { (3579, 2, 3646, 5) }
    else { (3500, 0, 3579, 2) }
}

/// Along one rising piece, interpolation starts at the low percent, ends at
/// the high one, and never falls in between.
proof fn lemma_interpolate_rises(a: int, b: int, low_v: int, low_p: int, high_v: int, high_p: int)
    requires
        low_v <= a <= b <= high_v,
        low_v < high_v,
        low_p <= high_p,
    ensures
        low_p <= interpolate(a, low_v, low_p, high_v, high_p),
        interpolate(a, low_v, low_p, high_v, high_p) <= interpolate(b, low_v, low_p, high_v, high_p),
        interpolate(b, low_v, low_p, high_v, high_p) <= high_p,
{
    let d = high_p - low_p;
    let s = high_v - low_v;
    let na = 2 * d * (a - low_v) + s;
    let nb = 2 * d * (b - low_v) + s;
    assert(s <= na <= nb <= 2 * d * s + s) by (nonlinear_arith)
        requires
            na == 2 * d * (a - low_v) + s,
            nb == 2 * d * (b - low_v) + s,
            s == high_v - low_v,
            d >= 0,
            low_v <= a <= b <= high_v,
    ;
    vstd::arithmetic::div_mod::lemma_div_is_ordered(s, na, 2 * s);
    vstd::arithmetic::div_mod::lemma_div_is_ordered(na, nb, 2 * s);
    vstd::arithmetic::div_mod::lemma_div_is_ordered(nb, 2 * d * s + s, 2 * s);
    vstd::arithmetic::div_mod::lemma_fundamental_div_mod_converse(s, 2 * s, 0, s);
    assert(2 * d * s + s == d * (2 * s) + s) by (nonlinear_arith);
    vstd::arithmetic::div_mod::lemma_fundamental_div_mod_converse(2 * d * s + s, 2 * s, d, s);
}

/// A cell with more voltage never reads a lower percentage.
pub proof fn law_voltage_reading_rises(low: u16, high: u16)
    requires
        low <= high,
    ensures
        0 <= voltage_percentage(low) <= voltage_percentage(high) <= 100,
{
    if 3500 < low < 4186 {
        let p = curve_piece(low);
        lemma_interpolate_rises(low as int, low as int, p.0, p.1, p.2, p.3);
    }
    if 3500 < high < 4186 {
        let q = curve_piece(high);
        lemma_interpolate_rises(high as int, high as int, q.0, q.1, q.2, q.3);
        if 3500 < low && curve_piece(low) == q {
            lemma_interpolate_rises(low as int, high as int, q.0, q.1, q.2, q.3);
        }
    }
}

impl BatteryFeature {
    pub fn id(self) -> (r: u16)
        ensures
            r == feature_id(self),
    {
        match self {
            BatteryFeature::Status => BATTERY_STATUS_FEATURE,
            BatteryFeature::Voltage => BATTERY_VOLTAGE_FEATURE,
            BatteryFeature::Unified => UNIFIED_BATTERY_FEATURE,
            BatteryFeature::AdcMeasurement => ADC_MEASUREMENT_FEATURE,
            BatteryFeature::Centurion => CENTURION_BATTERY_FEATURE,
        }
    }

    pub fn function(self) -> (r: u8)
        ensures
            r == feature_function(self),
    {
        match self {
            BatteryFeature::Unified => 0x10,
            _ => 0x00,
        }
    }

    /// Decodes a feature's battery response.
    pub fn parse(self, response: &[u8]) -> (r: Result<BatteryReading, String>)
        ensures
            r is Ok <==> feature_accepts(self, response@),
            r matches Ok(reading) ==> reading_view(reading) == feature_reading(self, response@),
    {
        match self {
            BatteryFeature::Status => parse_battery_status(response),
            BatteryFeature::Voltage => parse_battery_voltage(response),
            BatteryFeature::Unified => parse_unified_battery(response),
            BatteryFeature::AdcMeasurement => parse_adc_measurement(response),
            BatteryFeature::Centurion => parse_centurion_battery(response),
        }
    }
}

pub open spec fn be16(high: u8, low: u8) -> u16 {
    (high as int * 256 + low as int) as u16
}

/// Whether a feature accepts a response.
pub open spec fn feature_accepts(f: BatteryFeature, r: Seq<u8>) -> bool {
    match f {
        BatteryFeature::Status | BatteryFeature::Unified => r.len() >= 3
            && hidpp20_status_text(r[2]) is Some,
        BatteryFeature::Voltage => r.len() >= 3,
        BatteryFeature::AdcMeasurement => r.len() >= 3 && r[2] & 0x01 != 0,
        BatteryFeature::Centurion => r.len() >= 1 && r[0] <= 100,
    }
}

pub open spec fn unified_approximation(a: u8) -> Option<u8> {
    if a == 8 { Some(90u8) }
    else if a == 4 { Some(50u8) }
    else if a == 2 { Some(20u8) }
    else if a == 1 { Some(5u8) }
    else { None }
}

pub open spec fn voltage_status_text(flags: u8) -> Seq<char> {
    if flags & 0x80 == 0 {
        "discharging"@
    } else if flags & 0x03 == 0x01 {
        "charged"@
    } else {
        "charging"@
    }
}

pub open spec fn centurion_status_text(r: Seq<u8>) -> Seq<char> {
    let s: u8 = if r.len() > 2 { r[2] } else { 0 };
    if s == 1 || s == 2 { "charging"@ } else if s == 3 { "charged"@ } else { "discharging"@ }
}

/// The level and status that a feature reads from an accepted response.
pub open spec fn feature_reading(f: BatteryFeature, r: Seq<u8>) -> (Option<u8>, Option<Seq<char>>) {
    match f {
        BatteryFeature::Status => (reported_pct(r[0]), hidpp20_status_text(r[2])),
        BatteryFeature::Unified => (
            if reported_pct(r[0]) is Some { reported_pct(r[0]) } else { unified_approximation(r[1]) },
            hidpp20_status_text(r[2]),
        ),
        BatteryFeature::Voltage => (
            Some(voltage_percentage(be16(r[0], r[1])) as u8),
            Some(voltage_status_text(r[2])),
        ),
        BatteryFeature::AdcMeasurement => (
            Some(voltage_percentage(be16(r[0], r[1])) as u8),
            Some(if r[2] & 0x02 != 0 { "charging"@ } else { "discharging"@ }),
        ),
        BatteryFeature::Centurion => (Some(r[0]), Some(centurion_status_text(r))),
    }
}

/// What the HID++ 2.0 battery features read from a reply. Status and
/// unified-battery replies take a status byte 0 as discharging, 1, 2 or 4 as
/// charging, 3 as charged, 5 as an invalid battery and 6 as a thermal error,
/// and refuse any other; their level is the first byte when it is 1..=100,
/// and for the unified feature otherwise the approximation in the second
/// byte (8 is 90%, 4 is 50%, 2 is 20%, 1 is 5%). The voltage feature charges
/// when the flag byte has bit 0x80, and is charged when its low bits are 01;
/// the ADC feature charges when bit 0x02 is set; a Centurion status 1 or 2
/// charges and 3 is charged. A full cell (4186 mV or more) reads 100% and an
/// empty one (3500 mV or less) 0%.
pub proof fn law_hidpp20_replies(r: Seq<u8>, v: u16)
    ensures
        r.len() >= 3 ==> {
            let status = feature_reading(BatteryFeature::Status, r);
            let unified = feature_reading(BatteryFeature::Unified, r);
            let pct: Option<u8> = if 0 < r[0] && r[0] <= 100 { Some(r[0]) } else { None };
            &&& feature_accepts(BatteryFeature::Status, r) <==> r[2] <= 6
            &&& feature_accepts(BatteryFeature::Unified, r) <==> r[2] <= 6
            &&& status.0 == pct
            &&& unified.0 == if pct is Some {
                pct
            } else if r[1] == 8 {
                Some(90u8)
            } else if r[1] == 4 {
                Some(50u8)
            } else if r[1] == 2 {
                Some(20u8)
            } else if r[1] == 1 {
                Some(5u8)
            } else {
                None
            }
            &&& r[2] == 0 ==> status.1 == Some("discharging"@) && unified.1 == Some("discharging"@)
            &&& (r[2] == 1 || r[2] == 2 || r[2] == 4) ==> status.1 == Some("charging"@) && unified.1
                == Some("charging"@)
            &&& r[2] == 3 ==> status.1 == Some("charged"@) && unified.1 == Some("charged"@)
            &&& r[2] == 5 ==> status.1 == Some("invalid battery"@) && unified.1 == Some("invalid battery"@)
            &&& r[2] == 6 ==> status.1 == Some("thermal error"@) && unified.1 == Some("thermal error"@)
            &&& feature_reading(BatteryFeature::Voltage, r).1 == Some(
                if r[2] & 0x80 == 0 {
                    "discharging"@
                } else if r[2] & 0x03 == 0x01 {
                    "charged"@
                } else {
                    "charging"@
                },
            )
            &&& feature_reading(BatteryFeature::AdcMeasurement, r).1 == Some(
                if r[2] & 0x02 != 0 { "charging"@ } else { "discharging"@ },
            )
            &&& feature_reading(BatteryFeature::Centurion, r) == (
                Some(r[0]),
                Some(if r[2] == 1 || r[2] == 2 { "charging"@ } else if r[2] == 3 { "charged"@ } else { "discharging"@ }),
            )
        },
        v >= 4186 ==> voltage_percentage(v) == 100,
        v <= 3500 ==> voltage_percentage(v) == 0,
{
}

pub fn parse_hidpp20_status(status: u8) -> (r: Option<String>)
    ensures
        opt_view(r) == hidpp20_status_text(status),
{
    if status == 0x00 {
        Some(owned("discharging"))
    } else if status == 0x01 || status == 0x02 || status == 0x04 {
        Some(owned("charging"))
    } else if status == 0x03 {
        Some(owned("charged"))
    } else if status == 0x05 {
        Some(owned("invalid battery"))
    } else if status == 0x06 {
        Some(owned("thermal error"))
    } else {
        None
    }
}

pub fn valid_percentage(level: u8) -> (r: Option<u8>)
    ensures
        r == valid_pct(level),
{
    if level <= 100 {
        Some(level)
    } else {
        None
    }
}

pub fn reported_percentage(level: u8) -> (r: Option<u8>)
    ensures
        r == reported_pct(level),
{
    if level <= 100 && level > 0 {
        Some(level)
    } else {
        None
    }
}

fn interpolate_exec(v: u16, low_v: u16, low_p: u8, high_v: u16, high_p: u8) -> (r: u8)
    requires
        low_v <= v <= high_v,
        low_v < high_v <= 4186,
        low_p <= high_p <= 100,
    ensures
        r as int == interpolate(v as int, low_v as int, low_p as int, high_v as int, high_p as int),
        low_p <= r <= high_p,
{
    let span = (high_v - low_v) as u64;
    let d = (high_p - low_p) as u64;
    let o = (v - low_v) as u64;
    assert(d * o <= 100 * 4186) by (nonlinear_arith)
        requires
            d <= 100,
            o <= 4186,
    ;
    let numerator = 2 * (d * o) + span;
    let q = numerator / (2 * span);
    proof {
        assert(d * o <= d * span) by (nonlinear_arith)
            requires
                o <= span,
        ;
        assert(q <= d) by (nonlinear_arith)
            requires
                q as int == numerator as int / (2 * span as int),
                numerator as int == 2 * (d * o) + span,
                d * o <= d * span,
                span > 0,
        ;
        assert(2 * (d * o) == 2 * d * o) by (nonlinear_arith);
    }
    low_p + (q as u8)
}

/// Battery percentage for a cell voltage in millivolts.
pub fn estimate_battery_percentage(voltage: u16) -> (r: Option<u8>)
    ensures
        r == Some(voltage_percentage(voltage) as u8),
        0 <= voltage_percentage(voltage) <= 100,
{
    let v = voltage;
    let p = if v >= 4186 { 100 }
    else if v <= 3500 { 0 }
    else if v >= 4067 { interpolate_exec(v, 4067, 90, 4186, 100) }
    else if v >= 3989 { interpolate_exec(v, 3989, 80, 4067, 90) }
    else if v >= 3922 { interpolate_exec(v, 3922, 70, 3989, 80) }
    else if v >= 3859 { interpolate_exec(v, 3859, 60, 3922, 70) }
    else if v >= 3811 { interpolate_exec(v, 3811, 50, 3859, 60) }
    else if v >= 3778 { interpolate_exec(v, 3778, 40, 3811, 50) }
    else if v >= 3751 { interpolate_exec(v, 3751, 30, 3778, 40) }
    else if v >= 3717 { interpolate_exec(v, 3717, 20, 3751, 30) }
    else if v >= 3671 { interpolate_exec(v, 3671, 10, 3717, 20) }
    else if v >= 3646 { interpolate_exec(v, 3646, 5, 3671, 10) }
    else if v >= 3579 { interpolate_exec(v, 3579, 2, 3646, 5) }
    else { interpolate_exec(v, 3500, 0, 3579, 2) };
    Some(p)
}

fn be16_exec(high: u8, low: u8) -> (r: u16)
    ensures
        r == be16(high, low),
{
    (high as u16) * 256 + (low as u16)
}

pub fn parse_battery_status(response: &[u8]) -> (r: Result<BatteryReading, String>)
    ensures
        r is Ok <==> feature_accepts(BatteryFeature::Status, response@),
        r matches Ok(reading) ==> reading_view(reading) == feature_reading(
            BatteryFeature::Status,
            response@,
        ),
{
    if response.len() < 3 {
        return Err(owned("HID++ battery-status response was too short"));
    }
    let status = match parse_hidpp20_status(response[2]) {
        Some(s) => s,
        None => return Err(owned("HID++ battery-status response had an unknown status")),
    };
    Ok(BatteryReading { level: reported_percentage(response[0]), status: Some(status) })
}

pub fn parse_unified_battery(response: &[u8]) -> (r: Result<BatteryReading, String>)
    ensures
        r is Ok <==> feature_accepts(BatteryFeature::Unified, response@),
        r matches Ok(reading) ==> reading_view(reading) == feature_reading(
            BatteryFeature::Unified,
            response@,
        ),
{
    if response.len() < 3 {
        return Err(owned("HID++ unified-battery response was too short"));
    }
    let status = match parse_hidpp20_status(response[2]) {
        Some(s) => s,
        None => return Err(owned("HID++ unified-battery response had an unknown status")),
    };
    let approximation = response[1];
    let level = match reported_percentage(response[0]) {
        Some(level) => Some(level),
        None => if approximation == 8 {
            Some(90)
        } else if approximation == 4 {
            Some(50)
        } else if approximation == 2 {
            Some(20)
        } else if approximation == 1 {
            Some(5)
        } else {
            None
        },
    };
    Ok(BatteryReading { level, status: Some(status) })
}

pub fn parse_battery_voltage(response: &[u8]) -> (r: Result<BatteryReading, String>)
    ensures
        r is Ok <==> feature_accepts(BatteryFeature::Voltage, response@),
        r matches Ok(reading) ==> reading_view(reading) == feature_reading(
            BatteryFeature::Voltage,
            response@,
        ),
{
    if response.len() < 3 {
        return Err(owned("HID++ battery-voltage response was too short"));
    }
    let voltage = be16_exec(response[0], response[1]);
    let flags = response[2];
    let status = if flags & 0x80 == 0 {
        owned("discharging")
    } else if flags & 0x03 == 0x01 {
        owned("charged")
    } else {
        owned("charging")
    };
    Ok(BatteryReading { level: estimate_battery_percentage(voltage), status: Some(status) })
}

pub fn parse_adc_measurement(response: &[u8]) -> (r: Result<BatteryReading, String>)
    ensures
        r is Ok <==> feature_accepts(BatteryFeature::AdcMeasurement, response@),
        r matches Ok(reading) ==> reading_view(reading) == feature_reading(
            BatteryFeature::AdcMeasurement,
            response@,
        ),
{
    if response.len() < 3 {
        return Err(owned("HID++ ADC response was too short"));
    }
    let flags = response[2];
    if flags & 0x01 == 0 {
        return Err(owned("HID++ ADC battery reading was not valid"));
    }
    let voltage = be16_exec(response[0], response[1]);
    let status = if flags & 0x02 != 0 {
        owned("charging")
    } else {
        owned("discharging")
    };
    Ok(BatteryReading { level: estimate_battery_percentage(voltage), status: Some(status) })
}

pub fn parse_centurion_battery(response: &[u8]) -> (r: Result<BatteryReading, String>)
    ensures
        r is Ok <==> feature_accepts(BatteryFeature::Centurion, response@),
        r matches Ok(reading) ==> reading_view(reading) == feature_reading(
            BatteryFeature::Centurion,
            response@,
        ),
{
    if response.len() < 1 || response[0] > 100 {
        return Err(owned("Centurion battery response had no valid percentage"));
    }
    let level = response[0];
    let s: u8 = if response.len() > 2 { response[2] } else { 0 };
    let status = if s == 1 || s == 2 {
        owned("charging")
    } else if s == 3 {
        owned("charged")
    } else {
        owned("discharging")
    };
    Ok(BatteryReading { level: Some(level), status: Some(status) })
}

pub open spec fn hidpp10_charge_status(s: u8) -> Option<Seq<char>> {
    let high = s & 0xf0;
    if high == 0x30 {
        Some("discharging"@)
    } else if high == 0x50 {
        Some("charging"@)
    } else if high == 0x90 {
        Some("charged"@)
    } else {
        None
    }
}

pub open spec fn hidpp10_status_status(charging: u8) -> Option<Seq<char>> {
    if charging == 0 {
        Some("discharging"@)
    } else if charging & 0x21 == 0x21 {
        Some("charging"@)
    } else if charging & 0x22 == 0x22 {
        Some("charged"@)
    } else {
        None
    }
}

pub open spec fn hidpp10_status_level(level: u8, charging: u8) -> Option<u8> {
    if level == 7 { Some(90u8) }
    else if level == 5 { Some(50u8) }
    else if level == 3 { Some(20u8) }
    else if level == 1 { Some(5u8) }
    else if charging & 0x03 != 0 { None }
    else { Some(0u8) }
}

/// Whether a HID++ 1.0 register response can be decoded.
pub open spec fn hidpp10_accepts(register: u16, r: Seq<u8>) -> bool {
    (register == HIDPP10_BATTERY_CHARGE_REGISTER && r.len() >= 3)
        || (register == HIDPP10_BATTERY_STATUS_REGISTER && r.len() >= 2)
}

pub open spec fn hidpp10_reading(register: u16, r: Seq<u8>) -> (Option<u8>, Option<Seq<char>>) {
    if register == HIDPP10_BATTERY_CHARGE_REGISTER {
        (valid_pct(r[0]), hidpp10_charge_status(r[2]))
    } else {
        (hidpp10_status_level(r[0], r[1]), hidpp10_status_status(r[1]))
    }
}

/// A HID++ 1.0 battery-charge reply (register 0x0d) reports its first byte
/// as the level when it is a percentage, and its status from the high nibble
/// of its third byte: 0x3_ discharging, 0x5_ charging, 0x9_ charged, three
/// distinct texts, and no status otherwise. A battery-status reply (0x07)
/// says discharging for a zero flag byte, charging when bits 0x21 are set,
/// and charged when bits 0x22 are; its level byte counts in steps (7 is 90%,
/// 5 is 50%, 3 is 20%, 1 is 5%), any other value reads as empty unless the
/// device says it charges, when the level is unknown.
pub proof fn law_hidpp10_status_texts(r: Seq<u8>)
    ensures
        r.len() >= 3 ==> {
            let reading = hidpp10_reading(HIDPP10_BATTERY_CHARGE_REGISTER, r);
            &&& reading.0 == if r[0] <= 100 { Some(r[0]) } else { None }
            &&& r[2] & 0xf0 == 0x30 ==> reading.1 == Some("discharging"@)
            &&& r[2] & 0xf0 == 0x50 ==> reading.1 == Some("charging"@)
            &&& r[2] & 0xf0 == 0x90 ==> reading.1 == Some("charged"@)
            &&& r[2] & 0xf0 != 0x30 && r[2] & 0xf0 != 0x50 && r[2] & 0xf0 != 0x90 ==> reading.1 is None
        },
        r.len() >= 2 ==> {
            let reading = hidpp10_reading(HIDPP10_BATTERY_STATUS_REGISTER, r);
            &&& r[1] == 0 ==> reading.1 == Some("discharging"@)
            &&& r[1] != 0 && r[1] & 0x21 == 0x21 ==> reading.1 == Some("charging"@)
            &&& r[1] & 0x21 != 0x21 && r[1] & 0x22 == 0x22 ==> reading.1 == Some("charged"@)
            &&& r[0] == 7 ==> reading.0 == Some(90u8)
            &&& r[0] == 5 ==> reading.0 == Some(50u8)
            &&& r[0] == 3 ==> reading.0 == Some(20u8)
            &&& r[0] == 1 ==> reading.0 == Some(5u8)
            &&& r[0] != 7 && r[0] != 5 && r[0] != 3 && r[0] != 1 ==> reading.0 == if r[1] & 0x03 != 0 {
                None
            } else {
                Some(0u8)
            }
        },
        "discharging"@ != "charging"@,
        "charging"@ != "charged"@,
        "discharging"@ != "charged"@,
{
    reveal_strlit("discharging");
    reveal_strlit("charging");
    reveal_strlit("charged");
    assert("discharging"@.len() == 11);
    assert("charging"@.len() == 8);
    assert("charged"@.len() == 7);
    if r.len() >= 2 {
        let b = r[1];
        assert(b == 0 ==> b & 0x21 != 0x21) by (bit_vector);
        assert(b & 0x22 == 0x22 ==> b != 0) by (bit_vector);
    }
}

/// Decodes the HID++ 1.0 battery-charge (0x0d) or battery-status (0x07) register.
pub fn parse_hidpp10_battery(register: u16, response: &[u8]) -> (r: Result<BatteryReading, String>)
    ensures
        r is Ok <==> hidpp10_accepts(register, response@),
        r matches Ok(reading) ==> reading_view(reading) == hidpp10_reading(register, response@),
{
    if register == HIDPP10_BATTERY_CHARGE_REGISTER {
        if response.len() < 3 {
            return Err(owned("HID++ 1.0 battery-charge response was too short"));
        }
        let high = response[2] & 0xf0;
        let status = if high == 0x30 {
            Some(owned("discharging"))
        } else if high == 0x50 {
            Some(owned("charging"))
        } else if high == 0x90 {
            Some(owned("charged"))
        } else {
            None
        };
        Ok(BatteryReading { level: valid_percentage(response[0]), status })
    } else if register == HIDPP10_BATTERY_STATUS_REGISTER {
        if response.len() < 2 {
            return Err(owned("HID++ 1.0 battery-status response was too short"));
        }
        let level = response[0];
        let charging = response[1];
        let status = if charging == 0 {
            Some(owned("discharging"))
        } else if charging & 0x21 == 0x21 {
            Some(owned("charging"))
        } else if charging & 0x22 == 0x22 {
            Some(owned("charged"))
        } else {
            None
        };
        let level = if level == 7 {
            Some(90)
        } else if level == 5 {
            Some(50)
        } else if level == 3 {
            Some(20)
        } else if level == 1 {
            Some(5)
        } else if charging & 0x03 != 0 {
            None
        } else {
            Some(0)
        };
        Ok(BatteryReading { level, status })
    } else {
        Err(owned("unsupported HID++ 1.0 battery register"))
    }
}

} // verus!
