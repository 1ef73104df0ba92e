//! Native Logitech battery state: HID++ device records, readings, and merging.

use vstd::prelude::*;
use crate::text::{decimal, decimal_chars, string_of, chars_of, append_chars, append_str, trim, is_ws, string_from_utf8, first_match, lemma_first_match, lemma_first_match_bounds, copy_opt_string, copy_string, opt_view, owned, eq_ignore_case_str, eq_ignore_case};
use crate::battery::protocol::{
    BatteryFeature, BatteryProtocol, BatteryReading, feature_accepts, feature_reading, reading_view,
};
use crate::battery::names::{
    clean_logitech_name, clean_name, device_identity, infer_kind, inferred_kind, device_name_quality, identity,
    kinds_compatible, name_quality, pairing_match, pairing_names_match, compatible_device_kinds, same_device_name,
    same_name,
};
use crate::battery::store::KeyedStore;

verus! {

pub const MAX_UNCONFIRMED_LEVEL_CHANGE: u8 = 15;
pub const MAX_BATTERY_EVENT_REPORTS: usize = 64;

#[derive(Debug, Clone, PartialEq, Eq)]
pub struct BatteryState {
    pub name: String,
    pub level: Option<u8>,
    pub status: Option<String>,
    pub kind: Option<String>,
    pub connected: bool,
}

impl BatteryState {
    pub fn copy(&self) -> (r: BatteryState)
        ensures
            r == *self,
    {
        BatteryState {
            name: copy_string(&self.name),
            level: self.level,
            status: copy_opt_string(&self.status),
            kind: copy_opt_string(&self.kind),
            connected: self.connected,
        }
    }
}

#[derive(Debug, Clone, Copy, PartialEq, Eq, Structural)]
pub enum Bus {
    Usb,
    Bluetooth,
}

#[derive(Debug, Clone, Copy, PartialEq, Eq, Structural)]
pub enum ReceiverKind {
    Bolt,
    Unifying,
    Lightspeed,
    Nano,
}

#[derive(Debug, Clone, Copy, PartialEq, Eq, Structural)]
pub enum EndpointKind {
    Receiver(ReceiverKind),
    Direct,
    /// A headset reached over the Centurion protocol through this report ID.
    Centurion(u8),
}

/// A hidraw node that speaks HID++.
#[derive(Debug, Clone, PartialEq, Eq)]
pub struct HidrawEndpoint {
    pub path: String,
    pub bus: Bus,
    pub product_id: u16,
    pub name: String,
    pub kind: EndpointKind,
}

/// Centurion addressing of a headset's battery feature.
#[derive(Debug, Clone, Copy, PartialEq, Eq, Structural)]
pub struct CenturionDevice {
    pub battery_index: u8,
}

#[derive(Debug, Clone, PartialEq, Eq)]
pub struct HidppDevice {
    pub slot: u8,
    pub name: String,
    pub pairing_name: Option<String>,
    pub kind: Option<String>,
    pub battery_protocol: BatteryProtocol,
    pub centurion: Option<CenturionDevice>,
}

/// A device that a receiver reports as paired.
#[derive(Debug, Clone, PartialEq, Eq)]
pub struct PairedDevice {
    pub slot: u8,
    pub name: Option<String>,
    pub kind: Option<String>,
}

#[derive(Debug, Clone, PartialEq, Eq)]
pub struct MonitoredEndpoint {
    pub endpoint: HidrawEndpoint,
    pub devices: Vec<HidppDevice>,
}

impl HidrawEndpoint {
    pub fn copy(&self) -> (r: HidrawEndpoint)
        ensures
            r == *self,
    {
        HidrawEndpoint {
            path: copy_string(&self.path),
            bus: self.bus,
            product_id: self.product_id,
            name: copy_string(&self.name),
            kind: self.kind,
        }
    }
}

impl HidppDevice {
    pub fn copy(&self) -> (r: HidppDevice)
        ensures
            r == *self,
    {
        HidppDevice {
            slot: self.slot,
            name: copy_string(&self.name),
            pairing_name: copy_opt_string(&self.pairing_name),
            kind: copy_opt_string(&self.kind),
            battery_protocol: self.battery_protocol,
            centurion: self.centurion,
        }
    }
}

impl PairedDevice {
    pub fn copy(&self) -> (r: PairedDevice)
        ensures
            r == *self,
    {
        PairedDevice {
            slot: self.slot,
            name: copy_opt_string(&self.name),
            kind: copy_opt_string(&self.kind),
        }
    }
}

/// Endpoints are the same when every attribute agrees.
pub open spec fn same_endpoint(a: HidrawEndpoint, b: HidrawEndpoint) -> bool {
    a.path@ == b.path@ && a.bus == b.bus && a.product_id == b.product_id && a.name@ == b.name@
        && a.kind == b.kind
}

pub fn endpoint_eq(a: &HidrawEndpoint, b: &HidrawEndpoint) -> (r: bool)
    ensures
        r == same_endpoint(*a, *b),
{
    a.path.eq(&b.path) && a.bus == b.bus && a.product_id == b.product_id && a.name.eq(&b.name)
        && a.kind == b.kind
}

// ---------------------------------------------------------------------------
// Readings
// ---------------------------------------------------------------------------

pub open spec fn abs_diff(a: u8, b: u8) -> int {
    if a >= b { a - b } else { b - a }
}

/// A candidate must be confirmed when it loses a known level or moves it by
/// more than 15 points.
pub open spec fn needs_confirm(previous: Option<u8>, candidate: Option<u8>) -> bool {
    match (previous, candidate) {
        (Some(_), None) => true,
        (Some(p), Some(c)) => abs_diff(p, c) > MAX_UNCONFIRMED_LEVEL_CHANGE,
        _ => false,
    }
}

/// Two readings agree when both lack a level or their levels differ by at most 2.
pub open spec fn agree(left: Option<u8>, right: Option<u8>) -> bool {
    match (left, right) {
        (Some(l), Some(r)) => abs_diff(l, r) <= 2,
        (None, None) => true,
        _ => false,
    }
}

fn abs_diff_exec(a: u8, b: u8) -> (r: u8)
    ensures
        r == abs_diff(a, b),
{
    if a >= b {
        a - b
    } else {
        b - a
    }
}

pub fn needs_confirmation(previous: &BatteryReading, candidate: &BatteryReading) -> (r: bool)
    ensures
        r == needs_confirm(previous.level, candidate.level),
{
    match (previous.level, candidate.level) {
        (Some(_), None) => true,
        (Some(p), Some(c)) => abs_diff_exec(p, c) > MAX_UNCONFIRMED_LEVEL_CHANGE,
        _ => false,
    }
}

pub fn readings_agree(left: &BatteryReading, right: &BatteryReading) -> (r: bool)
    ensures
        r == agree(left.level, right.level),
{
    match (left.level, right.level) {
        (Some(l), Some(r)) => abs_diff_exec(l, r) <= 2,
        (None, None) => true,
        _ => false,
    }
}

pub open spec fn confirms(previous: BatteryReading, first: BatteryReading, second: BatteryReading) -> bool {
    agree(first.level, second.level) || !needs_confirm(previous.level, second.level)
}

/// A second reading confirms a suspicious first one when the two agree, or when
/// the second one is not suspicious itself; the second reading is then used.
pub fn confirm_repeated_reading(
    previous: &BatteryReading,
    first: BatteryReading,
    second: BatteryReading,
) -> (r: Result<BatteryReading, String>)
    ensures
        r is Ok <==> confirms(*previous, first, second),
        r matches Ok(reading) ==> reading == second,
{
    if readings_agree(&first, &second) || !needs_confirmation(previous, &second) {
        Ok(second)
    } else {
        Err(owned("unconfirmed Logitech battery-level jump"))
    }
}

/// The battery row shown for a device with a reading.
pub open spec fn state_of(device: HidppDevice, reading: BatteryReading) -> BatteryState {
    BatteryState {
        name: device.name,
        level: reading.level,
        status: reading.status,
        kind: device.kind,
        connected: true,
    }
}

/// A live reading is remembered under the device's identity; a failed query
/// falls back to the remembered reading of a sleeping device.
pub fn state_from_reading(
    device: &HidppDevice,
    reading: Result<BatteryReading, String>,
    last_readings: &mut KeyedStore<BatteryReading>,
) -> (r: Option<BatteryState>)
    ensures
        match reading {
            Ok(live) => final(last_readings)@ == old(last_readings)@.insert(identity(device.name@), live)
                && r == Some(state_of(*device, live)),
            Err(_) => final(last_readings)@ == old(last_readings)@ && r == (if old(
                last_readings,
            )@.contains_key(identity(device.name@)) {
                Some(state_of(*device, old(last_readings)@[identity(device.name@)]))
            } else {
                None
            }),
        },
{
    let identity = device_identity(device.name.as_str());
    let reading = match reading {
        Ok(reading) => {
            let stored = reading.copy();
            last_readings.insert(identity, stored);
            reading
        },
        Err(_) => match last_readings.get(identity.as_str()) {
            Some(previous) => previous.copy(),
            None => return None,
        },
    };
    Some(
        BatteryState {
            name: copy_string(&device.name),
            level: reading.level,
            status: reading.status,
            kind: copy_opt_string(&device.kind),
            connected: true,
        },
    )
}

/// Whether an input report is a complete battery notification of `device`.
pub open spec fn notification_matches(device: HidppDevice, report: Seq<u8>) -> bool {
    &&& ((report.len() == 7 && report[0] == 0x10) || (report.len() == 20 && report[0] == 0x11))
    &&& (report[1] == device.slot || (device.slot == 0xff && report[1] == 0))
    &&& report[3] == 0
    &&& device.battery_protocol matches BatteryProtocol::Hidpp20 { feature, index } && index != 0
        && report[2] == index && match feature {
        BatteryFeature::Status | BatteryFeature::Voltage | BatteryFeature::AdcMeasurement => true,
        BatteryFeature::Unified => report.len() >= 8,
        BatteryFeature::Centurion => false,
    }
}

pub open spec fn notification_feature(device: HidppDevice) -> BatteryFeature {
    match device.battery_protocol {
        BatteryProtocol::Hidpp20 { feature, index } => feature,
        _ => BatteryFeature::Status,
    }
}

/// Decodes a battery event that a device sends on its own.
pub fn parse_battery_notification(device: &HidppDevice, report: &[u8]) -> (r: Option<BatteryReading>)
    ensures
        r is Some <==> notification_matches(*device, report@) && feature_accepts(
            notification_feature(*device),
            report@.skip(4),
        ),
        r matches Some(reading) ==> reading_view(reading) == feature_reading(
            notification_feature(*device),
            report@.skip(4),
        ),
{
    if report.len() == 0 {
        return None;
    }
    if !((report[0] == 0x10 && report.len() == 7) || (report[0] == 0x11 && report.len() == 20)) {
        return None;
    }
    if (report[1] != device.slot && !(device.slot == 0xff && report[1] == 0)) || report[3] != 0 {
        return None;
    }
    let (feature, index) = match device.battery_protocol {
        BatteryProtocol::Hidpp20 { feature, index } => (feature, index),
        _ => return None,
    };
    if index == 0 || report[2] != index {
        return None;
    }
    match feature {
        BatteryFeature::Status | BatteryFeature::Voltage | BatteryFeature::AdcMeasurement => {},
        BatteryFeature::Unified => {
            if report.len() < 8 {
                return None;
            }
        },
        BatteryFeature::Centurion => return None,
    }
    let mut payload: Vec<u8> = Vec::new();
    let mut i: usize = 4;
    while i < report.len()
        invariant
            4 <= i <= report.len(),
            payload@ == report@.subrange(4, i as int),
        decreases report.len() - i,
    {
        payload.push(report[i]);
        i += 1;
    }
    assert(payload@ =~= report@.skip(4));
    match feature.parse(payload.as_slice()) {
        Ok(reading) => Some(reading),
        Err(_) => None,
    }
}

/// How a battery event is applied: the reading that becomes authoritative and
/// the reading left waiting for confirmation.
pub open spec fn event_outcome(
    previous: Option<BatteryReading>,
    pending: Option<BatteryReading>,
    reading: BatteryReading,
) -> (BatteryReading, Option<BatteryReading>) {
    match previous {
        Some(prev) => if needs_confirm(prev.level, reading.level) {
            if pending is Some && confirms(prev, pending->0, reading) {
                (reading, None)
            } else {
                // Charging status is never delayed; only the level waits.
                (BatteryReading { level: prev.level, status: reading.status }, Some(reading))
            }
        } else {
            (reading, None)
        },
        None => (reading, None),
    }
}

pub open spec fn opt_lookup(m: Map<Seq<char>, BatteryReading>, k: Seq<char>) -> Option<BatteryReading> {
    if m.contains_key(k) { Some(m[k]) } else { None }
}

/// Applies a battery event: a suspicious level waits for a confirming event,
/// while its status is shown at once.
pub fn apply_battery_notification(
    device: &HidppDevice,
    reading: BatteryReading,
    last_readings: &mut KeyedStore<BatteryReading>,
    pending_readings: &mut KeyedStore<BatteryReading>,
) -> (r: Option<BatteryState>)
    ensures
        ({
            let id = identity(device.name@);
            let outcome = event_outcome(
                opt_lookup(old(last_readings)@, id),
                opt_lookup(old(pending_readings)@, id),
                reading,
            );
            &&& final(last_readings)@ == old(last_readings)@.insert(id, outcome.0)
            &&& final(pending_readings)@ == match outcome.1 {
                Some(p) => old(pending_readings)@.insert(id, p),
                None => old(pending_readings)@.remove(id),
            }
            &&& r == Some(state_of(*device, outcome.0))
        }),
{
    let identity = device_identity(device.name.as_str());
    let mut reading = reading;
    let needs = match last_readings.get(identity.as_str()) {
        Some(previous) => if needs_confirmation(previous, &reading) {
            Some(previous.copy())
        } else {
            None
        },
        None => None,
    };
    if let Some(previous) = needs {
        let first = pending_readings.remove(identity.as_str());
        let confirmed = match first {
            Some(first) => match confirm_repeated_reading(&previous, first, reading.copy()) {
                Ok(c) => Some(c),
                Err(_) => None,
            },
            None => None,
        };
        match confirmed {
            Some(c) => {
                reading = c;
            },
            None => {
                let key = copy_string(&identity);
                pending_readings.insert(key, reading.copy());
                let delayed = BatteryReading { level: previous.level, status: reading.status };
                return state_from_reading(device, Ok(delayed), last_readings);
            },
        }
    }
    pending_readings.remove(identity.as_str());
    state_from_reading(device, Ok(reading), last_readings)
}

// ---------------------------------------------------------------------------
// Battery rows
// ---------------------------------------------------------------------------

/// The row that results from merging `state` into the existing row `existing`.
pub open spec fn merged_state(existing: BatteryState, state: BatteryState, prefer_reading: bool) -> BatteryState {
    BatteryState {
        name: if name_quality(state.name@) > name_quality(existing.name@) {
            state.name
        } else {
            existing.name
        },
        level: if prefer_reading || existing.level is None { state.level } else { existing.level },
        status: if prefer_reading || existing.status is None {
            state.status
        } else {
            existing.status
        },
        kind: if existing.kind is None { state.kind } else { existing.kind },
        connected: existing.connected || state.connected,
    }
}

pub open spec fn names_device(state: BatteryState) -> spec_fn(BatteryState) -> bool {
    |existing: BatteryState| same_name(existing.name@, state.name@)
}

/// `states` with `state` merged into the first row that names the same device,
/// or appended when no row does.
pub open spec fn upserted(states: Seq<BatteryState>, state: BatteryState, prefer_reading: bool) -> Seq<
    BatteryState,
> {
    let k = first_match(states, names_device(state));
    if k < 0 {
        states.push(state)
    } else {
        states.update(k, merged_state(states[k], state, prefer_reading))
    }
}

/// Inserts a row, or merges it into the first row that names the same device.
pub fn upsert_state(states: &mut Vec<BatteryState>, state: BatteryState, prefer_reading: bool)
    ensures
        final(states)@ == upserted(old(states)@, state, prefer_reading),
{
    let mut i: usize = 0;
    while i < states.len()
        invariant
            i <= states@.len(),
            states@ == old(states)@,
            forall|j: int| 0 <= j < i ==> !same_name(states@[j].name@, state.name@),
        decreases states@.len() - i,
    {
        if same_device_name(states[i].name.as_str(), state.name.as_str()) {
            proof {
                lemma_first_match(states@, names_device(state), i as int);
            }
            let existing = states[i].copy();
            let name = if device_name_quality(state.name.as_str()) > device_name_quality(
                existing.name.as_str(),
            ) {
                copy_string(&state.name)
            } else {
                existing.name
            };
            let merged = BatteryState {
                name,
                level: if prefer_reading || existing.level.is_none() {
                    state.level
                } else {
                    existing.level
                },
                status: if prefer_reading || existing.status.is_none() {
                    state.status
                } else {
                    existing.status
                },
                kind: if existing.kind.is_none() {
                    state.kind
                } else {
                    existing.kind
                },
                connected: existing.connected || state.connected,
            };
            states.set(i, merged);
            return;
        }
        i += 1;
    }
    proof {
        lemma_first_match(states@, names_device(state), states@.len() as int);
    }
    states.push(state);
}


// ---------------------------------------------------------------------------
// Battery events
// ---------------------------------------------------------------------------

/// Remembered readings, readings awaiting confirmation, and the battery rows.
pub type EventTables = (Map<Seq<char>, BatteryReading>, Map<Seq<char>, BatteryReading>, Seq<BatteryState>);

/// `rs[i]` is what `devices[i]` decodes from `report`.
pub open spec fn report_readings(devices: Seq<HidppDevice>, report: Seq<u8>, rs: Seq<Option<BatteryReading>>) -> bool {
    &&& rs.len() == devices.len()
    &&& forall|i: int| 0 <= i < rs.len() ==> (rs[i] is Some <==> (notification_matches(devices[i], report)
        && feature_accepts(notification_feature(devices[i]), report.skip(4))))
    &&& forall|i: int| 0 <= i < rs.len() && rs[i] is Some ==> reading_view(rs[i]->0) == feature_reading(
        notification_feature(devices[i]), report.skip(4))
}

/// One device's event applied to the tables.
pub open spec fn event_step(device: HidppDevice, reading: Option<BatteryReading>, t: EventTables) -> EventTables {
    match reading {
        None => t,
        Some(x) => {
            let id = identity(device.name@);
            let o = event_outcome(opt_lookup(t.0, id), opt_lookup(t.1, id), x);
            (
                t.0.insert(id, o.0),
                match o.1 {
                    Some(q) => t.1.insert(id, q),
                    None => t.1.remove(id),
                },
                upserted(t.2, state_of(device, o.0), true),
            )
        },
    }
}

/// The devices' events applied in order.
pub open spec fn fold_events(devices: Seq<HidppDevice>, rs: Seq<Option<BatteryReading>>, t: EventTables) -> EventTables
    decreases rs.len(),
{
    if rs.len() == 0 || rs.len() > devices.len() {
        t
    } else {
        event_step(devices[rs.len() - 1], rs.last(), fold_events(devices, rs.drop_last(), t))
    }
}

/// Applies one input report to every device that it is addressed to.
pub fn process_report(
    devices: &[HidppDevice],
    report: &[u8],
    last_readings: &mut KeyedStore<BatteryReading>,
    pending_readings: &mut KeyedStore<BatteryReading>,
    states: &mut Vec<BatteryState>,
)
    ensures
        exists|rs: Seq<Option<BatteryReading>>| report_readings(devices@, report@, rs)
            && (final(last_readings)@, final(pending_readings)@, final(states)@) == fold_events(
            devices@, rs, (old(last_readings)@, old(pending_readings)@, old(states)@)),
{
    let ghost start = (last_readings@, pending_readings@, states@);
    let ghost mut rs: Seq<Option<BatteryReading>> = Seq::empty();
    let mut i: usize = 0;
    while i < devices.len()
        invariant
            i <= devices@.len(),
            rs.len() == i,
            forall|j: int| 0 <= j < i ==> (rs[j] is Some <==> (notification_matches(devices@[j], report@)
                && feature_accepts(notification_feature(devices@[j]), report@.skip(4)))),
            forall|j: int| 0 <= j < i && rs[j] is Some ==> reading_view(rs[j]->0) == feature_reading(
                notification_feature(devices@[j]), report@.skip(4)),
            (last_readings@, pending_readings@, states@) == fold_events(devices@, rs, start),
        decreases devices@.len() - i,
    {
        let parsed = parse_battery_notification(&devices[i], report);
        let ghost before = (last_readings@, pending_readings@, states@);
        let ghost prev_rs = rs;
        match parsed {
            Some(reading) => {
                proof {
                    rs = rs.push(Some(reading));
                }
                let state = apply_battery_notification(&devices[i], reading, last_readings, pending_readings);
                if let Some(state) = state {
                    upsert_state(states, state, true);
                }
            },
            None => {
                proof {
                    rs = rs.push(None);
                }
            },
        }
        assert(rs.drop_last() =~= prev_rs);
        i += 1;
    }
    assert(report_readings(devices@, report@, rs));
}

/// The outcome of reading one input report.
#[derive(Debug, Clone, PartialEq, Eq)]
pub enum ReportRead {
    Report(Vec<u8>),
    /// The endpoint was closed (a read of zero bytes).
    Closed,
    WouldBlock,
    Interrupted,
    Failed,
}

/// Tables reachable from `a` by applying at most `n` reports.
pub open spec fn reachable(devices: Seq<HidppDevice>, a: EventTables, b: EventTables, n: nat) -> bool
    decreases n,
{
    a == b || (n > 0 && (reachable(devices, a, b, (n - 1) as nat) || exists|mid: EventTables, report: Seq<u8>, rs: Seq<Option<BatteryReading>>|
        #![trigger fold_events(devices, rs, mid), report_readings(devices, report, rs)]
        reachable(devices, a, mid, (n - 1) as nat) && report_readings(devices, report, rs)
            && fold_events(devices, rs, mid) == b))
}

/// One input report applied to every device it is addressed to.
pub open spec fn report_applied(devices: Seq<HidppDevice>, report: Seq<u8>, a: EventTables, b: EventTables) -> bool {
    exists|rs: Seq<Option<BatteryReading>>| #[trigger] report_readings(devices, report, rs) && fold_events(devices, rs, a) == b
}

/// What one read that lets the draining go on does to the tables: a report
/// is applied to the devices, an interrupted read changes nothing.
pub open spec fn read_step(devices: Seq<HidppDevice>, read: ReportRead, a: EventTables, b: EventTables) -> bool {
    match read {
        ReportRead::Interrupted => a == b,
        ReportRead::Report(report) => report_applied(devices, report@, a, b),
        _ => false,
    }
}

/// `tables[k + 1]` is what the `k`-th read, one that lets the draining go
/// on, makes of `tables[k]`.
pub open spec fn applied_reads(devices: Seq<HidppDevice>, reads: Seq<ReportRead>, tables: Seq<EventTables>) -> bool {
    &&& tables.len() == reads.len() + 1
    &&& forall|k: int| #![trigger reads[k]] 0 <= k < reads.len() ==> read_step(devices, reads[k], tables[k], tables[k + 1])
}

/// What draining does with the reads it made, the tables passing through
/// `tables`: either all 64 reads let it go on and the endpoint is open, or
/// the last read ended it after the others went on (closed or failed: the
/// endpoint is gone; nothing pending: it is open).
pub open spec fn drained(devices: Seq<HidppDevice>, reads: Seq<ReportRead>, tables: Seq<EventTables>, open: bool) -> bool {
    ||| reads.len() == MAX_BATTERY_EVENT_REPORTS && applied_reads(devices, reads, tables) && open
    ||| 0 < reads.len() <= MAX_BATTERY_EVENT_REPORTS && applied_reads(devices, reads.drop_last(), tables) && match reads.last() {
        ReportRead::Closed | ReportRead::Failed => !open,
        ReportRead::WouldBlock => open,
        _ => false,
    }
}

/// Drains pending input reports, at most 64, applying each to the devices.
/// Returns whether the endpoint is still open.
pub fn drain_battery_events<F: FnMut() -> ReportRead>(
    mut read_report: F,
    devices: &[HidppDevice],
    last_readings: &mut KeyedStore<BatteryReading>,
    pending_readings: &mut KeyedStore<BatteryReading>,
    states: &mut Vec<BatteryState>,
) -> (r: bool)
    requires
        forall|g: F| g.requires(()),
    ensures
        reachable(devices@, (old(last_readings)@, old(pending_readings)@, old(states)@),
            (final(last_readings)@, final(pending_readings)@, final(states)@), MAX_BATTERY_EVENT_REPORTS as nat),
        exists|reads: Seq<ReportRead>, tables: Seq<EventTables>|
            #![trigger drained(devices@, reads, tables, r)]
            (forall|k: int| 0 <= k < reads.len() ==> call_ensures(read_report, (), #[trigger] reads[k]))
                && drained(devices@, reads, tables, r)
                && tables[0] == (old(last_readings)@, old(pending_readings)@, old(states)@)
                && tables.last() == (final(last_readings)@, final(pending_readings)@, final(states)@),
{
    let ghost start = (last_readings@, pending_readings@, states@);
    let ghost reader = read_report;
    let ghost mut reads: Seq<ReportRead> = Seq::empty();
    let ghost mut tables: Seq<EventTables> = seq![start];
    let mut ended: Option<bool> = None;
    let mut i: usize = 0;
    while i < MAX_BATTERY_EVENT_REPORTS && ended.is_none()
        invariant
            forall|g: F| g.requires(()),
            start == (old(last_readings)@, old(pending_readings)@, old(states)@),
            i <= MAX_BATTERY_EVENT_REPORTS,
            reachable(devices@, start, (last_readings@, pending_readings@, states@), i as nat),
            reads.len() == i,
            forall|k: int| 0 <= k < reads.len() ==> call_ensures(reader, (), #[trigger] reads[k]),
            tables[0] == start,
            tables.last() == (last_readings@, pending_readings@, states@),
            reader == read_report,
            ended is None ==> applied_reads(devices@, reads, tables),
            ended matches Some(open) ==> drained(devices@, reads, tables, open),
        decreases MAX_BATTERY_EVENT_REPORTS - i,
    {
        let ghost before = (last_readings@, pending_readings@, states@);
        let ghost earlier = reads;
        let ghost earlier_tables = tables;
        let read = read_report();
        proof {
            reads = reads.push(read);
            assert(reads.drop_last() =~= earlier);
            assert forall|k: int| 0 <= k < reads.len() implies call_ensures(reader, (), #[trigger] reads[k]) by {
                if k < earlier.len() {
                    assert(reads[k] == earlier[k]);
                }
            }
        }
        match read {
            ReportRead::Report(report) => {
                process_report(devices, report.as_slice(), last_readings, pending_readings, states);
                proof {
                    let after = (last_readings@, pending_readings@, states@);
                    let rs = choose|rs: Seq<Option<BatteryReading>>| report_readings(devices@, report@, rs)
                        && after == fold_events(devices@, rs, before);
                    assert(reachable(devices@, start, after, (i + 1) as nat));
                    assert(report_applied(devices@, report@, before, after));
                    tables = tables.push(after);
                    assert forall|k: int| #![trigger reads[k]] 0 <= k < reads.len() implies read_step(
                        devices@,
                        reads[k],
                        tables[k],
                        tables[k + 1],
                    ) by {
                        if k < earlier.len() {
                            assert(reads[k] == earlier[k]);
                            assert(tables[k] == earlier_tables[k] && tables[k + 1] == earlier_tables[k + 1]);
                        }
                    }
                }
            },
            ReportRead::Closed | ReportRead::Failed => {
                proof { lemma_reachable_mono(devices@, start, before, i as nat, (i + 1) as nat); }
                ended = Some(false);
            },
            ReportRead::WouldBlock => {
                proof { lemma_reachable_mono(devices@, start, before, i as nat, (i + 1) as nat); }
                ended = Some(true);
            },
            ReportRead::Interrupted => {
                proof {
                    assert(reachable(devices@, start, before, (i + 1) as nat));
                    tables = tables.push(before);
                    assert forall|k: int| #![trigger reads[k]] 0 <= k < reads.len() implies read_step(
                        devices@,
                        reads[k],
                        tables[k],
                        tables[k + 1],
                    ) by {
                        if k < earlier.len() {
                            assert(reads[k] == earlier[k]);
                            assert(tables[k] == earlier_tables[k] && tables[k + 1] == earlier_tables[k + 1]);
                        }
                    }
                }
            },
        }
        i += 1;
    }
    proof {
        lemma_reachable_mono(devices@, start, (last_readings@, pending_readings@, states@), i as nat, MAX_BATTERY_EVENT_REPORTS as nat);
    }
    let open = match ended {
        Some(open) => open,
        None => true,
    };
    assert(drained(devices@, reads, tables, open));
    assert(forall|k: int| 0 <= k < reads.len() ==> call_ensures(read_report, (), #[trigger] reads[k]));
    open
}

pub proof fn lemma_reachable_mono(devices: Seq<HidppDevice>, a: EventTables, b: EventTables, n: nat, m: nat)
    requires
        reachable(devices, a, b, n),
        n <= m,
    ensures
        reachable(devices, a, b, m),
    decreases m - n,
{
    if n < m {
        assert(reachable(devices, a, b, (n + 1) as nat));
        lemma_reachable_mono(devices, a, b, (n + 1) as nat, m);
    }
}


// ---------------------------------------------------------------------------
// Discovery
// ---------------------------------------------------------------------------

/// Keeps what `current` already resolved and fills its gaps from `candidate`.
pub open spec fn preferred(current: Option<HidppDevice>, candidate: HidppDevice) -> HidppDevice {
    match current {
        None => candidate,
        Some(c) => HidppDevice {
            battery_protocol: if c.battery_protocol == BatteryProtocol::Unknown {
                candidate.battery_protocol
            } else {
                c.battery_protocol
            },
            name: if name_quality(candidate.name@) > name_quality(c.name@) {
                candidate.name
            } else {
                c.name
            },
            kind: if c.kind is None { candidate.kind } else { c.kind },
            ..c
        },
    }
}

pub fn prefer_discovered_device(current: Option<HidppDevice>, candidate: HidppDevice) -> (r: HidppDevice)
    ensures
        r == preferred(current, candidate),
{
    let mut current = match current {
        Some(c) => c,
        None => return candidate,
    };
    if current.battery_protocol == BatteryProtocol::Unknown {
        current.battery_protocol = candidate.battery_protocol;
    }
    if device_name_quality(candidate.name.as_str()) > device_name_quality(current.name.as_str()) {
        current.name = candidate.name;
    }
    if current.kind.is_none() {
        current.kind = candidate.kind;
    }
    current
}

pub open spec fn same_pairing_spec(left: HidppDevice, right: HidppDevice) -> bool {
    left.slot == right.slot && pairing_match(left.pairing_name, right.pairing_name)
        && kinds_compatible(left.kind, right.kind)
}

/// Whether two records describe the same pairing of a receiver slot.
pub fn same_pairing(left: &HidppDevice, right: &HidppDevice) -> (r: bool)
    ensures
        r == same_pairing_spec(*left, *right),
{
    left.slot == right.slot && pairing_names_match(&left.pairing_name, &right.pairing_name)
        && compatible_device_kinds(&left.kind, &right.kind)
}

/// A resolved record can stand for a pairing that still reports the same slot,
/// name and kind.
pub open spec fn resolves(device: HidppDevice, paired: PairedDevice) -> bool {
    device.battery_protocol != BatteryProtocol::Unknown && device.slot == paired.slot
        && pairing_match(device.pairing_name, paired.name) && kinds_compatible(device.kind, paired.kind)
}

pub open spec fn resolves_fn(paired: PairedDevice) -> spec_fn(HidppDevice) -> bool {
    |d: HidppDevice| resolves(d, paired)
}

pub open spec fn at_endpoint(endpoint: HidrawEndpoint) -> spec_fn(MonitoredEndpoint) -> bool {
    |m: MonitoredEndpoint| same_endpoint(m.endpoint, endpoint)
}

/// Devices last resolved on the same endpoint (none when the endpoint changed).
pub open spec fn known_devices(endpoint: HidrawEndpoint, known: Seq<MonitoredEndpoint>) -> Seq<HidppDevice> {
    let k = first_match(known, at_endpoint(endpoint));
    if k < 0 { Seq::empty() } else { known[k].devices@ }
}

/// The values of the `Some` entries, in order.
pub open spec fn somes<A>(s: Seq<Option<A>>) -> Seq<A>
    decreases s.len(),
{
    if s.len() == 0 {
        Seq::empty()
    } else {
        let prev = somes(s.drop_last());
        match s.last() {
            Some(v) => prev.push(v),
            None => prev,
        }
    }
}

fn find_endpoint(known: &[MonitoredEndpoint], endpoint: &HidrawEndpoint) -> (r: Option<usize>)
    ensures
        r matches Some(k) ==> k < known@.len() && k as int == first_match(known@, at_endpoint(*endpoint)),
        r is None ==> first_match(known@, at_endpoint(*endpoint)) < 0,
{
    let mut i: usize = 0;
    while i < known.len()
        invariant
            i <= known@.len(),
            forall|j: int| 0 <= j < i ==> !same_endpoint(known@[j].endpoint, *endpoint),
        decreases known@.len() - i,
    {
        if endpoint_eq(&known[i].endpoint, endpoint) {
            proof { lemma_first_match(known@, at_endpoint(*endpoint), i as int); }
            return Some(i);
        }
        i += 1;
    }
    proof { lemma_first_match(known@, at_endpoint(*endpoint), known@.len() as int); }
    None
}

fn find_resolved(devices: &[HidppDevice], paired: &PairedDevice) -> (r: Option<usize>)
    ensures
        r matches Some(k) ==> k < devices@.len() && k as int == first_match(devices@, resolves_fn(*paired)),
        r is None ==> first_match(devices@, resolves_fn(*paired)) < 0,
{
    let mut i: usize = 0;
    while i < devices.len()
        invariant
            i <= devices@.len(),
            forall|j: int| 0 <= j < i ==> !resolves(devices@[j], *paired),
        decreases devices@.len() - i,
    {
        let d = &devices[i];
        if d.battery_protocol != BatteryProtocol::Unknown && d.slot == paired.slot
            && pairing_names_match(&d.pairing_name, &paired.name) && compatible_device_kinds(
            &d.kind,
            &paired.kind,
        ) {
            proof { lemma_first_match(devices@, resolves_fn(*paired), i as int); }
            return Some(i);
        }
        i += 1;
    }
    proof { lemma_first_match(devices@, resolves_fn(*paired), devices@.len() as int); }
    None
}

/// Reuses the features already resolved for an unchanged pairing and asks
/// `discover` only for new, changed or unresolved pairings.
pub fn discover_paired_devices<F: Fn(&HidrawEndpoint, PairedDevice) -> Option<HidppDevice>>(
    endpoint: &HidrawEndpoint,
    paired: Vec<PairedDevice>,
    known: &[MonitoredEndpoint],
    discover: F,
) -> (r: Vec<HidppDevice>)
    requires
        forall|e: &HidrawEndpoint, p: PairedDevice| discover.requires((e, p)),
    ensures
        exists|outs: Seq<Option<HidppDevice>>| {
            &&& outs.len() == paired@.len()
            &&& r@ == somes(outs)
            &&& forall|i: int| #![trigger outs[i]] 0 <= i < outs.len() ==> {
                let devs = known_devices(*endpoint, known@);
                let k = first_match(devs, resolves_fn(paired@[i]));
                &&& k >= 0 ==> outs[i] == Some(devs[k])
                &&& k < 0 ==> discover.ensures((endpoint, paired@[i]), outs[i])
            }
        },
{
    let empty: Vec<HidppDevice> = Vec::new();
    let previous: &[HidppDevice] = match find_endpoint(known, endpoint) {
        Some(k) => known[k].devices.as_slice(),
        None => empty.as_slice(),
    };
    proof {
        lemma_first_match_bounds(known@, at_endpoint(*endpoint));
        assert(previous@ == known_devices(*endpoint, known@));
    }
    let mut result: Vec<HidppDevice> = Vec::new();
    let ghost mut outs: Seq<Option<HidppDevice>> = Seq::empty();
    let mut i: usize = 0;
    while i < paired.len()
        invariant
            forall|e: &HidrawEndpoint, p: PairedDevice| discover.requires((e, p)),
            previous@ == known_devices(*endpoint, known@),
            i <= paired@.len(),
            outs.len() == i,
            result@ == somes(outs),
            forall|j: int| #![trigger outs[j]] 0 <= j < i ==> {
                let devs = known_devices(*endpoint, known@);
                let k = first_match(devs, resolves_fn(paired@[j]));
                &&& k >= 0 ==> outs[j] == Some(devs[k])
                &&& k < 0 ==> discover.ensures((endpoint, paired@[j]), outs[j])
            },
        decreases paired@.len() - i,
    {
        let ghost prev_outs = outs;
        let out = match find_resolved(previous, &paired[i]) {
            Some(k) => Some(previous[k].copy()),
            None => discover(endpoint, paired[i].copy()),
        };
        proof {
            outs = outs.push(out);
            assert(outs.drop_last() =~= prev_outs);
        }
        if let Some(device) = out {
            result.push(device);
        }
        i += 1;
    }
    result
}

/// An endpoint's record viewed as its endpoint and device list.
pub open spec fn endpoint_view(m: MonitoredEndpoint) -> (HidrawEndpoint, Seq<HidppDevice>) {
    (m.endpoint, m.devices@)
}

pub open spec fn endpoint_views(s: Seq<MonitoredEndpoint>) -> Seq<(HidrawEndpoint, Seq<HidppDevice>)> {
    s.map_values(|m: MonitoredEndpoint| endpoint_view(m))
}

pub open spec fn in_slot(slot: u8) -> spec_fn(HidppDevice) -> bool {
    |d: HidppDevice| d.slot == slot
}

/// A previously known device merged into the freshly discovered ones: a device
/// of a slot that was not reported again is kept; one of an unchanged pairing
/// keeps its resolved record.
pub open spec fn merge_device(fresh: Seq<HidppDevice>, previous: HidppDevice) -> Seq<HidppDevice> {
    let j = first_match(fresh, in_slot(previous.slot));
    if j < 0 {
        fresh.push(previous)
    } else if same_pairing_spec(previous, fresh[j]) {
        fresh.update(j, preferred(Some(previous), fresh[j]))
    } else {
        fresh
    }
}

pub open spec fn merge_devices(fresh: Seq<HidppDevice>, previous: Seq<HidppDevice>) -> Seq<HidppDevice>
    decreases previous.len(),
{
    if previous.len() == 0 {
        fresh
    } else {
        merge_device(merge_devices(fresh, previous.drop_last()), previous.last())
    }
}

pub open spec fn at_path(path: Seq<char>) -> spec_fn((HidrawEndpoint, Seq<HidppDevice>)) -> bool {
    |m: (HidrawEndpoint, Seq<HidppDevice>)| m.0.path@ == path
}

/// One previously monitored endpoint reconciled with the discovered ones.
pub open spec fn reconcile_step(
    discovered: Seq<(HidrawEndpoint, Seq<HidppDevice>)>,
    previous: (HidrawEndpoint, Seq<HidppDevice>),
    present: bool,
) -> Seq<(HidrawEndpoint, Seq<HidppDevice>)> {
    let k = first_match(discovered, at_path(previous.0.path@));
    if k < 0 {
        if present { discovered.push(previous) } else { discovered }
    } else if !same_endpoint(discovered[k].0, previous.0) {
        discovered
    } else {
        discovered.update(k, (discovered[k].0, merge_devices(discovered[k].1, previous.1)))
    }
}

pub open spec fn reconcile_all(
    current: Seq<(HidrawEndpoint, Seq<HidppDevice>)>,
    discovered: Seq<(HidrawEndpoint, Seq<HidppDevice>)>,
    present: Seq<bool>,
) -> Seq<(HidrawEndpoint, Seq<HidppDevice>)>
    decreases current.len(),
{
    if current.len() == 0 || present.len() < current.len() {
        discovered
    } else {
        reconcile_step(
            reconcile_all(current.drop_last(), discovered, present),
            current.last(),
            present[current.len() - 1],
        )
    }
}

/// The endpoints that reconciliation keeps: every discovered endpoint, in
/// its place, and after them only previously monitored endpoints that were
/// still present.
pub open spec fn keeps_discovered_first(
    r: Seq<(HidrawEndpoint, Seq<HidppDevice>)>,
    current: Seq<(HidrawEndpoint, Seq<HidppDevice>)>,
    discovered: Seq<(HidrawEndpoint, Seq<HidppDevice>)>,
    present: Seq<bool>,
) -> bool {
    &&& r.len() >= discovered.len()
    &&& forall|i: int| 0 <= i < discovered.len() ==> #[trigger] r[i].0 == discovered[i].0
    &&& forall|k: int| #![trigger r[k]] discovered.len() <= k < r.len() ==> exists|i: int| #![trigger current[i]]
        0 <= i < current.len() && i < present.len() && current[i].0 == r[k].0 && present[i]
}

/// Rediscovery never loses a discovered endpoint nor moves it, and keeps an
/// endpoint it did not discover again only if that endpoint is still present.
pub proof fn law_rediscovery_keeps_discovered_endpoints(
    current: Seq<(HidrawEndpoint, Seq<HidppDevice>)>,
    discovered: Seq<(HidrawEndpoint, Seq<HidppDevice>)>,
    present: Seq<bool>,
)
    ensures
        keeps_discovered_first(reconcile_all(current, discovered, present), current, discovered, present),
    decreases current.len(),
{
    if current.len() == 0 || present.len() < current.len() {
    } else {
        let c = current.drop_last();
        law_rediscovery_keeps_discovered_endpoints(c, discovered, present);
        let prev = reconcile_all(c, discovered, present);
        let last = current.last();
        let n = current.len() - 1;
        let k = first_match(prev, at_path(last.0.path@));
        crate::text::lemma_first_match_bounds(prev, at_path(last.0.path@));
        let r = reconcile_all(current, discovered, present);
        assert forall|kk: int| #![trigger r[kk]] discovered.len() <= kk < r.len() implies exists|i: int| #![trigger current[i]]
            0 <= i < current.len() && i < present.len() && current[i].0 == r[kk].0 && present[i] by {
            if kk < prev.len() {
                assert(r[kk].0 == prev[kk].0);
                assert(prev[kk] == prev[kk]);
                let i = choose|i: int| #![trigger c[i]] 0 <= i < c.len() && i < present.len() && c[i].0 == prev[kk].0 && present[i];
                assert(current[i] == c[i]);
            } else {
                assert(r[kk] == last && present[n]);
                assert(current[n] == last);
            }
        }
        assert forall|i: int| 0 <= i < discovered.len() implies #[trigger] r[i].0 == discovered[i].0 by {
            assert(r[i].0 == prev[i].0);
        }
    }
}

fn copy_devices(devices: &[HidppDevice]) -> (r: Vec<HidppDevice>)
    ensures
        r@ == devices@,
{
    let mut r: Vec<HidppDevice> = Vec::new();
    let mut i: usize = 0;
    while i < devices.len()
        invariant
            i <= devices@.len(),
            r@ == devices@.subrange(0, i as int),
        decreases devices@.len() - i,
    {
        r.push(devices[i].copy());
        i += 1;
    }
    assert(r@ =~= devices@);
    r
}

fn find_slot(devices: &[HidppDevice], slot: u8) -> (r: Option<usize>)
    ensures
        r matches Some(k) ==> k < devices@.len() && k as int == first_match(devices@, in_slot(slot)),
        r is None ==> first_match(devices@, in_slot(slot)) < 0,
{
    let mut i: usize = 0;
    while i < devices.len()
        invariant
            i <= devices@.len(),
            forall|j: int| 0 <= j < i ==> devices@[j].slot != slot,
        decreases devices@.len() - i,
    {
        if devices[i].slot == slot {
            proof { lemma_first_match(devices@, in_slot(slot), i as int); }
            return Some(i);
        }
        i += 1;
    }
    proof { lemma_first_match(devices@, in_slot(slot), devices@.len() as int); }
    None
}

fn merge_known_devices(fresh: &[HidppDevice], previous: &[HidppDevice]) -> (r: Vec<HidppDevice>)
    ensures
        r@ == merge_devices(fresh@, previous@),
{
    let mut devices = copy_devices(fresh);
    let mut i: usize = 0;
    assert(previous@.subrange(0, 0) =~= Seq::<HidppDevice>::empty());
    while i < previous.len()
        invariant
            i <= previous@.len(),
            devices@ == merge_devices(fresh@, previous@.subrange(0, i as int)),
        decreases previous@.len() - i,
    {
        let pd = &previous[i];
        proof {
            assert(previous@.subrange(0, i + 1).drop_last() =~= previous@.subrange(0, i as int));
        }
        match find_slot(devices.as_slice(), pd.slot) {
            Some(j) => {
                if same_pairing(pd, &devices[j]) {
                    let merged = prefer_discovered_device(Some(pd.copy()), devices[j].copy());
                    devices.set(j, merged);
                }
            },
            None => {
                devices.push(pd.copy());
            },
        }
        i += 1;
    }
    assert(previous@.subrange(0, previous@.len() as int) =~= previous@);
    devices
}

fn find_path(endpoints: &[MonitoredEndpoint], path: &String) -> (r: Option<usize>)
    ensures
        r matches Some(k) ==> k < endpoints@.len() && k as int == first_match(endpoint_views(endpoints@), at_path(path@)),
        r is None ==> first_match(endpoint_views(endpoints@), at_path(path@)) < 0,
{
    let ghost v = endpoint_views(endpoints@);
    let mut i: usize = 0;
    while i < endpoints.len()
        invariant
            v == endpoint_views(endpoints@),
            i <= endpoints@.len(),
            forall|j: int| 0 <= j < i ==> !(at_path(path@))(v[j]),
        decreases endpoints@.len() - i,
    {
        if endpoints[i].endpoint.path.eq(path) {
            proof { lemma_first_match(v, at_path(path@), i as int); }
            return Some(i);
        }
        assert(v[i as int] == endpoint_view(endpoints@[i as int]));
        i += 1;
    }
    proof { lemma_first_match(v, at_path(path@), v.len() as int); }
    None
}

/// Applies one reconciliation step to `result`, given the first endpoint with the
/// same path (if any) and whether the previous endpoint is still present.
fn apply_reconcile_step(result: &mut Vec<MonitoredEndpoint>, previous: &MonitoredEndpoint, index: Option<usize>, present: bool)
    requires
        index matches Some(k) ==> k < old(result)@.len() && k as int == first_match(endpoint_views(old(result)@), at_path(previous.endpoint.path@)),
        index is None ==> first_match(endpoint_views(old(result)@), at_path(previous.endpoint.path@)) < 0,
    ensures
        endpoint_views(final(result)@) == reconcile_step(endpoint_views(old(result)@), endpoint_view(*previous), present),
{
    let ghost before = endpoint_views(result@);
    match index {
        None => {
            if present {
                let copy = MonitoredEndpoint { endpoint: previous.endpoint.copy(), devices: copy_devices(previous.devices.as_slice()) };
                result.push(copy);
                assert(endpoint_views(result@) =~= before.push(endpoint_view(*previous)));
            }
        },
        Some(k) => {
            assert(before[k as int] == endpoint_view(result@[k as int]));
            if endpoint_eq(&result[k].endpoint, &previous.endpoint) {
                let merged = merge_known_devices(result[k].devices.as_slice(), previous.devices.as_slice());
                let updated = MonitoredEndpoint { endpoint: result[k].endpoint.copy(), devices: merged };
                result.set(k, updated);
                assert(endpoint_views(result@) =~= before.update(k as int, (before[k as int].0, merge_devices(before[k as int].1, previous.devices@))));
            }
        },
    }
}

pub proof fn lemma_reconcile_all_extend(
    current: Seq<(HidrawEndpoint, Seq<HidppDevice>)>,
    discovered: Seq<(HidrawEndpoint, Seq<HidppDevice>)>,
    present: Seq<bool>,
    extra: bool,
)
    requires
        present.len() >= current.len(),
    ensures
        reconcile_all(current, discovered, present.push(extra)) == reconcile_all(current, discovered, present),
    decreases current.len(),
{
    if current.len() > 0 {
        lemma_reconcile_all_extend(current.drop_last(), discovered, present, extra);
    }
}

/// Keeps endpoints that are still present but were not rediscovered (a sleeping
/// receiver device), and restores previously known devices of unchanged endpoints.
/// `endpoint_is_present` is asked only about endpoints whose path was not rediscovered.
pub fn reconcile_discovered_endpoints<F: Fn(&HidrawEndpoint) -> bool>(
    current: Vec<MonitoredEndpoint>,
    discovered: Vec<MonitoredEndpoint>,
    endpoint_is_present: F,
) -> (r: Vec<MonitoredEndpoint>)
    requires
        forall|e: &HidrawEndpoint| endpoint_is_present.requires((e,)),
    ensures
        exists|present: Seq<bool>| {
            &&& present.len() == current@.len()
            &&& endpoint_views(r@) == reconcile_all(
                endpoint_views(current@),
                endpoint_views(discovered@),
                present,
            )
            &&& forall|i: int| 0 <= i < current@.len() && first_match(
                reconcile_all(endpoint_views(current@).take(i), endpoint_views(discovered@), present),
                at_path(current@[i].endpoint.path@),
            ) < 0 ==> endpoint_is_present.ensures((&current@[i].endpoint,), #[trigger] present[i])
        },
{
    let mut result = discovered;
    let ghost views_current = endpoint_views(current@);
    let ghost views_discovered = endpoint_views(discovered@);
    let ghost mut present: Seq<bool> = Seq::empty();
    let mut i: usize = 0;
    assert(views_current.take(0) =~= Seq::<(HidrawEndpoint, Seq<HidppDevice>)>::empty());
    while i < current.len()
        invariant
            forall|e: &HidrawEndpoint| endpoint_is_present.requires((e,)),
            views_current == endpoint_views(current@),
            views_discovered == endpoint_views(discovered@),
            i <= current@.len(),
            present.len() == i,
            endpoint_views(result@) == reconcile_all(views_current.take(i as int), views_discovered, present),
            forall|t: int| 0 <= t < i && first_match(
                reconcile_all(views_current.take(t), views_discovered, present),
                at_path(current@[t].endpoint.path@),
            ) < 0 ==> endpoint_is_present.ensures((&current@[t].endpoint,), #[trigger] present[t]),
        decreases current@.len() - i,
    {
        let prev = &current[i];
        let index = find_path(result.as_slice(), &prev.endpoint.path);
        let is_present = match index {
            None => endpoint_is_present(&prev.endpoint),
            Some(_) => true,
        };
        let ghost before = endpoint_views(result@);
        apply_reconcile_step(&mut result, prev, index, is_present);
        proof {
            let old_present = present;
            present = present.push(is_present);
            let prefix = views_current.take(i as int);
            let next_prefix = views_current.take(i + 1);
            assert(next_prefix.drop_last() =~= prefix);
            assert(next_prefix.last() == endpoint_view(current@[i as int]));
            lemma_reconcile_all_extend(prefix, views_discovered, old_present, is_present);
            assert forall|t: int| 0 <= t < i + 1 && first_match(
                reconcile_all(views_current.take(t), views_discovered, present),
                at_path(current@[t].endpoint.path@),
            ) < 0 implies endpoint_is_present.ensures((&current@[t].endpoint,), #[trigger] present[t]) by {
                if t < i {
                    assert(views_current.take(t).len() == t);
                    lemma_reconcile_all_extend(views_current.take(t), views_discovered, old_present, is_present);
                    assert(present[t] == old_present[t]);
                } else {
                    assert(views_current.take(t) == prefix);
                }
            }
        }
        i += 1;
    }
    assert(views_current.take(current@.len() as int) =~= views_current);
    result
}


// ---------------------------------------------------------------------------
// Device records
// ---------------------------------------------------------------------------

/// Name of a Centurion headset: the endpoint's product name, unless the
/// endpoint only calls itself a receiver or a device.
pub open spec fn centurion_name(endpoint: HidrawEndpoint) -> Seq<char> {
    let name = clean_name(endpoint.name@);
    if !eq_ignore_case(name, "USB Receiver"@) && !eq_ignore_case(name, "device"@) {
        name
    } else if endpoint.product_id == 0x0af7 {
        "PRO X 2 LIGHTSPEED"@
    } else if endpoint.product_id == 0x0b18 || endpoint.product_id == 0x0b19 {
        "G522"@
    } else {
        "Logitech headset"@
    }
}

pub fn centurion_device_name(endpoint: &HidrawEndpoint) -> (r: String)
    ensures
        r@ == centurion_name(*endpoint),
{
    let name = clean_logitech_name(endpoint.name.as_str());
    if !eq_ignore_case_str(name.as_str(), "USB Receiver") && !eq_ignore_case_str(name.as_str(), "device") {
        return name;
    }
    if endpoint.product_id == 0x0af7 {
        owned("PRO X 2 LIGHTSPEED")
    } else if endpoint.product_id == 0x0b18 || endpoint.product_id == 0x0b19 {
        owned("G522")
    } else {
        owned("Logitech headset")
    }
}

/// The placeholder name of a device that reports none.
pub open spec fn placeholder_name(slot: u8) -> Seq<char> {
    if slot == 0xff { "Logitech device"@ } else { "Logitech device "@ + decimal(slot as nat) }
}

/// The name chosen for a discovered device: the more descriptive of the queried
/// and the paired name (the paired one on a tie), or a placeholder.
pub open spec fn chosen_name(slot: u8, queried: Option<String>, paired: Option<String>) -> Seq<char> {
    match (queried, paired) {
        (Some(q), Some(p)) => if name_quality(p@) >= name_quality(q@) { p@ } else { q@ },
        (Some(q), None) => q@,
        (None, Some(p)) => p@,
        (None, None) => placeholder_name(slot),
    }
}

/// Builds the record of a discovered device. `queried_name` is the device's
/// own (non-empty) name, `queried_kind` its reported kind, and `protocol` its
/// battery feature, each absent when the device did not answer.
pub fn assemble_discovered_device(
    paired: PairedDevice,
    queried_name: Option<String>,
    queried_kind: Option<String>,
    protocol: Option<BatteryProtocol>,
) -> (r: HidppDevice)
    ensures
        r.slot == paired.slot,
        r.pairing_name == paired.name,
        r.name@ == chosen_name(paired.slot, queried_name, paired.name),
        opt_view(r.kind) == (if queried_kind is Some { opt_view(queried_kind) } else if paired.kind is Some {
            opt_view(paired.kind)
        } else {
            inferred_kind(chosen_name(paired.slot, queried_name, paired.name))
        }),
        r.battery_protocol == (match protocol { Some(p) => p, None => BatteryProtocol::Unknown }),
        r.centurion is None,
{
    let slot = paired.slot;
    let pairing_name = copy_opt_string(&paired.name);
    let name = match (queried_name, paired.name) {
        (Some(q), Some(p)) => if device_name_quality(p.as_str()) >= device_name_quality(q.as_str()) {
            p
        } else {
            q
        },
        (Some(q), None) => q,
        (None, Some(p)) => p,
        (None, None) => {
            let mut v = chars_of("Logitech device");
            if slot != 0xff {
                append_str(&mut v, " ");
                let digits = decimal_chars(slot as u64);
                append_chars(&mut v, digits.as_slice());
                proof {
                    reveal_strlit("Logitech device");
                    reveal_strlit(" ");
                    reveal_strlit("Logitech device ");
                    assert(v@ =~= "Logitech device "@ + decimal(slot as nat));
                }
            }
            string_of(v.as_slice())
        },
    };
    let kind = match queried_kind {
        Some(k) => Some(k),
        None => match paired.kind {
            Some(k) => Some(k),
            None => infer_kind(name.as_str()),
        },
    };
    let battery_protocol = match protocol {
        Some(p) => p,
        None => BatteryProtocol::Unknown,
    };
    HidppDevice { slot, name, pairing_name, kind, battery_protocol, centurion: None }
}

/// Device kind reported by the HID++ device-name feature.
pub open spec fn kind_code_text(code: u8) -> Option<Seq<char>> {
    if code == 0x00 { Some("keyboard"@) }
    else if code == 0x02 { Some("numpad"@) }
    else if code == 0x03 { Some("mouse"@) }
    else if code == 0x04 { Some("touchpad"@) }
    else if code == 0x05 { Some("trackball"@) }
    else if code == 0x06 { Some("presenter"@) }
    else { None }
}

pub fn device_kind_from_response(response: &[u8]) -> (r: Result<String, String>)
    ensures
        r is Ok <==> response@.len() > 0 && kind_code_text(response@[0]) is Some,
        r matches Ok(kind) ==> Some(kind@) == kind_code_text(response@[0]),
{
    if response.len() == 0 {
        return Err(owned("unknown HID++ device kind"));
    }
    let code = response[0];
    if code == 0x00 { Ok(owned("keyboard")) }
    else if code == 0x02 { Ok(owned("numpad")) }
    else if code == 0x03 { Ok(owned("mouse")) }
    else if code == 0x04 { Ok(owned("touchpad")) }
    else if code == 0x05 { Ok(owned("trackball")) }
    else if code == 0x06 { Ok(owned("presenter")) }
    else { Err(owned("unknown HID++ device kind")) }
}

/// The feature index in a root-feature reply; 0 means the feature is absent.
pub fn feature_index_from_response(feature: u16, response: &[u8]) -> (r: Result<u8, String>)
    ensures
        r is Ok <==> response@.len() > 0 && response@[0] != 0,
        r matches Ok(index) ==> index == response@[0],
        r matches Err(message) ==> message@ == "HID++ feature "@ + crate::text::hex_prefixed(feature as nat, 6) + " is unavailable"@,
{
    if response.len() > 0 && response[0] != 0 {
        return Ok(response[0]);
    }
    let mut v = chars_of("HID++ feature ");
    crate::text::append_hex(&mut v, feature as u64, 6);
    append_str(&mut v, " is unavailable");
    Err(string_of(v.as_slice()))
}

/// What a battery query of a device has to do.
#[derive(Debug, Clone, Copy, PartialEq, Eq)]
pub enum BatteryQuery {
    /// Ask the Centurion headset.
    Centurion(CenturionDevice),
    /// Send this HID++ 2.0 request and decode the reply with the feature.
    Hidpp20 { request_id: u16, feature: BatteryFeature },
    /// Read the HID++ 1.0 battery registers.
    Hidpp10,
    /// Discover the battery protocol first.
    Discover,
}

pub open spec fn battery_query(device: HidppDevice) -> BatteryQuery {
    match device.centurion {
        Some(c) => BatteryQuery::Centurion(c),
        None => match device.battery_protocol {
            BatteryProtocol::Hidpp20 { feature, index } => BatteryQuery::Hidpp20 {
                request_id: (index as u16 * 256 + crate::battery::protocol::feature_function(feature)) as u16,
                feature,
            },
            BatteryProtocol::Hidpp10 => BatteryQuery::Hidpp10,
            BatteryProtocol::Unknown => BatteryQuery::Discover,
        },
    }
}

/// Chooses how to query a device's battery.
pub fn battery_query_for(device: &HidppDevice) -> (r: BatteryQuery)
    ensures
        r == battery_query(*device),
{
    match device.centurion {
        Some(c) => BatteryQuery::Centurion(c),
        None => match device.battery_protocol {
            BatteryProtocol::Hidpp20 { feature, index } => BatteryQuery::Hidpp20 {
                request_id: (index as u16) * 256 + (feature.function() as u16),
                feature,
            },
            BatteryProtocol::Hidpp10 => BatteryQuery::Hidpp10,
            BatteryProtocol::Unknown => BatteryQuery::Discover,
        },
    }
}

/// Appends one fragment of a device-name reply; the friendly-name feature
/// prefixes each fragment with its offset. Never grows past `length` bytes.
pub fn append_name_fragment(name: &mut Vec<u8>, fragment: &[u8], length: usize, friendly: bool) -> (r: Result<(), String>)
    requires
        old(name)@.len() <= length,
    ensures
        r is Err <==> fragment@.len() == 0,
        r is Err ==> final(name)@ == old(name)@,
        r is Ok ==> ({
            let piece = if friendly { fragment@.skip(1) } else { fragment@ };
            let room = length - old(name)@.len();
            final(name)@ == old(name)@ + piece.take(if piece.len() < room { piece.len() as int } else { room })
        }),
        final(name)@.len() <= length,
{
    if fragment.len() == 0 {
        return Err(owned("HID++ device name fragment was empty"));
    }
    let start: usize = if friendly { 1 } else { 0 };
    let ghost piece = if friendly { fragment@.skip(1) } else { fragment@ };
    let room = length - name.len();
    let available = fragment.len() - start;
    let count = if available < room { available } else { room };
    let ghost before = name@;
    let mut i: usize = 0;
    while i < count
        invariant
            start + count <= fragment@.len(),
            fragment@.len() <= usize::MAX,
            start <= 1,
            piece =~= fragment@.skip(start as int),
            i <= count,
            name@ == before + piece.take(i as int),
        decreases count - i,
    {
        name.push(fragment[start + i]);
        i += 1;
        assert(before + piece.take(i as int) =~= before + piece.take(i - 1) + seq![piece[i - 1]]);
    }
    Ok(())
}

pub open spec fn nul_or_ws(c: char) -> bool {
    c == '\0' || is_ws(c)
}

/// The text of a device name reply, without NUL padding and surrounding white space.
pub open spec fn name_text(bytes: Seq<u8>) -> Option<Seq<char>> {
    if !vstd::utf8::valid_utf8(bytes) {
        None
    } else {
        Some(trim_nul_ws(vstd::utf8::decode_utf8(bytes)))
    }
}

pub open spec fn trim_nul_ws_start(s: Seq<char>) -> Seq<char>
    decreases s.len(),
{
    if s.len() > 0 && nul_or_ws(s[0]) { trim_nul_ws_start(s.drop_first()) } else { s }
}

pub open spec fn trim_nul_ws_end(s: Seq<char>) -> Seq<char>
    decreases s.len(),
{
    if s.len() > 0 && nul_or_ws(s.last()) { trim_nul_ws_end(s.drop_last()) } else { s }
}

pub open spec fn trim_nul_ws(s: Seq<char>) -> Seq<char> {
    trim_nul_ws_end(trim_nul_ws_start(s))
}

/// Decodes an assembled device name; invalid UTF-8 and blank names are refused.
pub fn finish_device_name(bytes: Vec<u8>) -> (r: Result<String, String>)
    ensures
        r is Ok <==> (name_text(bytes@) matches Some(t) && t.len() > 0),
        r matches Ok(name) ==> Some(name@) == name_text(bytes@),
{
    let text = match string_from_utf8(bytes) {
        Some(text) => text,
        None => return Err(owned("invalid HID++ device name")),
    };
    let v = chars_of(text.as_str());
    let mut a: usize = 0;
    assert(v@.subrange(0, v@.len() as int) =~= v@);
    while a < v.len() && (v[a] == '\0' || crate::text::is_ws_char(v[a]))
        invariant
            a <= v@.len(),
            trim_nul_ws_start(v@) == trim_nul_ws_start(v@.subrange(a as int, v@.len() as int)),
        decreases v@.len() - a,
    {
        assert(v@.subrange(a as int, v@.len() as int).drop_first() =~= v@.subrange(a + 1, v@.len() as int));
        a += 1;
    }
    let mut b: usize = v.len();
    while b > a && (v[b - 1] == '\0' || crate::text::is_ws_char(v[b - 1]))
        invariant
            a <= b <= v@.len(),
            trim_nul_ws(v@) == trim_nul_ws_end(v@.subrange(a as int, b as int)),
        decreases b,
    {
        assert(v@.subrange(a as int, b as int).drop_last() =~= v@.subrange(a as int, b - 1));
        b -= 1;
    }
    if a == b {
        return Err(owned("HID++ device name was empty"));
    }
    let mut out: Vec<char> = Vec::new();
    let mut i = a;
    while i < b
        invariant
            a <= i <= b <= v@.len(),
            out@ == v@.subrange(a as int, i as int),
        decreases b - i,
    {
        out.push(v[i]);
        i += 1;
    }
    Ok(string_of(out.as_slice()))
}

} // verus!
