//! Logitech devices exposed by the kernel as power supplies.

use vstd::prelude::*;
use crate::text::{chars_of, eq_ignore_case, eq_ignore_case_str, opt_view, parse_u64_chars, seq_eq, string_of, trim, trim_string, unsigned_text};
use crate::battery::logitech::BatteryState;
use crate::battery::names::{infer_kind, inferred_kind, normalize_power_status, power_status};

verus! {

/// The attribute files of one `/sys/class/power_supply` entry, as read (absent
/// when a file could not be read).
#[derive(Debug, Clone, PartialEq, Eq, Default)]
pub struct PowerSupplyFiles {
    pub manufacturer: Option<String>,
    pub scope: Option<String>,
    pub model_name: Option<String>,
    pub online: Option<String>,
    pub capacity: Option<String>,
    pub status: Option<String>,
}

/// An attribute's trimmed text; blank attributes count as absent.
pub open spec fn attribute(contents: Option<String>) -> Option<Seq<char>> {
    match contents {
        Some(c) => if trim(c@).len() > 0 { Some(trim(c@)) } else { None },
        None => None,
    }
}

pub fn read_trimmed(contents: &Option<String>) -> (r: Option<String>)
    ensures
        opt_view(r) == attribute(*contents),
{
    match contents {
        Some(c) => {
            let t = trim_string(c.as_str());
            if t.as_str().unicode_len() > 0 { Some(t) } else { None }
        },
        None => None,
    }
}

/// `capacity` as a percentage: a decimal number no greater than 100.
pub open spec fn capacity_level(capacity: Option<Seq<char>>) -> Option<u8> {
    match capacity {
        Some(c) => match unsigned_text(c) {
            Some(n) => if n <= 100 { Some(n as u8) } else { None },
            None => None,
        },
        None => None,
    }
}

/// The battery row of a Logitech peripheral's power supply, when the entry is one.
pub open spec fn supply_state_matches(files: PowerSupplyFiles, state: BatteryState) -> bool {
    let connected = match attribute(files.online) {
        Some(o) => o != "0"@,
        None => true,
    };
    &&& state.name@ == attribute(files.model_name)->0
    &&& state.connected == connected
    &&& state.level == (if connected { capacity_level(attribute(files.capacity)) } else { None })
    &&& opt_view(state.status) == (if connected {
        match attribute(files.status) {
            Some(s) => power_status(s),
            None => None,
        }
    } else {
        None
    })
    &&& opt_view(state.kind) == inferred_kind(state.name@)
}

pub open spec fn is_logitech_device_supply(files: PowerSupplyFiles) -> bool {
    &&& attribute(files.manufacturer) matches Some(m) && eq_ignore_case(m, "Logitech"@)
    &&& attribute(files.scope) matches Some(s) && eq_ignore_case(s, "Device"@)
    &&& attribute(files.model_name) is Some
}

/// Reads a Logitech peripheral's battery from its power-supply attributes.
pub fn power_supply_state(files: &PowerSupplyFiles) -> (r: Option<BatteryState>)
    ensures
        r is Some <==> is_logitech_device_supply(*files),
        r matches Some(state) ==> supply_state_matches(*files, state),
{
    let manufacturer = match read_trimmed(&files.manufacturer) {
        Some(m) => m,
        None => return None,
    };
    let scope = match read_trimmed(&files.scope) {
        Some(s) => s,
        None => return None,
    };
    if !eq_ignore_case_str(manufacturer.as_str(), "Logitech") || !eq_ignore_case_str(scope.as_str(), "Device") {
        return None;
    }
    let name = match read_trimmed(&files.model_name) {
        Some(n) => n,
        None => return None,
    };
    let connected = match read_trimmed(&files.online) {
        Some(o) => !seq_eq(chars_of(o.as_str()).as_slice(), chars_of("0").as_slice()),
        None => true,
    };
    let level = if connected {
        match read_trimmed(&files.capacity) {
            Some(c) => match parse_u64_chars(chars_of(c.as_str()).as_slice()) {
                Some(n) => if n <= 100 { Some(n as u8) } else { None },
                None => None,
            },
            None => None,
        }
    } else {
        None
    };
    let status = if connected {
        match read_trimmed(&files.status) {
            Some(s) => normalize_power_status(s),
            None => None,
        }
    } else {
        None
    };
    let kind = infer_kind(name.as_str());
    Some(BatteryState { name, level, status, kind, connected })
}

} // verus!
