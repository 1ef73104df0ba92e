use std::cell::{Cell, RefCell};

use cosmic_widget::battery::logitech::{
    BatteryState, Bus, EndpointKind, HidppDevice, HidrawEndpoint, MAX_BATTERY_EVENT_REPORTS,
    MonitoredEndpoint, PairedDevice, ReceiverKind, ReportRead, apply_battery_notification,
    confirm_repeated_reading, discover_paired_devices, drain_battery_events, needs_confirmation,
    parse_battery_notification, readings_agree, reconcile_discovered_endpoints,
    state_from_reading, upsert_state,
};
use cosmic_widget::battery::names::{
    device_identity, device_name_quality, infer_kind, same_device_name,
};
use cosmic_widget::battery::protocol::{BatteryFeature, BatteryProtocol, BatteryReading};
use cosmic_widget::battery::store::KeyedStore;

#[test]
fn infers_current_logitech_device_kinds() {
    assert_eq!(infer_kind("G309 LIGHTSPEED").as_deref(), Some("mouse"));
    assert_eq!(
        infer_kind("MX Mechanical Mini").as_deref(),
        Some("keyboard")
    );
}

#[test]
fn normalizes_transport_marketing_names_for_deduplication() {
    assert_eq!(
        device_identity("Logitech G309 LIGHTSPEED"),
        device_identity("G309")
    );
    assert!(same_device_name("G309", "G309 LIGHTSPEED"));
    assert!(!same_device_name("Logitech LIGHTSPEED", "Wireless"));
}

#[test]
fn deduplication_keeps_the_more_descriptive_device_name() {
    let mut states = vec![BatteryState {
        name: "G309".to_string(),
        level: Some(100),
        status: Some("discharging".to_string()),
        kind: Some("mouse".to_string()),
        connected: true,
    }];

    upsert_state(
        &mut states,
        BatteryState {
            name: "G309 LIGHTSPEED".to_string(),
            level: Some(100),
            status: Some("discharging".to_string()),
            kind: Some("mouse".to_string()),
            connected: true,
        },
        true,
    );

    assert_eq!(states.len(), 1);
    assert_eq!(states[0].name, "G309 LIGHTSPEED");
}

#[test]
fn live_hidpp_reading_overrides_generic_power_supply_value() {
    let mut states = vec![BatteryState {
        name: "G309 LIGHTSPEED".to_string(),
        level: Some(63),
        status: Some("discharging".to_string()),
        kind: Some("mouse".to_string()),
        connected: true,
    }];

    upsert_state(
        &mut states,
        BatteryState {
            name: "G309 LIGHTSPEED".to_string(),
            level: Some(100),
            status: Some("charged".to_string()),
            kind: Some("mouse".to_string()),
            connected: true,
        },
        true,
    );

    assert_eq!(states[0].level, Some(100));
    assert_eq!(states[0].status.as_deref(), Some("charged"));
}

#[test]
fn remembered_hidpp_reading_does_not_override_live_power_supply_value() {
    let mut states = vec![BatteryState {
        name: "MX Mechanical Mini".to_string(),
        level: Some(80),
        status: Some("discharging".to_string()),
        kind: Some("keyboard".to_string()),
        connected: true,
    }];

    upsert_state(
        &mut states,
        BatteryState {
            name: "MX Mechanical Mini".to_string(),
            level: Some(65),
            status: Some("discharging".to_string()),
            kind: Some("keyboard".to_string()),
            connected: true,
        },
        false,
    );

    assert_eq!(states[0].level, Some(80));
}

#[test]
fn rejects_truncated_control_character_names() {
    assert!(
        device_name_quality("MX Mechanical Mini") > device_name_quality("X Mechanical Mini\0")
    );
}

#[test]
fn requires_large_battery_changes_to_repeat() {
    let previous = BatteryReading {
        level: Some(100),
        status: Some("charged".to_string()),
    };
    let transient = BatteryReading {
        level: Some(18),
        status: Some("discharging".to_string()),
    };
    let confirmed = transient.clone();
    let recovered = previous.clone();

    assert!(needs_confirmation(&previous, &transient));
    assert!(readings_agree(&transient, &confirmed));
    assert!(!readings_agree(&transient, &recovered));
    assert!(!needs_confirmation(&previous, &recovered));
}

#[test]
fn confirms_large_battery_changes_against_a_second_reading() {
    let previous = BatteryReading {
        level: Some(85),
        status: Some("discharging".to_string()),
    };
    let transient = BatteryReading {
        level: Some(1),
        status: Some("discharging".to_string()),
    };
    let recovered = previous.clone();
    let conflicting = BatteryReading {
        level: Some(50),
        status: Some("discharging".to_string()),
    };

    assert_eq!(
        confirm_repeated_reading(&previous, transient.clone(), recovered.clone()),
        Ok(recovered)
    );
    assert_eq!(
        confirm_repeated_reading(&previous, transient.clone(), transient.clone()),
        Ok(transient.clone())
    );
    assert!(
        confirm_repeated_reading(&previous, transient, conflicting).is_err(),
        "two contradictory large changes must not become authoritative"
    );
}

#[test]
fn preserves_last_hidpp_reading_while_device_sleeps() {
    let device = HidppDevice {
        slot: 4,
        name: "MX Mechanical Mini".to_string(),
        pairing_name: Some("KEYS".to_string()),
        kind: Some("keyboard".to_string()),
        battery_protocol: BatteryProtocol::Unknown,
        centurion: None,
    };
    let mut readings = KeyedStore::new();

    let awake = state_from_reading(
        &device,
        Ok(BatteryReading {
            level: Some(20),
            status: Some("discharging".to_string()),
        }),
        &mut readings,
    )
    .unwrap();
    let sleeping =
        state_from_reading(&device, Err("device timed out".to_string()), &mut readings).unwrap();

    assert_eq!(sleeping.level, awake.level);
    assert_eq!(sleeping.status, awake.status);
    assert!(sleeping.connected);
}

fn bolt_endpoint() -> HidrawEndpoint {
    HidrawEndpoint {
        path: "/dev/hidraw-bolt-test".to_string(),
        bus: Bus::Usb,
        product_id: 0xc548,
        name: "Logitech USB Receiver".to_string(),
        kind: EndpointKind::Receiver(ReceiverKind::Bolt),
    }
}

fn resolved_keyboard() -> HidppDevice {
    HidppDevice {
        slot: 1,
        name: "MX Mechanical Mini".to_string(),
        pairing_name: Some("KEYS".to_string()),
        kind: Some("keyboard".to_string()),
        battery_protocol: BatteryProtocol::Hidpp20 {
            feature: BatteryFeature::Unified,
            index: 4,
        },
        centurion: None,
    }
}

fn keyboard_pairing() -> PairedDevice {
    PairedDevice {
        slot: 1,
        name: Some("KEYS".to_string()),
        kind: Some("keyboard".to_string()),
    }
}

fn keyboard_battery_event(level: u8, status: u8) -> [u8; 20] {
    let mut report = [0; 20];
    report[..8].copy_from_slice(&[0x11, 1, 4, 0, level, 4, status, 0]);
    report
}

#[test]
fn accepts_only_matching_complete_battery_events() {
    let keyboard = resolved_keyboard();
    let report = keyboard_battery_event(20, 1);
    assert_eq!(
        parse_battery_notification(&keyboard, &report),
        Some(BatteryReading {
            level: Some(20),
            status: Some("charging".to_string())
        })
    );
    for length in 0..report.len() {
        assert!(parse_battery_notification(&keyboard, &report[..length]).is_none());
    }
    for (offset, value) in [(0, 0x12), (1, 2), (2, 5), (3, 1), (3, 0x10), (6, 0xff)] {
        let mut unrelated = report;
        unrelated[offset] = value;
        assert!(parse_battery_notification(&keyboard, &unrelated).is_none());
    }
    let unknown = HidppDevice {
        battery_protocol: BatteryProtocol::Unknown,
        ..keyboard
    };
    assert!(parse_battery_notification(&unknown, &report).is_none());
}

#[test]
fn charging_and_unplug_events_update_a_sleeping_keyboard() {
    let keyboard = resolved_keyboard();
    let mut readings = KeyedStore::new();
    let mut pending = KeyedStore::new();
    state_from_reading(
        &keyboard,
        Ok(BatteryReading {
            level: Some(20),
            status: Some("discharging".to_string()),
        }),
        &mut readings,
    );

    for (status, expected) in [(1, "charging"), (0, "discharging")] {
        let reading =
            parse_battery_notification(&keyboard, &keyboard_battery_event(20, status)).unwrap();
        let event_state =
            apply_battery_notification(&keyboard, reading, &mut readings, &mut pending).unwrap();
        let sleeping =
            state_from_reading(&keyboard, Err("device asleep".to_string()), &mut readings)
                .unwrap();
        assert_eq!(event_state, sleeping);
        assert_eq!(sleeping.level, Some(20));
        assert_eq!(sleeping.status.as_deref(), Some(expected));
    }
}

#[test]
fn battery_events_confirm_level_jumps_without_delaying_charging_status() {
    let keyboard = resolved_keyboard();
    let mut readings = KeyedStore::new();
    let mut pending = KeyedStore::new();
    state_from_reading(
        &keyboard,
        Ok(BatteryReading {
            level: Some(20),
            status: Some("discharging".to_string()),
        }),
        &mut readings,
    );
    let reading = parse_battery_notification(&keyboard, &keyboard_battery_event(80, 1)).unwrap();

    let first =
        apply_battery_notification(&keyboard, reading.clone(), &mut readings, &mut pending)
            .unwrap();
    assert_eq!(first.level, Some(20));
    assert_eq!(first.status.as_deref(), Some("charging"));
    let confirmed =
        apply_battery_notification(&keyboard, reading, &mut readings, &mut pending).unwrap();
    assert_eq!(confirmed.level, Some(80));
    assert_eq!(confirmed.status.as_deref(), Some("charging"));
    assert!(pending.is_empty());
}

#[test]
fn bounds_event_draining_when_other_clients_keep_sending_reports() {
    let mut reads = 0usize;
    let flood = || {
        reads += 1;
        ReportRead::Report(keyboard_battery_event(20, 1).to_vec())
    };
    let mut states = Vec::new();

    assert!(drain_battery_events(
        flood,
        &[resolved_keyboard()],
        &mut KeyedStore::new(),
        &mut KeyedStore::new(),
        &mut states,
    ));
    assert_eq!(reads, MAX_BATTERY_EVENT_REPORTS);
    assert_eq!(states.len(), 1);
    assert_eq!(states[0].status.as_deref(), Some("charging"));
}

#[test]
fn reuses_resolved_features_without_waking_a_paired_device() {
    let endpoint = bolt_endpoint();
    let keyboard = resolved_keyboard();
    let known = vec![MonitoredEndpoint {
        endpoint: endpoint.clone(),
        devices: vec![keyboard.clone()],
    }];

    let devices = discover_paired_devices(&endpoint, vec![keyboard_pairing()], &known, |_, _| {
        panic!("a resolved pairing must not repeat device discovery")
    });

    assert_eq!(devices, vec![keyboard]);
}

#[test]
fn discovers_new_unknown_and_changed_pairings() {
    let endpoint = bolt_endpoint();
    let keyboard = resolved_keyboard();
    let mut unknown = keyboard.clone();
    unknown.battery_protocol = BatteryProtocol::Unknown;
    let cases = [
        (unknown, keyboard_pairing()),
        (
            keyboard.clone(),
            PairedDevice {
                slot: 2,
                ..keyboard_pairing()
            },
        ),
        (
            keyboard.clone(),
            PairedDevice {
                name: Some("MX Keys Mini".to_string()),
                ..keyboard_pairing()
            },
        ),
        (
            keyboard.clone(),
            PairedDevice {
                name: None,
                ..keyboard_pairing()
            },
        ),
        (
            keyboard,
            PairedDevice {
                kind: Some("mouse".to_string()),
                ..keyboard_pairing()
            },
        ),
    ];

    for (previous, paired) in cases {
        let known = vec![MonitoredEndpoint {
            endpoint: endpoint.clone(),
            devices: vec![previous],
        }];
        let probes = RefCell::new(Vec::new());
        discover_paired_devices(&endpoint, vec![paired.clone()], &known, |_, candidate| {
            probes.borrow_mut().push(candidate);
            None
        });
        assert_eq!(probes.into_inner(), vec![paired]);
    }
}

#[test]
fn discovers_again_when_an_endpoint_changes() {
    let endpoint = bolt_endpoint();
    let known = vec![MonitoredEndpoint {
        endpoint: endpoint.clone(),
        devices: vec![resolved_keyboard()],
    }];
    let changed_endpoints = [
        HidrawEndpoint {
            path: "/dev/hidraw-new".to_string(),
            ..endpoint.clone()
        },
        HidrawEndpoint {
            product_id: 0xc52b,
            ..endpoint.clone()
        },
        HidrawEndpoint {
            bus: Bus::Bluetooth,
            ..endpoint.clone()
        },
        HidrawEndpoint {
            name: "Replacement Receiver".to_string(),
            ..endpoint.clone()
        },
        HidrawEndpoint {
            kind: EndpointKind::Direct,
            ..endpoint
        },
    ];

    for endpoint in changed_endpoints {
        let probes = RefCell::new(Vec::new());
        discover_paired_devices(&endpoint, vec![keyboard_pairing()], &known, |_, paired| {
            probes.borrow_mut().push(paired);
            None
        });
        assert_eq!(probes.into_inner(), vec![keyboard_pairing()]);
    }
}

#[test]
fn does_not_restore_old_features_for_a_replaced_pairing() {
    let endpoint = bolt_endpoint();
    let replacement = HidppDevice {
        name: "MX Keys Mini".to_string(),
        pairing_name: Some("MX Keys Mini".to_string()),
        battery_protocol: BatteryProtocol::Unknown,
        ..resolved_keyboard()
    };
    let current = vec![MonitoredEndpoint {
        endpoint: endpoint.clone(),
        devices: vec![resolved_keyboard()],
    }];
    let discovered = vec![MonitoredEndpoint {
        endpoint,
        devices: vec![replacement.clone()],
    }];

    let reconciled = reconcile_discovered_endpoints(current, discovered, |_| true);

    assert_eq!(reconciled[0].devices, vec![replacement]);
}

#[test]
fn does_not_restore_devices_for_a_reused_hidraw_path() {
    let endpoint = bolt_endpoint();
    let current = vec![MonitoredEndpoint {
        endpoint: endpoint.clone(),
        devices: vec![resolved_keyboard()],
    }];
    let discovered = vec![MonitoredEndpoint {
        endpoint: HidrawEndpoint {
            product_id: 0xc52b,
            ..endpoint
        },
        devices: Vec::new(),
    }];

    let reconciled = reconcile_discovered_endpoints(current, discovered, |_| true);

    assert!(reconciled[0].devices.is_empty());
}

#[test]
fn preserves_a_sleeping_receiver_device_during_rediscovery() {
    let endpoint = bolt_endpoint();
    let known_keyboard = resolved_keyboard();
    let current = vec![MonitoredEndpoint {
        endpoint: endpoint.clone(),
        devices: vec![known_keyboard.clone()],
    }];

    let retained = reconcile_discovered_endpoints(current, Vec::new(), |_| true);

    assert_eq!(retained.len(), 1);
    assert_eq!(retained[0].devices, vec![known_keyboard]);

    let removed = reconcile_discovered_endpoints(retained, Vec::new(), |_| false);
    assert!(removed.is_empty());
}

#[test]
fn asks_presence_only_for_endpoints_that_were_not_rediscovered() {
    let keyboard = resolved_keyboard();
    let asked = Cell::new(0);
    let present = |_: &HidrawEndpoint| {
        asked.set(asked.get() + 1);
        true
    };
    let kept = reconcile_discovered_endpoints(
        vec![MonitoredEndpoint {
            endpoint: bolt_endpoint(),
            devices: vec![keyboard],
        }],
        Vec::new(),
        present,
    );
    assert_eq!(kept.len(), 1);
    assert_eq!(asked.get(), 1);
}

#[test]
fn draining_stops_at_a_closed_endpoint_or_an_empty_queue() {
    for (last, open) in [(ReportRead::Closed, false), (ReportRead::Failed, false), (ReportRead::WouldBlock, true)] {
        let mut queue = vec![
            last,
            ReportRead::Interrupted,
            ReportRead::Report(keyboard_battery_event(20, 1).to_vec()),
        ];
        let mut reads = 0usize;
        let reader = || {
            reads += 1;
            queue.pop().unwrap_or(ReportRead::WouldBlock)
        };
        let mut states = Vec::new();
        assert_eq!(
            drain_battery_events(
                reader,
                &[resolved_keyboard()],
                &mut KeyedStore::new(),
                &mut KeyedStore::new(),
                &mut states,
            ),
            open
        );
        assert_eq!(reads, 3);
        assert_eq!(states.len(), 1);
    }
}
