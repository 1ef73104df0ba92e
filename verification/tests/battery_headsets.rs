use cosmic_widget::battery::headsets::{
    DirectBattery, Reading, g533_curve, interpolate_voltage, map_battery, parse_direct,
    parse_nova_7, parse_void,
};

#[test]
fn parses_corsair_level_microphone_flag_and_charging() {
    assert_eq!(
        parse_void(&[100, 0, 0x80 | 73, 177, 5]),
        Ok(Reading::charging(Some(73)))
    );
    assert_eq!(
        parse_void(&[100, 0, 42, 177, 1]),
        Ok(Reading::discharging(42))
    );
    assert!(parse_void(&[100, 0, 42, 177, 0]).is_err());
}

#[test]
fn interpolates_logitech_voltage_curve() {
    let curve = g533_curve();
    assert_eq!(interpolate_voltage(3_200, &curve), None);
    assert_eq!(interpolate_voltage(3_330, &curve), Some(0));
    assert_eq!(interpolate_voltage(3_750, &curve), Some(20));
    assert_eq!(interpolate_voltage(4_500, &curve), Some(100));
}

#[test]
fn maps_g930_raw_battery_range() {
    assert_eq!(map_battery(44, 44, 91), Ok(0));
    assert_eq!(map_battery(91, 44, 91), Ok(100));
}

#[test]
fn parses_legacy_direct_battery_and_offline_status() {
    let spec = || DirectBattery {
        response_size: 8,
        battery_index: 3,
        status_index: Some(2),
        offline_value: Some(1),
        charging_value: None,
        minimum: 0,
        maximum: 100,
    };
    assert_eq!(
        parse_direct(&[0, 0, 0, 73], spec()),
        Ok(Reading::discharging(73))
    );
    assert!(parse_direct(&[0, 0, 1, 73], spec()).is_err());
}

#[test]
fn distinguishes_discrete_and_percentage_nova_7_models() {
    assert_eq!(
        parse_nova_7(&[0, 0, 3, 8], 0x2202),
        Ok(Reading::discharging(75))
    );
    assert_eq!(
        parse_nova_7(&[0, 0, 83, 8], 0x22a1),
        Ok(Reading::discharging(83))
    );
}
