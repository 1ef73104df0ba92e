use cosmic_widget::battery::protocol::{
    BatteryFeature, BatteryReading, HIDPP10_BATTERY_CHARGE_REGISTER,
    HIDPP10_BATTERY_STATUS_REGISTER, estimate_battery_percentage, parse_hidpp10_battery,
    parse_unified_battery,
};
use cosmic_widget::battery::transport::with_software_id;

#[test]
fn parses_every_hidpp20_battery_format() {
    assert_eq!(
        BatteryFeature::Status.parse(&[72, 60, 0]),
        Ok(BatteryReading {
            level: Some(72),
            status: Some("discharging".to_string()),
        })
    );
    assert_eq!(
        parse_unified_battery(&[0, 4, 1, 0]),
        Ok(BatteryReading {
            level: Some(50),
            status: Some("charging".to_string()),
        })
    );
    assert_eq!(
        BatteryFeature::Voltage.parse(&[0x0e, 0xe3, 0x80]),
        Ok(BatteryReading {
            level: estimate_battery_percentage(3811),
            status: Some("charging".to_string()),
        })
    );
    assert_eq!(
        BatteryFeature::AdcMeasurement.parse(&[0x0e, 0xe3, 0x01]),
        Ok(BatteryReading {
            level: Some(50),
            status: Some("discharging".to_string()),
        })
    );
    assert_eq!(
        BatteryFeature::Centurion.parse(&[96, 96, 2]),
        Ok(BatteryReading {
            level: Some(96),
            status: Some("charging".to_string()),
        })
    );
}

#[test]
fn rejects_unified_battery_data_with_an_unknown_status() {
    assert!(parse_unified_battery(&[1, 1, 0xff, 0]).is_err());
}

#[test]
fn parses_both_hidpp10_battery_registers() {
    assert_eq!(
        parse_hidpp10_battery(HIDPP10_BATTERY_CHARGE_REGISTER, &[83, 0, 0x50]),
        Ok(BatteryReading {
            level: Some(83),
            status: Some("charging".to_string()),
        })
    );
    assert_eq!(
        parse_hidpp10_battery(HIDPP10_BATTERY_STATUS_REGISTER, &[3, 0]),
        Ok(BatteryReading {
            level: Some(20),
            status: Some("discharging".to_string()),
        })
    );
}

#[test]
fn interpolates_battery_voltage() {
    assert_eq!(estimate_battery_percentage(4186), Some(100));
    assert_eq!(estimate_battery_percentage(3811), Some(50));
    assert_eq!(estimate_battery_percentage(3500), Some(0));
    assert_eq!(estimate_battery_percentage(3794), Some(45));
}

#[test]
fn replaces_only_the_hidpp_software_id() {
    assert_eq!(with_software_id(0x071e, 5), 0x0715);
    assert_eq!(with_software_id(0x000e, 0x0f), 0x000f);
}
