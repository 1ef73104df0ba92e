use cosmic_widget::config::{Config, TemperatureGaugeStyle, WidgetSection};

#[test]
fn arc_is_the_backward_compatible_temperature_style() {
    assert_eq!(
        Config::default().temperature_gauge_style,
        TemperatureGaugeStyle::Arc
    );
}

#[test]
fn default_position_matches_the_installed_layout() {
    let config = Config::default();

    assert_eq!((config.widget_x, config.widget_y), (7260, 50));
    assert_eq!(
        (config.default_widget_x, config.default_widget_y),
        (7260, 50)
    );
}

#[test]
fn captures_and_restores_the_installed_position() {
    let mut config = Config::default();
    config.widget_x = 7260;
    config.widget_y = 50;

    assert!(config.ensure_position_defaults());
    assert!(!config.ensure_position_defaults());

    config.widget_x = 100;
    config.widget_y = 200;
    config.widget_movable = true;
    config.reset_widget_position();

    assert_eq!((config.widget_x, config.widget_y), (7260, 50));
    assert!(!config.widget_movable);
}

#[test]
fn adds_missing_sections_without_reordering_existing_sections() {
    let mut config = Config::default();
    config.section_order = vec![
        WidgetSection::Weather,
        WidgetSection::Utilization,
        WidgetSection::Storage,
    ];

    assert!(config.ensure_all_sections());
    let existing = config
        .section_order
        .iter()
        .copied()
        .filter(|section| {
            matches!(
                section,
                WidgetSection::Weather | WidgetSection::Utilization | WidgetSection::Storage
            )
        })
        .collect::<Vec<_>>();
    assert_eq!(
        existing,
        vec![
            WidgetSection::Weather,
            WidgetSection::Utilization,
            WidgetSection::Storage
        ]
    );
    assert!(
        Config::ALL_SECTIONS
            .iter()
            .all(|section| config.section_order.contains(section))
    );
    assert!(!config.ensure_all_sections());
}

#[test]
fn missing_sections_go_after_their_nearest_canonical_predecessor() {
    let mut config = Config::default();
    config.section_order = vec![WidgetSection::Weather, WidgetSection::Utilization];
    assert!(config.ensure_all_sections());
    assert_eq!(
        config.section_order,
        vec![
            WidgetSection::Weather,
            WidgetSection::Notifications,
            WidgetSection::Media,
            WidgetSection::Utilization,
            WidgetSection::Network,
            WidgetSection::DiskIo,
            WidgetSection::Temperatures,
            WidgetSection::Storage,
            WidgetSection::Battery,
        ]
    );
}

#[test]
fn an_empty_order_becomes_the_canonical_one() {
    let mut config = Config::default();
    config.section_order = Vec::new();
    assert!(config.ensure_all_sections());
    assert_eq!(config.section_order, Config::ALL_SECTIONS.to_vec());
    assert!(!Config::default().ensure_all_sections());
}

#[test]
fn labels_name_each_section() {
    assert_eq!(WidgetSection::DiskIo.label(), "Disk I/O");
    assert_eq!(WidgetSection::Battery.label(), "Devices");
    assert_eq!(WidgetSection::Media.label(), "Now Playing");
    assert_eq!(TemperatureGaugeStyle::default(), TemperatureGaugeStyle::Arc);
}

#[test]
fn a_captured_position_is_not_recaptured() {
    let mut config = Config::default();
    config.position_defaults_initialized = true;
    config.widget_x = 3;
    assert!(!config.ensure_position_defaults());
    assert_eq!(config.default_widget_x, 7260);
}
