use std::time::Duration;

use cosmic_widget::config::{Config, WidgetSection};
use cosmic_widget::media::{MultiPlayerState, PlaybackStatus, PlayerId};
use cosmic_widget::overlay::{
    desired_surface_height, desired_surface_height_with_expansion, dismissal_to_start, BASE_SURFACE_HEIGHT,
    pending_playback_for, reconcile_expansions, reconcile_media_state, PendingPlayback,
};
use cosmic_widget::notifications::Notification;
use cosmic_widget::overlay::{
    BatteryBand, Marquee, MarqueeKind, NotificationBand, NotificationKey, UI_TICK_SETTLE_DELAY_NS,
    battery_band, battery_icon_name, compact_single_line, delay_until_next_tick,
    estimated_wrapped_lines, format_media_time, is_charging, notification_band,
    notification_display_rows, notification_extra_height, notification_group_size,
    notification_groups, notification_source, relative_notification_time, show_temperatures,
    show_utilization, ui_tick_interval, weather_icon_name,
};

fn settle() -> Duration {
    Duration::from_nanos(UI_TICK_SETTLE_DELAY_NS as u64)
}

#[test]
fn ui_ticks_follow_the_configured_rate_without_exceeding_one_second() {
    assert_eq!(Duration::from_millis(ui_tick_interval(100)), Duration::from_millis(250));
    assert_eq!(Duration::from_millis(ui_tick_interval(500)), Duration::from_millis(500));
    assert_eq!(Duration::from_millis(ui_tick_interval(5_000)), Duration::from_secs(1));
}

#[test]
fn ui_ticks_align_just_after_the_next_epoch_boundary() {
    let interval = Duration::from_secs(1);

    assert_eq!(
        delay_until_next_tick(Duration::from_millis(1_250).as_nanos(), interval.as_nanos()),
        (Duration::from_millis(750) + settle()).as_nanos(),
    );
    assert_eq!(
        delay_until_next_tick(Duration::from_secs(2).as_nanos(), interval.as_nanos()),
        (interval + settle()).as_nanos(),
    );
}

#[test]
fn a_zero_interval_ticks_every_nanosecond() {
    assert_eq!(delay_until_next_tick(17, 0), 1 + UI_TICK_SETTLE_DELAY_NS);
}

#[test]
fn battery_visuals_follow_level_and_charging_state() {
    assert_eq!(battery_band(82), BatteryBand::Success);
    assert_eq!(battery_band(24), BatteryBand::Warning);
    assert_eq!(battery_band(10), BatteryBand::Destructive);
    assert_eq!(
        battery_icon_name(82, false),
        "cosmic-applet-battery-level-80-symbolic"
    );
    assert_eq!(
        battery_icon_name(69, true),
        "cosmic-applet-battery-level-65-charging-symbolic"
    );
    assert!(is_charging(Some("recharging")));
    assert!(!is_charging(Some("discharging")));
}

#[test]
fn battery_icons_cover_the_whole_range() {
    assert_eq!(battery_icon_name(0, false), "cosmic-applet-battery-level-0-symbolic");
    assert_eq!(battery_icon_name(96, false), "cosmic-applet-battery-level-100-symbolic");
    assert_eq!(battery_icon_name(250, true), "cosmic-applet-battery-level-100-charging-symbolic");
    assert!(is_charging(Some("Charging")));
    assert!(!is_charging(None));
}

#[test]
fn notification_metadata_is_compact_and_stable() {
    assert_eq!(relative_notification_time(1_000, 1_000), "now");
    assert_eq!(relative_notification_time(1_000, 955), "45s ago");
    assert_eq!(relative_notification_time(4_700, 1_000), "1h ago");
    assert_eq!(relative_notification_time(90_000, 1_000), "1d ago");
    assert_eq!(
        compact_single_line("  Backup  finished\nnow  ", 30),
        "Backup finished now"
    );
    assert_eq!(compact_single_line("abcdefghij", 6), "abcde\u{2026}");
    assert_eq!(notification_band("System"), notification_band("System"));
    assert!(matches!(
        notification_band("System"),
        NotificationBand::Accent
            | NotificationBand::Success
            | NotificationBand::Warning
            | NotificationBand::Destructive
    ));
}

#[test]
fn relative_times_use_minutes_and_the_future_is_now() {
    assert_eq!(relative_notification_time(1_000, 880), "2m ago");
    assert_eq!(relative_notification_time(1_000, 2_000), "now");
    assert_eq!(notification_band(""), NotificationBand::Accent);
    assert_eq!(notification_band("a"), NotificationBand::Success);
    assert_eq!(compact_single_line("abc", 0), "\u{2026}");
}

#[test]
fn weather_codes_map_to_symbolic_icons() {
    assert_eq!(weather_icon_name("01n"), "weather-clear-night-symbolic");
    assert_eq!(weather_icon_name("02d"), "weather-few-clouds-symbolic");
    assert_eq!(weather_icon_name("04d"), "weather-overcast-symbolic");
    assert_eq!(weather_icon_name("13d"), "weather-snow-symbolic");
    assert_eq!(weather_icon_name("99x"), "weather-severe-alert-symbolic");
}

#[test]
fn media_times_use_two_digit_seconds() {
    assert_eq!(format_media_time(302_000), "5:02");
    assert_eq!(format_media_time(59_999), "0:59");
    assert_eq!(format_media_time(3_725_000), "62:05");
}

fn notification(app_name: &str, summary: &str, body: &str, timestamp: u64) -> Notification {
    Notification {
        id: None,
        server_owner: None,
        sender_owner: None,
        app_name: app_name.to_string(),
        summary: summary.to_string(),
        body: body.to_string(),
        timestamp,
        open_folder: None,
        activation_action: None,
        file_transfer: None,
    }
}

#[test]
fn notifications_group_by_application_in_order_of_appearance() {
    let list = vec![
        notification(" Mail ", "a", "", 1),
        notification("system", "Update ready", "", 2),
        notification("Mail", "b", "", 3),
        notification("", "Update ready", "", 4),
    ];
    assert_eq!(notification_source(&list[0]), "Mail");
    assert_eq!(notification_source(&list[1]), "Update ready");
    let groups = notification_groups(&list);
    assert_eq!(groups.len(), 2);
    assert_eq!(groups[0].source, "Mail");
    assert_eq!(groups[0].members, vec![0, 2]);
    assert_eq!(groups[1].source, "Update ready");
    assert_eq!(groups[1].members, vec![1, 3]);
    assert_eq!(notification_group_size(&list, "Mail"), 2);
    assert_eq!(notification_display_rows(&list, None), 2);
    assert_eq!(notification_display_rows(&list, Some("Mail")), 4);
    assert_eq!(notification_display_rows(&list, Some("Other")), 2);
}

#[test]
fn wrapped_lines_count_each_line_and_long_text() {
    assert_eq!(estimated_wrapped_lines("", 32), 1);
    assert_eq!(estimated_wrapped_lines("short", 32), 1);
    assert_eq!(estimated_wrapped_lines(&"x".repeat(33), 32), 2);
    assert_eq!(estimated_wrapped_lines("one\ntwo\n", 32), 2);
    assert_eq!(estimated_wrapped_lines("one\r\n\ntwo", 32), 3);
    let long = notification("App", "Title", &"word ".repeat(20), 1);
    assert_eq!(notification_extra_height(&long), 3 * 17);
    let blank = notification("App", " ", "", 1);
    assert_eq!(notification_extra_height(&blank), 0);
}

#[test]
fn keys_match_by_application_and_time() {
    let key = NotificationKey {
        app_name: "Mail".to_string(),
        timestamp: 5,
    };
    assert!(key.matches(&notification("Mail", "x", "", 5)));
    assert!(!key.matches(&notification("Mail", "x", "", 6)));
    assert!(!key.matches(&notification("Chat", "x", "", 5)));
}

#[test]
fn sections_show_when_any_of_their_metrics_is_enabled() {
    let mut config = Config::default();
    assert!(show_utilization(&config));
    assert!(!show_temperatures(&config));
    config.show_cpu = false;
    config.show_memory = false;
    assert!(!show_utilization(&config));
    config.show_gpu_temp = true;
    assert!(show_temperatures(&config));
    let marquee = Marquee::new("  Song  ", MarqueeKind::Title);
    assert_eq!(marquee.title, "Song");
    assert_eq!(marquee.kind, MarqueeKind::Title);
}

fn media_info(player_name: &str, artist: &str, album: &str) -> cosmic_widget::media::MediaInfo {
    cosmic_widget::media::MediaInfo {
        player_name: player_name.to_string(),
        title: String::new(),
        artist: artist.to_string(),
        album: album.to_string(),
        art_url: None,
        media_url: None,
        status: cosmic_widget::media::PlaybackStatus::Stopped,
        position: 0,
        duration: 0,
        can_play: false,
        can_pause: false,
        can_go_next: false,
        can_go_previous: false,
        can_seek: false,
    }
}

#[test]
fn media_metadata_is_prepared_for_iced() {
    let info = media_info("Firefox", "Deftones", "Saturday Night Wrist");
    assert_eq!(
        cosmic_widget::overlay::media_subtitle(&info),
        "Deftones - Saturday Night Wrist"
    );
    assert_eq!(cosmic_widget::overlay::format_media_time(302_000), "5:02");

    let long_album = media_info("", "", "Final Straw (20th Anniversary Edition)");
    assert_eq!(
        cosmic_widget::overlay::media_subtitle(&long_album),
        "Final Straw (20th Anniversary Edition)"
    );
}

#[test]
fn media_subtitle_falls_back_to_the_player_name() {
    let info = media_info("Firefox", "  ", "");
    assert_eq!(cosmic_widget::overlay::media_subtitle(&info), "Firefox");
    let artist_only = media_info("Firefox", " Artist  Name ", "");
    assert_eq!(cosmic_widget::overlay::media_subtitle(&artist_only), "Artist Name");
}

fn playing_media() -> cosmic_widget::media::MediaInfo {
    let mut info = media_info("Firefox", "Call Me Kevin", "");
    info.title = "Making Minecraft fun again".to_string();
    info.status = cosmic_widget::media::PlaybackStatus::Playing;
    info.position = 74_000;
    info.duration = 1_769_000;
    info
}

#[test]
fn media_reconciliation_preserves_immediate_user_choices() {
    let firefox = PlayerId::Mpris("org.mpris.MediaPlayer2.firefox".to_string());
    let cider = PlayerId::Cider;
    let mut state = MultiPlayerState {
        players: vec![(firefox, playing_media()), (cider.clone(), playing_media())],
        current_index: 0,
    };
    let now: u64 = 10_000;
    let mut pending = Some(PendingPlayback {
        player_id: cider,
        status: PlaybackStatus::Paused,
        expires_at: now + 1_000,
    });

    state.current_index = 1;
    reconcile_media_state(&mut state, &mut pending, now);

    assert_eq!(state.current_index, 1);
    assert_eq!(state.current_player().unwrap().1.status, PlaybackStatus::Paused);
}

#[test]
fn media_reconciliation_releases_expired_playback_state() {
    let now: u64 = 10_000;
    let mut state = MultiPlayerState {
        players: vec![(PlayerId::Cider, playing_media())],
        current_index: 0,
    };
    let mut pending = Some(PendingPlayback {
        player_id: PlayerId::Cider,
        status: PlaybackStatus::Paused,
        expires_at: now,
    });

    reconcile_media_state(&mut state, &mut pending, now);

    assert!(pending.is_none());
    assert_eq!(state.current_player().unwrap().1.status, PlaybackStatus::Playing);
}

#[test]
fn play_pause_shows_the_opposite_status_for_a_grace_period() {
    let mut paused = playing_media();
    paused.status = PlaybackStatus::Paused;
    let state = MultiPlayerState {
        players: vec![(PlayerId::Cider, playing_media()), (PlayerId::Emby("s".to_string()), paused)],
        current_index: 1,
    };
    let pending = pending_playback_for(&state, 5_000).unwrap();
    assert_eq!(pending.player_id, PlayerId::Emby("s".to_string()));
    assert_eq!(pending.status, PlaybackStatus::Playing);
    assert_eq!(pending.expires_at, 7_000);
    let empty = MultiPlayerState::new();
    assert!(pending_playback_for(&empty, 5_000).is_none());
}

#[test]
fn expansions_collapse_when_their_notifications_leave() {
    let notifications = vec![
        notification("Mail", "One", "", 1),
        notification("Mail", "Two", "", 2),
        notification("Chat", "Hi", "", 3),
    ];
    let mut expanded = Some(NotificationKey { app_name: "Chat".to_string(), timestamp: 3 });
    let mut group = Some("Mail".to_string());
    assert_eq!(reconcile_expansions(&notifications, &mut expanded, &mut group), (false, false));
    assert!(expanded.is_some() && group.is_some());

    let fewer = vec![notification("Mail", "One", "", 1)];
    assert_eq!(reconcile_expansions(&fewer, &mut expanded, &mut group), (true, true));
    assert!(expanded.is_none() && group.is_none());
}

fn update_notification() -> Notification {
    notification("System", "Package manager updated", "System is up to date.", 1_000)
}

#[test]
fn surface_height_tracks_visible_storage_rows() {
    let mut config = Config::default();
    config.show_storage = true;
    config.section_order = vec![WidgetSection::Storage];
    let media = MultiPlayerState::new();

    let empty_height = desired_surface_height(&config, 0, 0, false, &[], &media);

    assert!(empty_height > BASE_SURFACE_HEIGHT);
    assert_eq!(desired_surface_height(&config, 3, 0, false, &[], &media), 780);
}

#[test]
fn surface_height_tracks_visible_device_rows() {
    let mut config = Config::default();
    config.show_storage = false;
    config.show_battery = true;
    config.section_order = vec![WidgetSection::Battery];
    let media = MultiPlayerState::new();

    let empty_height = desired_surface_height(&config, 0, 0, false, &[], &media);

    assert!(empty_height > BASE_SURFACE_HEIGHT);
    assert_eq!(desired_surface_height(&config, 0, 3, false, &[], &media), 709);
}

#[test]
fn surface_height_tracks_loaded_weather_content() {
    let mut config = Config::default();
    config.show_storage = false;
    config.show_weather = true;
    config.section_order = vec![WidgetSection::Weather];
    let media = MultiPlayerState::new();

    let loading_height = desired_surface_height(&config, 0, 0, false, &[], &media);

    assert!(loading_height > BASE_SURFACE_HEIGHT);
    assert_eq!(desired_surface_height(&config, 0, 0, true, &[], &media), 710);
}

#[test]
fn surface_height_groups_notifications_and_caps_the_viewport() {
    let mut config = Config::default();
    config.show_storage = false;
    config.show_notifications = true;
    config.section_order = vec![WidgetSection::Notifications];
    let media = MultiPlayerState::new();

    let empty_height = desired_surface_height(&config, 0, 0, false, &[], &media);
    let notifications = vec![update_notification(), update_notification(), update_notification()];

    assert!(empty_height > BASE_SURFACE_HEIGHT);
    assert_eq!(desired_surface_height(&config, 0, 0, false, &notifications, &media), 668);
    assert_eq!(
        desired_surface_height_with_expansion(
            &config,
            0,
            0,
            false,
            &notifications,
            &media,
            None,
            Some("Package manager updated")
        ),
        809
    );

    let notifications: Vec<Notification> = (0..5)
        .map(|index| {
            let mut item = update_notification();
            item.app_name = format!("App {index}");
            item
        })
        .collect();
    assert_eq!(desired_surface_height(&config, 0, 0, false, &notifications, &media), 809);
}

#[test]
fn surface_height_grows_only_after_notification_selection() {
    let mut config = Config::default();
    config.show_storage = false;
    config.show_notifications = true;
    config.section_order = vec![WidgetSection::Notifications];
    let media = MultiPlayerState::new();
    let mut item = update_notification();
    item.body = "A complete notification body that wraps across several lines so all of its content remains readable when expanded.".to_string();
    let selected = NotificationKey { app_name: item.app_name.clone(), timestamp: item.timestamp };
    let notifications = vec![item];
    let compact_height = desired_surface_height(&config, 0, 0, false, &notifications, &media);

    assert!(
        desired_surface_height_with_expansion(
            &config,
            0,
            0,
            false,
            &notifications,
            &media,
            Some(&selected),
            None
        ) > compact_height
    );
}

#[test]
fn surface_height_tracks_active_media_content() {
    let mut config = Config::default();
    config.show_storage = false;
    config.show_media = true;
    config.section_order = vec![WidgetSection::Media];
    let mut media = MultiPlayerState::new();

    let empty_height = desired_surface_height(&config, 0, 0, false, &[], &media);
    media.players.push((PlayerId::Mpris("org.mpris.MediaPlayer2.firefox".to_string()), playing_media()));

    assert_eq!(empty_height, 639);
    assert_eq!(desired_surface_height(&config, 0, 0, false, &[], &media), 804);

    media.players.push((PlayerId::Mpris("org.mpris.MediaPlayer2.cider".to_string()), playing_media()));
    assert_eq!(desired_surface_height(&config, 0, 0, false, &[], &media), 804);
}

#[test]
fn a_selected_notification_in_a_collapsed_group_adds_no_lines() {
    let mut config = Config::default();
    config.show_storage = false;
    config.show_notifications = true;
    config.section_order = vec![WidgetSection::Notifications];
    let media = MultiPlayerState::new();
    let mut first = update_notification();
    first.body = "A complete notification body that wraps across several lines so all of its content remains readable when expanded.".to_string();
    let second = notification("System", "Package manager updated", "Another", 2_000);
    let selected = NotificationKey { app_name: first.app_name.clone(), timestamp: first.timestamp };
    let notifications = vec![first, second];

    let compact = desired_surface_height(&config, 0, 0, false, &notifications, &media);
    assert_eq!(compact, 668);
    assert_eq!(
        desired_surface_height_with_expansion(&config, 0, 0, false, &notifications, &media, Some(&selected), None),
        compact
    );
    let expanded = desired_surface_height_with_expansion(
        &config,
        0,
        0,
        false,
        &notifications,
        &media,
        Some(&selected),
        Some("Package manager updated"),
    );
    assert!(expanded > 668 + 94);
}

#[test]
fn a_dismissal_starts_once_and_only_for_a_shown_notification() {
    let shown = vec![update_notification(), notification("Mail", "Inbox", "New mail", 2_000)];
    let key = NotificationKey { app_name: "Mail".to_string(), timestamp: 2_000 };
    assert_eq!(dismissal_to_start(&[], &shown, &key).as_deref(), Some("Mail"));
    let system = NotificationKey { app_name: "System".to_string(), timestamp: 1_000 };
    assert_eq!(dismissal_to_start(&[], &shown, &system).as_deref(), Some("Package manager updated"));
    let running = vec![NotificationKey { app_name: "Mail".to_string(), timestamp: 2_000 }];
    assert_eq!(dismissal_to_start(&running, &shown, &key), None);
    let gone = NotificationKey { app_name: "Mail".to_string(), timestamp: 9 };
    assert_eq!(dismissal_to_start(&[], &shown, &gone), None);
}
