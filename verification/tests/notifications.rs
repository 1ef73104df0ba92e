use cosmic_widget::notifications::bus::{
    BodyMismatch, BusMessage, NotificationMessageParser, NotifyCall,
};
use cosmic_widget::notifications::downloads::{
    FastResume, TorrentInfo, content_target, safe_path_component,
};
use cosmic_widget::notifications::file_transfers::{
    FileTransfer, FileTransferState, TransferHints, from_hints,
};
use cosmic_widget::notifications::history::{
    CosmicNotificationHistory, apply_local_dismissal_suppression, discord_activation_action,
    preserve_notification_targets, reconcile_transfer_dismissals, reconcile_transfer_history,
    upsert_notification,
};
use cosmic_widget::notifications::ids::RemoteIdSet;
use cosmic_widget::notifications::monitor::{
    BusReaction, HistoryOutcome, NotificationBusEvent, NotificationMonitor,
};
use cosmic_widget::notifications::{
    Notification, NotificationIdentity, from_current_boot, is_unwanted_battery_discharge,
    persistable_notifications, remove_abandoned_transfers, restorable_notifications,
};

fn notification(summary: &str, timestamp: u64) -> Notification {
    Notification {
        id: None,
        server_owner: None,
        sender_owner: None,
        app_name: "Test".to_string(),
        summary: summary.to_string(),
        body: "Body".to_string(),
        timestamp,
        open_folder: None,
        activation_action: None,
        file_transfer: None,
    }
}

fn transfer_notification(state: FileTransferState, progress: u8) -> Notification {
    Notification {
        id: Some(15),
        server_owner: Some(":1.82".to_string()),
        app_name: "COSMIC Files".to_string(),
        file_transfer: Some(FileTransfer { state, progress }),
        ..notification("Copying files", 42)
    }
}

fn ids(pairs: &[(u32, &str)]) -> RemoteIdSet {
    let mut set = RemoteIdSet::new();
    for (id, owner) in pairs {
        set.insert(*id, owner.to_string());
    }
    set
}

#[test]
fn filters_solaar_battery_discharge_notifications_only() {
    let mut discharge = notification("MX Mechanical Mini", 1);
    discharge.app_name = "solaar".into();
    discharge.body = "Battery: empty (discharging)".into();
    assert!(is_unwanted_battery_discharge(&discharge));

    let mut charging = discharge.clone();
    charging.body = "Battery: 80% (charging)".into();
    assert!(!is_unwanted_battery_discharge(&charging));

    let mut other_app = discharge;
    other_app.app_name = "Power Manager".into();
    assert!(!is_unwanted_battery_discharge(&other_app));
}

#[test]
fn transient_transfer_survives_history_and_completes_in_place() {
    let running = transfer_notification(FileTransferState::Running, 50);
    let mut history = CosmicNotificationHistory {
        server_owner: ":1.82".to_string(),
        notifications: vec![notification("Other notification", 40)],
    };
    reconcile_transfer_history(std::slice::from_ref(&running), &mut history);
    assert_eq!(history.notifications[0], running);
    let completed = Notification {
        summary: "Copy complete".to_string(),
        timestamp: 55,
        file_transfer: None,
        ..running.clone()
    };
    history.notifications = vec![completed];
    reconcile_transfer_history(&[running], &mut history);
    assert_eq!(history.notifications.len(), 1);
    assert_eq!(history.notifications[0].summary, "Copy complete");
    assert_eq!(history.notifications[0].timestamp, 42);
    assert!(history.notifications[0].file_transfer.is_none());
}

#[test]
fn history_does_not_keep_unrelated_transients_or_old_daemon_transfers() {
    let running = transfer_notification(FileTransferState::Running, 50);
    let mut history = CosmicNotificationHistory {
        server_owner: ":1.99".to_string(),
        notifications: Vec::new(),
    };
    reconcile_transfer_history(
        &[running, notification("Unrelated transient", 42)],
        &mut history,
    );
    assert!(history.notifications.is_empty());
}

#[test]
fn transfer_dismissal_survives_transient_history_gap() {
    let mut transfers = ids(&[(15, ":1.82")]);
    let mut dismissed = ids(&[(15, ":1.82")]);
    let mut history = CosmicNotificationHistory {
        server_owner: ":1.82".to_string(),
        notifications: Vec::new(),
    };
    reconcile_transfer_dismissals(&history, &mut dismissed, &mut transfers);
    apply_local_dismissal_suppression(&mut history.notifications, &mut dismissed);
    assert!(
        transfers.contains(15, ":1.82"),
        "later progress must remain suppressed"
    );
    history
        .notifications
        .push(transfer_notification(FileTransferState::Completed, 100));
    reconcile_transfer_dismissals(&history, &mut dismissed, &mut transfers);
    apply_local_dismissal_suppression(&mut history.notifications, &mut dismissed);
    assert!(transfers.is_empty());
    assert!(
        history.notifications.is_empty(),
        "completion must remain dismissed"
    );
    assert!(dismissed.contains(15, ":1.82"));
}

#[test]
fn cosmic_history_refresh_preserves_resolved_open_folders() {
    let folder = "/mnt/Downloads".to_string();
    let mut existing = notification("Download completed", 42);
    existing.id = Some(15);
    existing.server_owner = Some(":1.82".to_string());
    existing.open_folder = Some(folder.clone());
    let mut refreshed = existing.clone();
    refreshed.open_folder = None;
    let mut rows = vec![refreshed];

    preserve_notification_targets(&[existing], &mut rows);

    assert_eq!(rows[0].open_folder, Some(folder));
}

#[test]
fn cosmic_history_refresh_preserves_notification_activation() {
    let mut existing = notification("Discord message", 42);
    existing.id = Some(15);
    existing.server_owner = Some(":1.82".to_string());
    existing.activation_action = Some("default".to_string());
    let mut refreshed = existing.clone();
    refreshed.activation_action = None;
    let mut rows = vec![refreshed];

    preserve_notification_targets(&[existing], &mut rows);

    assert_eq!(rows[0].activation_action.as_deref(), Some("default"));
}

#[test]
fn replacement_keeps_the_original_display_timestamp() {
    let mut existing = notification("Old content", 10);
    existing.id = Some(15);
    existing.server_owner = Some(":1.82".to_string());
    let mut notifications = vec![existing];
    let mut replacement = notification("Updated content", 20);
    replacement.id = Some(15);
    replacement.server_owner = Some(":1.82".to_string());

    upsert_notification(&mut notifications, replacement, 5);

    assert_eq!(notifications.len(), 1);
    assert_eq!(notifications[0].summary, "Updated content");
    assert_eq!(notifications[0].timestamp, 10);
}

#[test]
fn suppresses_local_dismissals_until_cosmic_removes_them() {
    let mut dismissed = ids(&[(15, ":1.82"), (99, ":1.12")]);
    let mut first = notification("Dismissed locally", 20);
    first.id = Some(15);
    first.server_owner = Some(":1.82".to_string());
    let mut second = notification("Still active", 10);
    second.id = Some(16);
    second.server_owner = Some(":1.82".to_string());
    let mut history = vec![first, second.clone()];

    apply_local_dismissal_suppression(&mut history, &mut dismissed);
    assert_eq!(history, vec![second.clone()]);
    assert_eq!(dismissed.len(), 1);
    assert!(dismissed.contains(15, ":1.82"));
    assert!(!dismissed.contains(99, ":1.12"));

    let mut next_history = vec![second];
    apply_local_dismissal_suppression(&mut next_history, &mut dismissed);
    assert!(dismissed.is_empty());
}

#[test]
fn rejects_torrent_names_that_can_escape_the_save_directory() {
    assert_eq!(safe_path_component("Folder").as_deref(), Some("Folder"));
    assert_eq!(safe_path_component("../Folder"), None);
    assert_eq!(safe_path_component("Folder/Child"), None);
    assert_eq!(safe_path_component("/tmp/Folder"), None);
}

#[test]
fn current_directory_and_empty_names_are_not_content_names() {
    assert_eq!(safe_path_component("."), None);
    assert_eq!(safe_path_component(".."), None);
    assert_eq!(safe_path_component(""), None);
    assert_eq!(safe_path_component("./Folder"), None);
    assert_eq!(safe_path_component("Folder/").as_deref(), Some("Folder/"));
}

#[test]
fn transfer_updates_replace_one_row_in_place() {
    let mut notifications = Vec::new();
    for (state, progress, timestamp) in [
        (FileTransferState::Running, 0, 42),
        (FileTransferState::Running, 50, 43),
        (FileTransferState::Completed, 100, 44),
    ] {
        let item = Notification {
            timestamp,
            summary: format!("{state:?}"),
            ..transfer_notification(state, progress)
        };
        upsert_notification(&mut notifications, item, 20);
        assert_eq!(notifications.len(), 1);
        assert_eq!(notifications[0].id, Some(15));
        assert_eq!(notifications[0].timestamp, 42);
        assert_eq!(
            notifications[0].file_transfer.as_ref().unwrap().progress,
            progress
        );
    }
    assert!(!notifications[0].file_transfer.as_ref().unwrap().is_active());
}

#[test]
fn new_notifications_go_first_and_the_list_is_capped() {
    let mut notifications = vec![notification("Older", 1), notification("Oldest", 0)];
    upsert_notification(&mut notifications, notification("Newest", 2), 2);
    assert_eq!(notifications.len(), 2);
    assert_eq!(notifications[0].summary, "Newest");
    assert_eq!(notifications[1].summary, "Older");
}

#[test]
fn sender_disconnect_removes_only_its_unfinished_transfers() {
    let mut running = transfer_notification(FileTransferState::Running, 50);
    running.sender_owner = Some(":1.9001".to_string());
    let completed = Notification {
        id: Some(16),
        file_transfer: Some(FileTransfer {
            state: FileTransferState::Completed,
            progress: 100,
        }),
        ..running.clone()
    };
    let another_sender = Notification {
        id: Some(17),
        sender_owner: Some(":1.9002".to_string()),
        ..running.clone()
    };
    let mut notifications = vec![running, completed.clone(), another_sender.clone()];
    remove_abandoned_transfers(&mut notifications, ":1.9001");
    assert_eq!(notifications, vec![completed, another_sender]);
}

#[test]
fn persisted_cache_keeps_completed_transfers_only() {
    let running = transfer_notification(FileTransferState::Running, 50);
    let completed = transfer_notification(FileTransferState::Completed, 100);
    let stored = persistable_notifications(&[running, completed.clone()]);
    assert_eq!(stored, vec![completed.clone()]);
    assert_eq!(restorable_notifications(&stored, 20), vec![completed]);
}

#[test]
fn restores_only_the_current_boot_and_honors_the_limit() {
    assert!(from_current_boot("boot-id", "boot-id"));
    assert!(from_current_boot("boot-id:unknown::1.82", "boot-id"));
    assert!(!from_current_boot("old-boot:unknown::1.12", "new-boot"));
    assert!(!from_current_boot("boot-idx", "boot-id"));
    let cached = vec![notification("One", 3), notification("Two", 2)];
    assert_eq!(restorable_notifications(&cached, 1), vec![cached[0].clone()]);
}

fn hints(operation: &str, state: &str, value: Option<i32>) -> TransferHints {
    TransferHints {
        desktop_entry: Some("com.system76.CosmicFiles".to_string()),
        operation: Some(operation.to_string()),
        state: Some(state.to_string()),
        value,
    }
}

#[test]
fn accepts_only_explicit_cosmic_files_copy_and_move_metadata() {
    for operation in ["copy", "move"] {
        let transfer = from_hints("COSMIC Files", &hints(operation, "running", Some(42))).unwrap();
        assert_eq!(transfer.progress, 42);
        assert!(transfer.is_active());
    }
    assert!(from_hints("Another file manager", &hints("copy", "running", Some(42))).is_none());
    assert!(from_hints("COSMIC Files", &hints("delete", "running", Some(42))).is_none());
    let mut missing_identity = hints("copy", "running", Some(42));
    missing_identity.desktop_entry = None;
    assert!(from_hints("COSMIC Files", &missing_identity).is_none());
    missing_identity.desktop_entry = Some("org.gnome.Nautilus".to_string());
    assert!(from_hints("COSMIC Files", &missing_identity).is_none());
}

#[test]
fn validates_progress_and_preserves_terminal_outcomes() {
    for progress in [-1, 101, i32::MAX] {
        assert!(from_hints("COSMIC Files", &hints("copy", "running", Some(progress))).is_none());
    }
    for (state, expected) in [
        ("paused", FileTransferState::Paused),
        ("completed", FileTransferState::Completed),
        ("cancelled", FileTransferState::Cancelled),
        ("failed", FileTransferState::Failed),
    ] {
        assert_eq!(
            from_hints("COSMIC Files", &hints("move", state, Some(70)))
                .unwrap()
                .state,
            expected
        );
    }
    assert!(from_hints("COSMIC Files", &hints("copy", "unknown", Some(50))).is_none());
    let invalid_type = hints("copy", "running", None);
    assert!(from_hints("COSMIC Files", &invalid_type).is_none());
}

#[test]
fn desktop_entry_may_carry_the_desktop_suffix() {
    let mut entry = hints("copy", "running", Some(42));
    entry.desktop_entry = Some("com.system76.CosmicFiles.desktop.desktop".to_string());
    assert!(from_hints("COSMIC Files", &entry).is_some());
}

#[test]
fn discord_notifications_activate_their_default_action() {
    let keys = vec!["default".to_string(), "Open".to_string()];
    assert_eq!(
        discord_activation_action("Friend (Direct Message)", Some(" com.discordapp.Discord.desktop "), &keys)
            .as_deref(),
        Some("default")
    );
    assert_eq!(discord_activation_action("Discord", None, &keys).as_deref(), Some("default"));
    assert_eq!(discord_activation_action("Firefox", Some("firefox"), &keys), None);
    assert_eq!(discord_activation_action("discord", None, &["Open".to_string()]), None);
}

#[test]
fn content_target_reveals_the_file_or_folder_of_a_torrent() {
    let single = TorrentInfo {
        name: "movie.mkv".to_string(),
        files: Vec::new(),
        has_file_tree: false,
    };
    let resume = FastResume {
        qbt_save_path: Some("/mnt/Downloads".to_string()),
        qbt_name: Some(String::new()),
        qbt_content_layout: None,
        save_path: Some("/ignored".to_string()),
    };
    let target = content_target(&single, &resume, "'movie.mkv' has finished downloading.").unwrap();
    assert_eq!(target.save_path, "/mnt/Downloads");
    assert_eq!(target.content_file.as_deref(), Some("movie.mkv"));
    assert_eq!(target.content_directory, None);
    assert!(content_target(&single, &resume, "something else finished").is_none());

    let multi = TorrentInfo {
        name: "Original Name Folder".to_string(),
        files: vec![vec!["file.txt".to_string()]],
        has_file_tree: false,
    };
    let renamed = FastResume {
        qbt_name: Some("Example Collection".to_string()),
        qbt_content_layout: Some("Subfolder".to_string()),
        ..resume.clone()
    };
    let target =
        content_target(&multi, &renamed, "'Example Collection' has finished downloading.").unwrap();
    assert_eq!(target.content_file, None);
    assert_eq!(target.content_directory.as_deref(), Some("Example Collection"));
    let flat = FastResume {
        qbt_content_layout: Some("nosubfolder".to_string()),
        ..renamed
    };
    assert!(!flat.uses_content_directory());
    assert_eq!(
        content_target(&multi, &flat, "'Example Collection' has finished downloading.")
            .unwrap()
            .content_directory,
        None
    );
}

fn remote(summary: &str, id: u32, app: &str) -> Notification {
    Notification {
        id: Some(id),
        server_owner: Some(":1.82".to_string()),
        app_name: app.to_string(),
        ..notification(summary, u64::from(id))
    }
}

#[test]
fn monitor_clears_and_remembers_dismissals() {
    let mut monitor = NotificationMonitor::new(
        vec![remote("A", 1, "Mail"), remote("B", 2, "Chat"), remote("C", 3, "Mail")],
        5,
    );
    let closed = monitor.clear_app("Mail");
    assert_eq!(closed, vec![(1, ":1.82".to_string()), (3, ":1.82".to_string())]);
    assert_eq!(monitor.get_notifications(), vec![remote("B", 2, "Chat")]);
    assert_eq!(
        monitor.apply_event(NotificationBusEvent::Upsert(remote("A again", 1, "Mail"))),
        BusReaction::RefreshHistory
    );
    let closed = monitor.remove_notification(&NotificationIdentity::Remote {
        id: 2,
        server_owner: ":1.82".to_string(),
    });
    assert_eq!(closed, vec![(2, ":1.82".to_string())]);
    assert!(monitor.get_notifications().is_empty());
    monitor.apply_event(NotificationBusEvent::Upsert(remote("D", 4, "Mail")));
    assert_eq!(monitor.clear(), vec![(4, ":1.82".to_string())]);
    assert!(monitor.get_notifications().is_empty());
}

#[test]
fn monitor_activates_only_rows_with_an_action() {
    let mut with_action = remote("Message", 7, "Discord");
    with_action.activation_action = Some("default".to_string());
    let monitor = NotificationMonitor::new(vec![with_action.clone(), remote("Plain", 8, "Mail")], 5);
    assert_eq!(
        monitor.activate_notification(&with_action.identity()),
        Some((7, ":1.82".to_string(), "default".to_string()))
    );
    assert_eq!(
        monitor.activate_notification(&NotificationIdentity::Remote {
            id: 8,
            server_owner: ":1.82".to_string()
        }),
        None
    );
    assert!(NotificationIdentity::Local {
        app_name: "Test".to_string(),
        timestamp: 3
    }
    .matches(&notification("Cached", 3)));
}

#[test]
fn monitor_follows_close_events_and_history() {
    let running = transfer_notification(FileTransferState::Running, 10);
    let mut monitor = NotificationMonitor::new(vec![running.clone(), remote("Other", 2, "Mail")], 5);
    assert_eq!(
        monitor.apply_event(NotificationBusEvent::Closed {
            id: 15,
            server_owner: ":1.82".to_string(),
            reason: 2
        }),
        BusReaction::PersistAndRefresh
    );
    assert_eq!(monitor.get_notifications(), vec![remote("Other", 2, "Mail")]);
    assert_eq!(
        monitor.apply_event(NotificationBusEvent::Upsert(running)),
        BusReaction::RefreshHistory
    );
    let existing = monitor.snapshot();
    let history = CosmicNotificationHistory {
        server_owner: ":1.82".to_string(),
        notifications: vec![
            remote("New", 3, "Mail"),
            transfer_notification(FileTransferState::Completed, 100),
        ],
    };
    assert_eq!(monitor.apply_history(&existing, history.clone()), HistoryOutcome::Replaced);
    assert_eq!(monitor.get_notifications(), vec![remote("New", 3, "Mail")]);
    assert_eq!(monitor.apply_history(&existing, history), HistoryOutcome::Retry);
}

#[test]
fn solaar_battery_reports_are_dropped_from_the_list() {
    let mut report = remote("MX Keys", 9, "Solaar");
    report.body = "Battery: 10% (discharging)".to_string();
    let mut monitor = NotificationMonitor::new(vec![report.clone()], 5);
    assert!(monitor.get_notifications().is_empty());
    assert_eq!(
        monitor.apply_event(NotificationBusEvent::Upsert(report)),
        BusReaction::Persist
    );
    assert!(monitor.snapshot().is_empty());
}

fn no_hints() -> TransferHints {
    TransferHints { desktop_entry: None, operation: None, state: None, value: None }
}

fn notify_exchange() -> (BusMessage, BusMessage) {
    let notify = BusMessage::Notify {
        sender: Some(":1.8323".to_string()),
        serial: 7,
        call: Some(NotifyCall {
            app_name: "COSMIC synchronization probe".to_string(),
            summary: "ID tracking probe".to_string(),
            body: "Capturing the assigned ID.\nWithout text parsing.".to_string(),
            actions: Vec::new(),
            hints: no_hints(),
        }),
    };
    let reply = BusMessage::MethodReturn {
        sender: Some(":1.82".to_string()),
        destination: Some(":1.8323".to_string()),
        reply_serial: Some(7),
        id: Some(15),
    };
    (notify, reply)
}

fn discord_notify_exchange() -> (BusMessage, BusMessage) {
    let notify = BusMessage::Notify {
        sender: Some(":1.9000".to_string()),
        serial: 3,
        call: Some(NotifyCall {
            app_name: "Friend (Direct Message)".to_string(),
            summary: "Friend".to_string(),
            body: "New message".to_string(),
            actions: vec!["default".to_string(), "Open".to_string()],
            hints: TransferHints {
                desktop_entry: Some("com.discordapp.Discord".to_string()),
                operation: None,
                state: None,
                value: None,
            },
        }),
    };
    let reply = BusMessage::MethodReturn {
        sender: Some(":1.82".to_string()),
        destination: Some(":1.9000".to_string()),
        reply_serial: Some(3),
        id: Some(16),
    };
    (notify, reply)
}

fn transfer_exchange(state: &str, progress: i32, serial: u32) -> (BusMessage, BusMessage) {
    let notify = BusMessage::Notify {
        sender: Some(":1.9001".to_string()),
        serial,
        call: Some(NotifyCall {
            app_name: "COSMIC Files".to_string(),
            summary: state.to_string(),
            body: "Transfer details".to_string(),
            actions: Vec::new(),
            hints: hints("copy", state, Some(progress)),
        }),
    };
    let reply = BusMessage::MethodReturn {
        sender: Some(":1.82".to_string()),
        destination: Some(":1.9001".to_string()),
        reply_serial: Some(serial),
        id: Some(15),
    };
    (notify, reply)
}

#[test]
fn file_transfer_progress_and_completion_replace_one_row() {
    let mut parser = NotificationMessageParser::new();
    let mut notifications = Vec::new();
    for (serial, (state, progress, timestamp)) in
        [("running", 0, 42), ("running", 50, 43), ("completed", 100, 44)].into_iter().enumerate()
    {
        let (call, reply) = transfer_exchange(state, progress, serial as u32 + 1);
        assert!(parser.push_message(call, timestamp).unwrap().is_none());
        let Some(NotificationBusEvent::Upsert(item)) = parser.push_message(reply, timestamp).unwrap()
        else {
            panic!("expected transfer update");
        };
        upsert_notification(&mut notifications, item, 20);
        assert_eq!(notifications.len(), 1);
        assert_eq!(notifications[0].id, Some(15));
        assert_eq!(notifications[0].timestamp, 42);
        assert_eq!(notifications[0].file_transfer.as_ref().unwrap().progress, progress as u8);
    }
    assert_eq!(notifications[0].summary, "completed");
    assert!(!notifications[0].file_transfer.as_ref().unwrap().is_active());
}

#[test]
fn correlates_notify_call_with_cosmic_assigned_id() {
    let mut parser = NotificationMessageParser::new();
    let (notify, reply) = notify_exchange();
    assert!(parser.push_message(notify, 42).unwrap().is_none());
    let Some(NotificationBusEvent::Upsert(notification)) = parser.push_message(reply, 43).unwrap()
    else {
        panic!("expected a notification event");
    };
    assert_eq!(notification.id, Some(15));
    assert_eq!(notification.server_owner.as_deref(), Some(":1.82"));
    assert_eq!(notification.app_name, "COSMIC synchronization probe");
    assert_eq!(notification.summary, "ID tracking probe");
    assert_eq!(notification.body, "Capturing the assigned ID.\nWithout text parsing.");
    assert_eq!(notification.timestamp, 42);
    assert!(notification.open_folder.is_none());
    assert!(notification.activation_action.is_none());
}

#[test]
fn captures_discord_default_action_from_desktop_entry() {
    let mut parser = NotificationMessageParser::new();
    let (notify, reply) = discord_notify_exchange();
    assert!(parser.push_message(notify, 42).unwrap().is_none());
    let Some(NotificationBusEvent::Upsert(notification)) = parser.push_message(reply, 43).unwrap()
    else {
        panic!("expected a notification event");
    };

    assert_eq!(notification.id, Some(16));
    assert_eq!(notification.app_name, "Friend (Direct Message)");
    assert_eq!(notification.activation_action.as_deref(), Some("default"));
}

#[test]
fn parses_cosmic_notification_closed_signal() {
    let mut parser = NotificationMessageParser::new();
    let closed = BusMessage::NotificationClosed {
        sender: Some(":1.82".to_string()),
        closed: Some((15, 2)),
    };
    let event = parser.push_message(closed, 42).unwrap();

    assert!(matches!(
        event,
        Some(NotificationBusEvent::Closed { id: 15, server_owner, .. }) if server_owner == ":1.82"
    ));
}

#[test]
fn discards_pending_notification_after_a_dbus_error() {
    let mut parser = NotificationMessageParser::new();
    let (notify, reply) = notify_exchange();
    let error = BusMessage::Error { destination: Some(":1.8323".to_string()), reply_serial: Some(7) };

    assert!(parser.push_message(notify, 42).unwrap().is_none());
    assert!(parser.is_pending(":1.8323", 7));
    assert!(parser.has_pending());
    assert!(parser.push_message(error, 43).unwrap().is_none());
    assert!(!parser.has_pending());
    assert!(parser.push_message(reply, 44).unwrap().is_none());
}

#[test]
fn notifications_without_a_summary_or_sender_are_not_held() {
    let mut parser = NotificationMessageParser::new();
    let empty = BusMessage::Notify {
        sender: Some(":1.5".to_string()),
        serial: 1,
        call: Some(NotifyCall {
            app_name: String::new(),
            summary: String::new(),
            body: "Body".to_string(),
            actions: Vec::new(),
            hints: no_hints(),
        }),
    };
    assert!(parser.push_message(empty, 1).unwrap().is_none());
    let anonymous = BusMessage::Notify { sender: None, serial: 2, call: None };
    assert!(parser.push_message(anonymous, 1).unwrap().is_none());
    assert!(!parser.has_pending());
}

#[test]
fn unnamed_applications_are_reported_as_system() {
    let mut parser = NotificationMessageParser::new();
    let notify = BusMessage::Notify {
        sender: Some(":1.5".to_string()),
        serial: 9,
        call: Some(NotifyCall {
            app_name: String::new(),
            summary: "Disk almost full".to_string(),
            body: String::new(),
            actions: vec!["default".to_string()],
            hints: no_hints(),
        }),
    };
    assert!(parser.push_message(notify, 5).unwrap().is_none());
    let reply = BusMessage::MethodReturn {
        sender: None,
        destination: Some(":1.5".to_string()),
        reply_serial: Some(9),
        id: Some(3),
    };
    let Some(NotificationBusEvent::Upsert(n)) = parser.push_message(reply, 6).unwrap() else {
        panic!("expected a notification event");
    };
    assert_eq!(n.app_name, "System");
    assert_eq!(n.sender_owner.as_deref(), Some(":1.5"));
    assert!(n.server_owner.is_none());
    assert!(n.activation_action.is_none());
}

#[test]
fn departed_senders_lose_their_held_calls() {
    let mut parser = NotificationMessageParser::new();
    let (notify, reply) = discord_notify_exchange();
    assert!(parser.push_message(notify, 42).unwrap().is_none());
    let gone = BusMessage::NameOwnerChanged(Some((
        ":1.9000".to_string(),
        ":1.9000".to_string(),
        String::new(),
    )));
    match parser.push_message(gone, 43).unwrap() {
        Some(NotificationBusEvent::SenderGone(name)) => assert_eq!(name, ":1.9000"),
        other => panic!("expected a departure, got {other:?}"),
    }
    assert!(!parser.has_pending());
    assert!(parser.push_message(reply, 44).unwrap().is_none());

    let renamed = BusMessage::NameOwnerChanged(Some((
        "org.example.App".to_string(),
        "org.example.App".to_string(),
        String::new(),
    )));
    assert!(parser.push_message(renamed, 45).unwrap().is_none());
}

#[test]
fn undecodable_bodies_are_reported() {
    let mut parser = NotificationMessageParser::new();
    let (notify, _) = notify_exchange();
    assert!(parser.push_message(notify, 42).unwrap().is_none());
    let bad_reply = BusMessage::MethodReturn {
        sender: Some(":1.82".to_string()),
        destination: Some(":1.8323".to_string()),
        reply_serial: Some(7),
        id: None,
    };
    assert_eq!(parser.push_message(bad_reply, 43), Err(BodyMismatch));
    assert!(!parser.has_pending());
    assert_eq!(parser.push_message(BusMessage::NameOwnerChanged(None), 44), Err(BodyMismatch));
    let bad_close = BusMessage::NotificationClosed { sender: Some(":1.82".to_string()), closed: None };
    assert_eq!(parser.push_message(bad_close, 45), Err(BodyMismatch));
    assert_eq!(parser.push_message(BusMessage::Other, 46), Ok(None));
}

#[test]
fn the_list_keeps_at_most_the_configured_number_of_notifications() {
    let mut monitor = NotificationMonitor::new(vec![remote("Newest", 3, "Mail"), remote("Older", 2, "Mail")], 1);
    assert_eq!(monitor.get_notifications(), vec![remote("Newest", 3, "Mail")]);
    let existing = monitor.snapshot();
    let history = CosmicNotificationHistory {
        server_owner: ":1.82".to_string(),
        notifications: vec![remote("First", 5, "Chat"), remote("Second", 4, "Chat")],
    };
    assert_eq!(monitor.apply_history(&existing, history), HistoryOutcome::Replaced);
    assert_eq!(monitor.get_notifications(), vec![remote("First", 5, "Chat")]);
    monitor.apply_event(NotificationBusEvent::Upsert(remote("Third", 6, "Chat")));
    assert_eq!(monitor.get_notifications(), vec![remote("Third", 6, "Chat")]);
}
