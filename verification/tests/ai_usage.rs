use cosmic_widget::ai_usage::claude::{
    credentials_usable, reply_window, reset_time, retry_after_secs, retry_delay, seconds_until,
    usage_report, usage_window_ids, CredentialStamp, FetchError, ResetField, UsageReader,
};
use cosmic_widget::ai_usage::codex::{
    merge_record, quota_record, snapshot_from_records, token_count_lines, window_label, FileStamp,
    QuotaRecord, RateLimits, RateWindow, SessionReader, STALE_AFTER_SECS,
};
use cosmic_widget::ai_usage::{UsageSnapshot, UsageStatus};
use cosmic_widget::battery::store::KeyedStore;

const NOW: i64 = 1_790_280_000;

/// The windows of a reply, each as its id, utilization and reset field.
fn parse(reply: &[(&str, f64, ResetField)], now: i64) -> Option<UsageSnapshot<f32>> {
    let mut windows = Vec::new();
    for id in usage_window_ids() {
        let Some((_, used, resets)) = reply.iter().find(|(key, _, _)| *key == id) else {
            continue;
        };
        let ok = used.is_finite() && (0.0..=100.0).contains(used);
        if let Some(read) = reply_window(id, ok, (100.0 - used) as f32, resets.clone()) {
            windows.push(read);
        }
    }
    usage_report(windows, now)
}

fn report(now: i64) -> UsageSnapshot<f32> {
    parse(
        &[
            ("five_hour", 8.0, ResetField::Text("2026-09-25T03:10:00.264624+00:00".to_string())),
            ("seven_day", 1.0, ResetField::Text("2026-09-29T18:00:00.264647+00:00".to_string())),
        ],
        now,
    )
    .unwrap()
}

#[test]
fn ignores_unknown_spend_fields_and_invalid_windows() {
    let snapshot = parse(
        &[
            ("five_hour", 101.0, ResetField::Absent),
            ("seven_day", -1.0, ResetField::Absent),
            ("seven_day_opus", 20.0, ResetField::Text("invalid".to_string())),
            ("seven_day_sonnet", 12.5, ResetField::Null),
            ("extra_usage", 99.0, ResetField::Absent),
        ],
        NOW,
    )
    .unwrap();
    assert_eq!(snapshot.windows.len(), 1);
    assert_eq!(snapshot.windows[0].label, "Sonnet \u{b7} Weekly");
    assert_eq!(snapshot.windows[0].remaining_percent, 87.5);
    assert_eq!(snapshot.windows[0].resets_at, None);
    assert!(parse(&[], NOW).is_none());
}

#[test]
fn reply_windows_need_a_known_id_and_a_valid_reset_time() {
    assert_eq!(reset_time("2026-09-25T03:10:00+00:00"), Some(1_790_305_800));
    assert_eq!(reset_time("1970-01-01T00:00:00Z"), None);
    assert_eq!(reset_time("soon"), None);
    assert_eq!(
        reply_window("seven_day_oauth_apps", true, 5u8, ResetField::Null),
        Some(("seven_day_oauth_apps".to_string(), "OAuth apps \u{b7} Weekly".to_string(), 5, None))
    );
    assert_eq!(reply_window("seven_day", true, 5u8, ResetField::Other), None);
    assert_eq!(reply_window("seven_day", false, 5u8, ResetField::Absent), None);
    assert_eq!(reply_window("monthly", true, 5u8, ResetField::Absent), None);
    assert_eq!(usage_window_ids().len(), 6);
}

fn stamp(length: u64) -> CredentialStamp {
    CredentialStamp {
        modified_secs: NOW - 60,
        modified_nanos: 0,
        length,
    }
}

fn poll(
    reader: &mut UsageReader<f32>,
    credentials: Option<CredentialStamp>,
    now: i64,
    fetch: impl FnOnce() -> Result<UsageSnapshot<f32>, FetchError>,
    stamp_after: Option<CredentialStamp>,
) -> UsageSnapshot<f32> {
    if reader.begin_refresh(credentials, now) {
        let result = fetch();
        reader.complete_fetch(result, stamp_after, now);
    }
    reader.finish(now)
}

#[test]
fn parses_actual_quota_and_reset_times() {
    let snapshot = report(NOW);
    assert_eq!(snapshot.status, UsageStatus::Available);
    assert_eq!(snapshot.windows.len(), 2);
    assert_eq!(snapshot.windows[0].remaining_percent, 92.0);
    assert_eq!(snapshot.windows[1].remaining_percent, 99.0);
    assert_eq!(snapshot.windows[0].resets_at, Some(1_790_305_800));
    assert_eq!(snapshot.updated_at, Some(NOW));
}

#[test]
fn never_assumes_expired_window_is_replenished() {
    let snapshot = usage_report(
        vec![(
            "five_hour".to_string(),
            "5-hour".to_string(),
            0.0f32,
            Some(1_790_208_000),
        )],
        NOW,
    )
    .unwrap();
    assert_eq!(snapshot.status, UsageStatus::Stale);
    assert_eq!(snapshot.windows[0].remaining_percent, 0.0);
    assert!(usage_report::<f32>(Vec::new(), NOW).is_none());
}

#[test]
fn cached_quota_polling_and_failures_do_not_fabricate_fresh_values() {
    let credentials = Some(stamp(100));
    let mut reader: UsageReader<f32> = UsageReader::new();
    poll(&mut reader, credentials, NOW, || Ok(report(NOW)), credentials);
    let cached = poll(
        &mut reader,
        credentials,
        NOW + 30,
        || panic!("too soon to poll"),
        credentials,
    );
    assert_eq!(cached.updated_at, Some(NOW));
    let stale = poll(
        &mut reader,
        credentials,
        NOW + 300,
        || {
            Err(FetchError::Retry {
                after_secs: Some(900),
            })
        },
        credentials,
    );
    assert_eq!(stale.status, UsageStatus::Stale);
    assert_eq!(stale.windows[0].remaining_percent, 92.0);
    assert_eq!(stale.updated_at, Some(NOW));
    poll(
        &mut reader,
        credentials,
        NOW + 1100,
        || panic!("Retry-After ignored"),
        credentials,
    );
}

#[test]
fn expired_credentials_clear_data_without_sending_request() {
    let scopes = vec!["user:profile".to_string()];
    let credentials = Some(stamp(100));
    let mut reader: UsageReader<f32> = UsageReader::new();
    assert!(credentials_usable("test-access-token", (NOW + 3600) * 1000, &scopes, NOW));
    poll(&mut reader, credentials, NOW, || Ok(report(NOW)), credentials);
    assert!(!credentials_usable(
        "test-access-token",
        (NOW + 3600) * 1000,
        &scopes,
        NOW + 3600
    ));
    let snapshot = poll(
        &mut reader,
        None,
        NOW + 3600,
        || panic!("expired credentials must not be sent"),
        None,
    );
    assert_eq!(snapshot.status, UsageStatus::SignInRequired);
    assert!(snapshot.windows.is_empty());
    assert!(snapshot.updated_at.is_none());
}

#[test]
fn credentials_need_a_token_and_profile_access() {
    let profile = vec!["user:inference".to_string(), "user:profile".to_string()];
    let other = vec!["user:inference".to_string()];
    let expires = (NOW + 10) * 1000;
    assert!(credentials_usable("token", expires, &profile, NOW));
    assert!(!credentials_usable("", expires, &profile, NOW));
    assert!(!credentials_usable("token", expires, &other, NOW));
    assert!(credentials_usable("token", -1500, &profile, -2));
    assert!(!credentials_usable("token", -1500, &profile, -1));
}

#[test]
fn unauthorized_session_waits_for_new_credentials_and_clears_old_account() {
    let first = Some(stamp(100));
    let mut reader: UsageReader<f32> = UsageReader::new();
    poll(&mut reader, first, NOW, || Ok(report(NOW)), first);
    let snapshot = poll(
        &mut reader,
        first,
        NOW + 300,
        || Err(FetchError::SignInRequired),
        first,
    );
    assert_eq!(snapshot.status, UsageStatus::SignInRequired);
    assert!(snapshot.windows.is_empty());
    poll(
        &mut reader,
        first,
        NOW + 600,
        || panic!("same rejected token"),
        first,
    );
    let second = Some(stamp(140));
    let snapshot = poll(
        &mut reader,
        second,
        NOW + 630,
        || Err(FetchError::Retry { after_secs: None }),
        second,
    );
    assert_eq!(snapshot.status, UsageStatus::Unavailable);
    assert!(snapshot.windows.is_empty());
}

#[test]
fn account_change_during_request_discards_in_flight_response() {
    let first = Some(stamp(100));
    let second = Some(stamp(160));
    let mut reader: UsageReader<f32> = UsageReader::new();
    let snapshot = poll(&mut reader, first, NOW, || Ok(report(NOW)), second);
    assert_eq!(snapshot.status, UsageStatus::Loading);
    assert!(snapshot.windows.is_empty());
    let mut fetched = false;
    let snapshot = poll(
        &mut reader,
        second,
        NOW + 30,
        || {
            fetched = true;
            Err(FetchError::SignInRequired)
        },
        second,
    );
    assert!(fetched);
    assert_eq!(snapshot.status, UsageStatus::SignInRequired);
}

#[test]
fn windows_age_into_staleness() {
    let credentials = Some(stamp(100));
    let mut reader: UsageReader<f32> = UsageReader::new();
    let fresh = poll(&mut reader, credentials, NOW, || Ok(report(NOW)), credentials);
    assert_eq!(fresh.status, UsageStatus::Available);
    let aged = reader.finish(NOW + 901);
    assert_eq!(aged.status, UsageStatus::Stale);
    assert!(aged.windows.iter().all(|w| w.is_stale));
    assert_eq!(aged.windows[1].remaining_percent, 99.0);
}

#[test]
fn retry_backoff_and_input_sizes_are_bounded() {
    assert_eq!(retry_delay(1, None), 300);
    assert_eq!(retry_delay(2, None), 600);
    assert_eq!(retry_delay(100, None), 3600);
    assert_eq!(retry_delay(1, Some(7200)), 7200);
    assert_eq!(retry_delay(100, Some(i64::MAX)), i64::MAX);
    assert_eq!(retry_delay(1, Some(-3)), 300);
    assert_eq!(retry_after_secs("600", NOW), Some(600));
    assert_eq!(retry_after_secs("not a date", NOW), None);
}

#[test]
fn retry_after_accepts_padded_numbers_and_dates() {
    assert_eq!(retry_after_secs(" 120 ", NOW), Some(120));
    assert_eq!(retry_after_secs("-5", NOW), Some(-5));
    assert_eq!(
        retry_after_secs("Thu, 01 Jan 1970 00:10:00 +0000", 0),
        Some(600)
    );
    assert_eq!(seconds_until(Some(i64::MIN), 1), Some(i64::MIN));
    assert_eq!(seconds_until(None, 1), None);
}

fn weekly(limit_id: &str, used: f64, updated_at: i64) -> QuotaRecord<f64> {
    QuotaRecord {
        updated_at,
        recorded_at_millis: updated_at * 1000,
        limits: RateLimits {
            limit_id: limit_id.to_string(),
            limit_name: None,
            primary: Some(RateWindow {
                used_percent: used,
                window_minutes: Some(10080),
                resets_at: Some(NOW + 86400),
            }),
            secondary: None,
        },
    }
}

fn remaining(used: &f64) -> f32 {
    (100.0 - *used) as f32
}

#[test]
fn real_weekly_primary_is_seventeen_percent_remaining() {
    let record = weekly("codex", 83.0, NOW);
    let snapshot = snapshot_from_records(vec![&record], NOW, remaining);
    assert_eq!(snapshot.status, UsageStatus::Available);
    assert_eq!(snapshot.updated_at, Some(NOW));
    assert_eq!(snapshot.windows.len(), 1);
    assert_eq!(snapshot.windows[0].label, "Weekly");
    assert_eq!(snapshot.windows[0].remaining_percent, 17.0);
    assert_eq!(snapshot.windows[0].resets_at, Some(NOW + 86400));
}

#[test]
fn separate_buckets_keep_their_identity_and_latest_timestamp() {
    let mut latest: KeyedStore<QuotaRecord<f64>> = KeyedStore::new();
    merge_record(&mut latest, weekly("codex", 83.0, NOW));
    let mut extra = weekly("codex_model_specific", 25.5, NOW + 10);
    extra.limits.limit_name = Some("Special model".to_string());
    extra.limits.primary.as_mut().unwrap().window_minutes = Some(300);
    merge_record(&mut latest, extra);
    merge_record(&mut latest, weekly("codex", 12.0, NOW - 5));
    let snapshot = snapshot_from_records(latest.values(), NOW + 10, remaining);
    assert_eq!(snapshot.windows.len(), 2);
    assert_eq!(snapshot.windows[0].limit_id, "codex");
    assert_eq!(snapshot.windows[0].remaining_percent, 17.0);
    assert_eq!(snapshot.windows[1].limit_id, "codex_model_specific");
    assert_eq!(snapshot.windows[1].label, "Special model · 5 hours");
    assert_eq!(snapshot.windows[1].remaining_percent, 74.5);
    assert_eq!(snapshot.updated_at, Some(NOW + 10));
}

#[test]
fn subsecond_response_order_is_preserved_across_sessions() {
    let mut latest: KeyedStore<QuotaRecord<f64>> = KeyedStore::new();
    let mut newer = weekly("codex", 83.0, NOW);
    newer.recorded_at_millis = NOW * 1000 + 900;
    let mut older = weekly("codex", 70.0, NOW);
    older.recorded_at_millis = NOW * 1000 + 100;
    merge_record(&mut latest, newer);
    merge_record(&mut latest, older);
    let snapshot = snapshot_from_records(latest.values(), NOW, remaining);
    assert_eq!(snapshot.windows[0].remaining_percent, 17.0);
}

#[test]
fn specialized_bucket_is_not_substituted_for_general_quota() {
    let record = weekly("some_other_bucket", 95.0, NOW);
    let snapshot = snapshot_from_records(vec![&record], NOW, remaining);
    assert_eq!(snapshot.windows[0].limit_id, "some_other_bucket");
    assert_eq!(snapshot.windows[0].label, "some_other_bucket · Weekly");
}

#[test]
fn old_or_expired_snapshot_stays_stale_without_inventing_refill() {
    let record = weekly("codex", 83.0, NOW);
    let old = snapshot_from_records(vec![&record], NOW + STALE_AFTER_SECS + 1, remaining);
    assert_eq!(old.status, UsageStatus::Stale);
    assert!(old.windows[0].is_stale);
    assert_eq!(old.windows[0].remaining_percent, 17.0);
    let expired = snapshot_from_records(vec![&record], NOW + 86400, remaining);
    assert!(expired.windows[0].is_stale);
    assert_eq!(expired.windows[0].remaining_percent, 17.0);

    let mut recently_reset = weekly("codex", 83.0, NOW);
    recently_reset.limits.primary.as_mut().unwrap().resets_at = Some(NOW - 1);
    assert_eq!(
        snapshot_from_records(vec![&recently_reset], NOW, remaining).status,
        UsageStatus::Stale
    );
}

#[test]
fn old_format_supports_independent_five_hour_and_weekly_windows() {
    let mut record = weekly("codex", 20.0, NOW);
    record.limits.secondary = Some(RateWindow {
        used_percent: 20.0,
        window_minutes: Some(10080),
        resets_at: Some(NOW + 86400),
    });
    record.limits.primary = Some(RateWindow {
        used_percent: 40.0,
        window_minutes: Some(300),
        resets_at: Some(NOW + 86400),
    });
    let snapshot = snapshot_from_records(vec![&record], NOW, remaining);
    assert_eq!(snapshot.windows.len(), 2);
    assert_eq!(snapshot.windows[0].label, "5 hours");
    assert_eq!(snapshot.windows[0].remaining_percent, 60.0);
    assert_eq!(snapshot.windows[1].label, "Weekly");
    assert_eq!(snapshot.windows[1].remaining_percent, 80.0);
}

#[test]
fn no_records_give_an_unavailable_report() {
    let snapshot = snapshot_from_records::<f64, f32, _>(Vec::new(), NOW, remaining);
    assert_eq!(snapshot.status, UsageStatus::Unavailable);
    assert!(snapshot.windows.is_empty());
    assert_eq!(snapshot.updated_at, None);
}

fn limits(limit_id: &str) -> RateLimits<f64> {
    weekly(limit_id, 83.0, NOW).limits
}

#[test]
fn malformed_and_incomplete_tail_preserves_latest_valid_record() {
    let mut bytes = b"truncated previous entry\n{broken json}\n".to_vec();
    bytes.extend(b"{\"type\":\"event_msg\",\"payload\":{\"type\":\"token_count\"}}\n");
    bytes.extend(b"{\"type\":\"event_msg\",\"payload\":{\"type\":\"token_count\"");
    let lines = token_count_lines(&bytes);
    assert_eq!(lines.len(), 2);
    assert!(lines[1].ends_with(b"\"token_count\""));
    let record = quota_record(
        "event_msg",
        "token_count",
        Some(limits("codex")),
        true,
        true,
        "2026-09-24T12:00:00.900Z",
    )
    .unwrap();
    assert_eq!(record.recorded_at_millis % 1000, 900);
    assert_eq!(record.limits.primary.as_ref().unwrap().used_percent, 83.0);
}

#[test]
fn invalid_percentage_or_unrelated_event_cannot_become_quota() {
    let time = "2026-09-24T12:00:00Z";
    assert!(quota_record("event_msg", "token_count", Some(limits("codex")), false, true, time).is_none());
    assert!(quota_record("response_item", "token_count", Some(limits("codex")), true, true, time).is_none());
    assert!(quota_record::<f64>("event_msg", "token_count", None, true, true, time).is_none());
    assert!(quota_record("event_msg", "token_count", Some(limits("  ")), true, true, time).is_none());
    assert!(quota_record("event_msg", "token_count", Some(limits("codex")), true, true, "yesterday").is_none());
    let mut zero_length = limits("codex");
    zero_length.primary.as_mut().unwrap().window_minutes = Some(0);
    assert!(quota_record("event_msg", "token_count", Some(zero_length), true, true, time).is_none());
    assert!(quota_record("event_msg", "token_count", Some(limits("codex")), true, true, time).is_some());
}

#[test]
fn labels_windows_by_their_length() {
    assert_eq!(window_label(Some(10080), "Primary"), "Weekly");
    assert_eq!(window_label(Some(1440), "Primary"), "Daily");
    assert_eq!(window_label(Some(2880), "Primary"), "2 days");
    assert_eq!(window_label(Some(60), "Primary"), "1 hour");
    assert_eq!(window_label(Some(300), "Primary"), "5 hours");
    assert_eq!(window_label(Some(1), "Primary"), "1 minute");
    assert_eq!(window_label(Some(45), "Primary"), "45 minutes");
    assert_eq!(window_label(Some(-90), "Primary"), "-90 minutes");
    assert_eq!(window_label(None, "Secondary"), "Secondary");
}

#[test]
fn token_count_lines_split_like_the_log() {
    let lines = token_count_lines(b"\"token_count\"\nplain\n\n\"token_count\"");
    assert_eq!(lines, vec![b"\"token_count\"".to_vec(), b"\"token_count\"".to_vec()]);
    assert!(token_count_lines(b"token_count\n").is_empty());
}

fn file(secs: i64, length: u64) -> FileStamp {
    FileStamp {
        length,
        modified_secs: secs,
        modified_nanos: 0,
    }
}

#[test]
fn session_reader_reads_only_new_or_changed_recent_files() {
    let mut reader: SessionReader<f64> = SessionReader::new();
    let mut found = Vec::new();
    for index in 0..30 {
        found.push((format!("/sessions/{index:02}.jsonl"), file(NOW - index, 10)));
    }
    let to_read = reader.select_files(found.clone());
    assert_eq!(to_read.len(), 24);
    assert_eq!(to_read[0].0, "/sessions/00.jsonl");
    assert_eq!(to_read[23].0, "/sessions/23.jsonl");
    for (path, stamp) in to_read {
        reader.absorb(path, stamp, Vec::new(), NOW);
    }
    assert!(reader.select_files(found.clone()).is_empty());
    found[3].1 = file(NOW + 5, 20);
    let to_read = reader.select_files(found);
    assert_eq!(to_read.len(), 1);
    assert_eq!(to_read[0].0, "/sessions/03.jsonl");
}

#[test]
fn session_reader_keeps_last_known_quota_until_a_newer_record() {
    let mut reader: SessionReader<f64> = SessionReader::new();
    reader.absorb(
        "/sessions/a.jsonl".to_string(),
        file(NOW, 1),
        vec![weekly("codex", 83.0, NOW)],
        NOW,
    );
    assert_eq!(reader.snapshot(NOW, remaining).windows[0].remaining_percent, 17.0);
    reader.absorb(
        "/sessions/a.jsonl".to_string(),
        file(NOW, 2),
        vec![weekly("codex", 70.0, NOW - 1)],
        NOW,
    );
    let stale = reader.snapshot(NOW + STALE_AFTER_SECS + 1, remaining);
    assert_eq!(stale.windows[0].remaining_percent, 17.0);
    assert_eq!(stale.status, UsageStatus::Stale);
    reader.absorb(
        "/sessions/a.jsonl".to_string(),
        file(NOW, 3),
        vec![weekly("codex", 84.0, NOW + 1), weekly("codex", 10.0, NOW + 10_000)],
        NOW + 1,
    );
    let fresh = reader.snapshot(NOW + 1, remaining);
    assert_eq!(fresh.windows[0].remaining_percent, 16.0);
    assert_eq!(fresh.status, UsageStatus::Available);
}

#[test]
fn session_files_of_one_modification_time_are_read_in_path_order() {
    let mut reader: SessionReader<f64> = SessionReader::new();
    let found = vec![
        ("/sessions/b/late.jsonl".to_string(), file(NOW, 10)),
        ("/sessions/a/early.jsonl".to_string(), file(NOW, 10)),
        ("/sessions/a.jsonl".to_string(), file(NOW, 10)),
    ];
    let to_read = reader.select_files(found);
    let paths: Vec<&str> = to_read.iter().map(|(path, _)| path.as_str()).collect();
    assert_eq!(paths, vec!["/sessions/a/early.jsonl", "/sessions/a.jsonl", "/sessions/b/late.jsonl"]);
}
