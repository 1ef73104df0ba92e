//! An Anthropic account's quota, read from the endpoint of the command-line tool.
//!
//! The reader's decisions live here: when to send a request, what a reply or
//! a failure does to the last report, and when a report has gone stale. The
//! credential file and the request itself are the caller's.

use vstd::prelude::*;
use super::{UsageSnapshot, UsageStatus, UsageWindow, any_stale, empty_snapshot, has_stale_window};
use crate::text::{signed_text, str_eq, trim};
use super::codex::{rfc3339_instant, rfc3339_times};

verus! {

/// Seconds between two requests after a good reply.
pub const REQUEST_INTERVAL_SECS: i64 = 300;
/// The longest wait our own retry policy imposes.
pub const MAX_BACKOFF_SECS: i64 = 3600;
/// Age in seconds after which a window is stale.
pub const STALE_AFTER_SECS: i64 = 900;

/// `v` clamped to the range of `i64` (what `saturating_add` and
/// `saturating_sub` give).
pub open spec fn clamp_i64(v: int) -> i64 {
    if v > i64::MAX {
        i64::MAX
    } else if v < i64::MIN {
        i64::MIN
    } else {
        v as i64
    }
}

pub fn saturating_add_i64(a: i64, b: i64) -> (r: i64)
    ensures
        r == clamp_i64(a + b),
{
    let v: i128 = a as i128 + b as i128;
    if v > i64::MAX as i128 {
        i64::MAX
    } else if v < i64::MIN as i128 {
        i64::MIN
    } else {
        v as i64
    }
}

/// Our own wait after `failures` failed requests in a row: five minutes,
/// doubled for each further failure, at most an hour.
pub open spec fn own_backoff(failures: u32) -> int {
    if failures <= 1 {
        300
    } else if failures == 2 {
        600
    } else if failures == 3 {
        1200
    } else if failures == 4 {
        2400
    } else {
        3600
    }
}

/// The wait before the next request: our own backoff, or longer where the
/// server asked for it.
pub open spec fn retry_delay_of(failures: u32, after_secs: Option<i64>) -> int {
    let server: int = match after_secs {
        Some(s) => s as int,
        None => 0,
    };
    if own_backoff(failures) >= server {
        own_backoff(failures)
    } else {
        server
    }
}

pub fn retry_delay(failures: u32, after_secs: Option<i64>) -> (r: i64)
    ensures
        r == retry_delay_of(failures, after_secs),
{
    let backoff: i64 = if failures <= 1 {
        REQUEST_INTERVAL_SECS
    } else if failures == 2 {
        REQUEST_INTERVAL_SECS * 2
    } else if failures == 3 {
        REQUEST_INTERVAL_SECS * 4
    } else if failures == 4 {
        REQUEST_INTERVAL_SECS * 8
    } else {
        MAX_BACKOFF_SECS
    };
    let server: i64 = match after_secs {
        Some(s) => s,
        None => 0,
    };
    if backoff >= server {
        backoff
    } else {
        server
    }
}

/// The seconds since the Unix epoch of an RFC 2822 date, where `text` is one.
pub uninterp spec fn rfc2822_seconds(text: Seq<char>) -> Option<i64>;

/// Calls `chrono::DateTime::parse_from_rfc2822` and takes the parsed time's
/// `timestamp`. What counts as an RFC 2822 date is chrono's and is only
/// named here.
#[verifier::external_body]
fn rfc2822_timestamp(text: &str) -> (r: Option<i64>)
    ensures
        r == rfc2822_seconds(text@),
{
    match chrono::DateTime::parse_from_rfc2822(text) {
        Ok(time) => Some(time.timestamp()),
        Err(_) => None,
    }
}

/// The seconds from `now` until `date`, where there is a date.
pub fn seconds_until(date: Option<i64>, now: i64) -> (r: Option<i64>)
    ensures
        r == (match date {
            Some(t) => Some(clamp_i64(t - now)),
            None => None,
        }),
{
    match date {
        Some(t) => {
            let v: i128 = t as i128 - now as i128;
            if v > i64::MAX as i128 {
                Some(i64::MAX)
            } else if v < i64::MIN as i128 {
                Some(i64::MIN)
            } else {
                Some(v as i64)
            }
        },
        None => None,
    }
}

/// A `Retry-After` value as a delay: a number of seconds, or a date.
pub open spec fn retry_after_of(value: Seq<char>, now: i64) -> Option<i64> {
    match signed_text(trim(value)) {
        Some(n) if i64::MIN <= n <= i64::MAX => Some(n as i64),
        _ => match rfc2822_seconds(value) {
            Some(t) => Some(clamp_i64(t - now)),
            None => None,
        },
    }
}

/// Reads a `Retry-After` header: a number of seconds, or an RFC 2822 date
/// that is turned into the seconds from `now`.
pub fn retry_after_secs(value: &str, now: i64) -> (r: Option<i64>)
    ensures
        r == retry_after_of(value@, now),
{
    let trimmed = crate::text::trimmed_chars(value);
    match crate::text::parse_i64_chars(&trimmed) {
        Some(n) => Some(n),
        None => seconds_until(rfc2822_timestamp(value), now),
    }
}

/// `a / d` rounded towards zero, as Rust divides.
pub open spec fn div_toward_zero(a: int, d: int) -> int {
    if a >= 0 {
        a / d
    } else {
        -((-a) / d)
    }
}

/// Whether the stored login can be used at `now`: a token,
/// not yet expired (`expires_at` is in milliseconds), with profile access.
pub open spec fn usable_credentials(
    access_token: Seq<char>,
    expires_at: i64,
    scopes: Seq<Seq<char>>,
    now: i64,
) -> bool {
    &&& access_token.len() > 0
    &&& div_toward_zero(expires_at as int, 1000) > now
    &&& scopes.contains("user:profile"@)
}

pub fn credentials_usable(access_token: &str, expires_at: i64, scopes: &Vec<String>, now: i64) -> (r: bool)
    ensures
        r == usable_credentials(access_token@, expires_at, crate::text::string_views(scopes@), now),
{
    proof {
        reveal_strlit("");
        reveal_strlit("user:profile");
    }
    if crate::text::str_eq(access_token, "") {
        return false;
    }
    assert(access_token@.len() > 0) by {
        if access_token@.len() == 0 {
            assert(access_token@ =~= ""@);
        }
    }
    let wide = expires_at as i128;
    let seconds: i128 = if wide >= 0 {
        wide / 1000
    } else {
        0 - (0 - wide) / 1000
    };
    assert(seconds == div_toward_zero(expires_at as int, 1000));
    if seconds <= now as i128 {
        return false;
    }
    let mut i: usize = 0;
    while i < scopes.len()
        invariant
            i <= scopes@.len(),
            forall|j: int| 0 <= j < i ==> scopes@[j]@ != "user:profile"@,
            access_token@.len() > 0,
            div_toward_zero(expires_at as int, 1000) > now,
        decreases scopes@.len() - i,
    {
        if crate::text::str_eq(scopes[i].as_str(), "user:profile") {
            proof {
                assert(crate::text::string_views(scopes@)[i as int] == "user:profile"@);
            }
            return true;
        }
        i += 1;
    }
    proof {
        assert forall|j: int| 0 <= j < scopes@.len() implies crate::text::string_views(scopes@)[j]
            != "user:profile"@ by {
            assert(crate::text::string_views(scopes@)[j] == scopes@[j]@);
        }
    }
    false
}

/// A window of a fresh report, taken at `now`.
pub open spec fn reported_window<P>(w: (String, String, P, Option<i64>), now: i64) -> UsageWindow<P> {
    UsageWindow {
        limit_id: w.0,
        label: w.1,
        remaining_percent: w.2,
        resets_at: w.3,
        updated_at: now,
        is_stale: w.3 matches Some(reset) && reset <= now,
    }
}

/// The windows that a usage reply may hold, in the order they are shown.
pub open spec fn reply_window_ids() -> Seq<Seq<char>> {
    seq![
        "five_hour"@,
        "seven_day"@,
        "seven_day_sonnet"@,
        "seven_day_opus"@,
        "seven_day_cowork"@,
        "seven_day_oauth_apps"@,
    ]
}

/// The label of a reply window.
pub open spec fn reply_label(id: Seq<char>) -> Option<Seq<char>> {
    if id == "five_hour"@ {
        Some("5-hour"@)
    } else if id == "seven_day"@ {
        Some("Weekly"@)
    } else if id == "seven_day_sonnet"@ {
        Some("Sonnet \u{b7} Weekly"@)
    } else if id == "seven_day_opus"@ {
        Some("Opus \u{b7} Weekly"@)
    } else if id == "seven_day_cowork"@ {
        Some("Cowork \u{b7} Weekly"@)
    } else if id == "seven_day_oauth_apps"@ {
        Some("OAuth apps \u{b7} Weekly"@)
    } else {
        None
    }
}

/// The ids of the windows a usage reply may hold, in the order they are shown.
pub fn usage_window_ids() -> (r: Vec<&'static str>)
    ensures
        r@.map_values(|s: &'static str| s@) == reply_window_ids(),
{
    let r = vec!["five_hour", "seven_day", "seven_day_sonnet", "seven_day_opus", "seven_day_cowork", "seven_day_oauth_apps"];
    assert(r@.map_values(|s: &'static str| s@) =~= reply_window_ids());
    r
}

/// The label shown for a reply window.
pub fn usage_window_label(id: &str) -> (r: Option<&'static str>)
    ensures
        match r {
            Some(l) => reply_label(id@) == Some(l@),
            None => reply_label(id@) is None,
        },
{
    if str_eq(id, "five_hour") {
        Some("5-hour")
    } else if str_eq(id, "seven_day") {
        Some("Weekly")
    } else if str_eq(id, "seven_day_sonnet") {
        Some("Sonnet \u{b7} Weekly")
    } else if str_eq(id, "seven_day_opus") {
        Some("Opus \u{b7} Weekly")
    } else if str_eq(id, "seven_day_cowork") {
        Some("Cowork \u{b7} Weekly")
    } else if str_eq(id, "seven_day_oauth_apps") {
        Some("OAuth apps \u{b7} Weekly")
    } else {
        None
    }
}

/// Every window a usage reply may hold has a label, no two windows share one,
/// the five-hour window reads "5-hour" and the seven-day one "Weekly", and
/// the label of each seven-day window ends in "Weekly" while the five-hour
/// one does not.
pub proof fn law_reply_window_labels()
    ensures
        reply_label("five_hour"@) == Some("5-hour"@),
        reply_label("seven_day"@) == Some("Weekly"@),
        forall|i: int| 0 <= i < reply_window_ids().len() ==> (#[trigger] reply_label(reply_window_ids()[i])) is Some,
        forall|i: int, j: int|
            0 <= i < j < reply_window_ids().len() ==> reply_label(#[trigger] reply_window_ids()[i])
                != reply_label(#[trigger] reply_window_ids()[j]),
        forall|i: int|
            1 <= i < reply_window_ids().len() ==> crate::text::ends_with(
                (#[trigger] reply_label(reply_window_ids()[i])).unwrap(),
                "Weekly"@,
            ),
        !crate::text::ends_with(reply_label("five_hour"@).unwrap(), "Weekly"@),
{
    reveal_strlit("five_hour");
    reveal_strlit("seven_day");
    reveal_strlit("seven_day_sonnet");
    reveal_strlit("seven_day_opus");
    reveal_strlit("seven_day_cowork");
    reveal_strlit("seven_day_oauth_apps");
    reveal_strlit("5-hour");
    reveal_strlit("Weekly");
    reveal_strlit("Sonnet \u{b7} Weekly");
    reveal_strlit("Opus \u{b7} Weekly");
    reveal_strlit("Cowork \u{b7} Weekly");
    reveal_strlit("OAuth apps \u{b7} Weekly");
    let ids = reply_window_ids();
    let labels = seq![
        "5-hour"@,
        "Weekly"@,
        "Sonnet \u{b7} Weekly"@,
        "Opus \u{b7} Weekly"@,
        "Cowork \u{b7} Weekly"@,
        "OAuth apps \u{b7} Weekly"@,
    ];
    assert("five_hour"@.len() == 9 && "seven_day"@.len() == 9);
    assert("five_hour"@[0] == 'f' && "seven_day"@[0] == 's');
    assert("seven_day_sonnet"@.len() == 16 && "seven_day_cowork"@.len() == 16);
    assert("seven_day_sonnet"@[10] == 's' && "seven_day_cowork"@[10] == 'c');
    assert("seven_day_opus"@.len() == 14 && "seven_day_oauth_apps"@.len() == 20);
    assert("5-hour"@.len() == 6 && "Weekly"@.len() == 6);
    assert("5-hour"@[0] == '5' && "Weekly"@[0] == 'W');
    assert("Sonnet \u{b7} Weekly"@.len() == 15 && "Cowork \u{b7} Weekly"@.len() == 15);
    assert("Sonnet \u{b7} Weekly"@[0] == 'S' && "Cowork \u{b7} Weekly"@[0] == 'C');
    assert("Opus \u{b7} Weekly"@.len() == 13 && "OAuth apps \u{b7} Weekly"@.len() == 19);
    assert forall|i: int| 0 <= i < 6 implies #[trigger] reply_label(ids[i]) == Some(labels[i]) by {}
    assert forall|i: int| 1 <= i < 6 implies crate::text::ends_with(labels[i], "Weekly"@) by {
        let l = labels[i];
        assert(l.subrange(l.len() - 6, l.len() as int) =~= "Weekly"@);
    }
    assert("5-hour"@.subrange(0, 6) != "Weekly"@) by {
        assert("5-hour"@.subrange(0, 6)[0] == '5');
    }
}

/// The `resets_at` field of a reply window.
#[derive(Debug, Clone, PartialEq, Eq)]
pub enum ResetField {
    Absent,
    Null,
    Text(String),
    /// A value of another type.
    Other,
}

/// The reset time that an RFC 3339 text gives: its seconds since the epoch,
/// when it is one and that is after the epoch.
pub open spec fn reset_time_of(text: Seq<char>) -> Option<i64> {
    match rfc3339_times(text) {
        Some((secs, _)) => if secs > 0 { Some(secs) } else { None },
        None => None,
    }
}

/// The reset time of a window: the seconds of an RFC 3339 time after the epoch.
pub fn reset_time(text: &str) -> (r: Option<i64>)
    ensures
        r == reset_time_of(text@),
{
    match rfc3339_instant(text) {
        Some((secs, _)) => if secs > 0 {
            Some(secs)
        } else {
            None
        },
        None => None,
    }
}

/// A window of a usage reply, where it is read: a known id, a utilization
/// that is a number from 0 to 100 (`utilization_ok`), and a reset time that
/// is absent, null or a time after the epoch.
pub open spec fn reply_window_of<P>(id: Seq<char>, utilization_ok: bool, remaining: P, resets_at: ResetField) -> Option<
    (Seq<char>, Seq<char>, P, Option<i64>),
> {
    match reply_label(id) {
        None => None,
        Some(label) => if !utilization_ok {
            None
        } else {
            match resets_at {
                ResetField::Absent | ResetField::Null => Some((id, label, remaining, None)),
                ResetField::Text(t) => match reset_time_of(t@) {
                    Some(at) => Some((id, label, remaining, Some(at))),
                    None => None,
                },
                ResetField::Other => None,
            }
        },
    }
}

/// A reply window is read only under one of the known window ids and with a
/// utilization from 0 to 100, and never with a reset field of another type;
/// a known window with a valid utilization and no reset time is read as its
/// id, its label and the remaining share, with no reset time.
pub proof fn law_reply_window_read<P>(id: Seq<char>, utilization_ok: bool, remaining: P, resets_at: ResetField)
    ensures
        !reply_window_ids().contains(id) ==> reply_window_of(id, utilization_ok, remaining, resets_at) is None,
        !utilization_ok ==> reply_window_of(id, utilization_ok, remaining, resets_at) is None,
        resets_at is Other ==> reply_window_of(id, utilization_ok, remaining, resets_at) is None,
        reply_window_ids().contains(id) && (resets_at is Absent || resets_at is Null) ==> reply_window_of(
            id,
            true,
            remaining,
            resets_at,
        ) == Some((id, reply_label(id)->0, remaining, None::<i64>)) && reply_label(id) is Some,
{
    let ids = reply_window_ids();
    if !ids.contains(id) {
        assert(ids[0] == "five_hour"@ && ids[1] == "seven_day"@ && ids[2] == "seven_day_sonnet"@);
        assert(ids[3] == "seven_day_opus"@ && ids[4] == "seven_day_cowork"@ && ids[5] == "seven_day_oauth_apps"@);
        assert(id != ids[0] && id != ids[1] && id != ids[2] && id != ids[3] && id != ids[4] && id != ids[5]);
    } else {
        let i = choose|i: int| 0 <= i < ids.len() && ids[i] == id;
        law_reply_window_labels();
        assert(reply_label(ids[i]) is Some);
    }
}

/// Reads one window of a usage reply: its id, label, remaining share and
/// reset time; none where the window is skipped.
pub fn reply_window<P>(id: &str, utilization_ok: bool, remaining: P, resets_at: ResetField) -> (r: Option<
    (String, String, P, Option<i64>),
>)
    ensures
        match r {
            Some(w) => reply_window_of(id@, utilization_ok, remaining, resets_at) == Some((w.0@, w.1@, w.2, w.3)),
            None => reply_window_of(id@, utilization_ok, remaining, resets_at) is None,
        },
{
    let label = match usage_window_label(id) {
        Some(label) => label,
        None => return None,
    };
    if !utilization_ok {
        return None;
    }
    let at = match &resets_at {
        ResetField::Absent | ResetField::Null => None,
        ResetField::Text(t) => match reset_time(t.as_str()) {
            Some(at) => Some(at),
            None => return None,
        },
        ResetField::Other => return None,
    };
    Some((crate::text::owned(id), crate::text::owned(label), remaining, at))
}

/// A report of the windows read from a reply at `now`, each as its limit's
/// id, its label, the remaining percentage and its reset time; none where no
/// window was read. A window past its reset time is stale, and so is then
/// the report: a quota is never assumed to have refilled.
pub fn usage_report<P>(windows: Vec<(String, String, P, Option<i64>)>, now: i64) -> (r: Option<UsageSnapshot<P>>)
    ensures
        windows@.len() == 0 ==> r is None,
        windows@.len() > 0 ==> (r matches Some(s) && ({
            let ws = windows@.map_values(|w: (String, String, P, Option<i64>)| reported_window(w, now));
            s@ == (ws, Some(now), if any_stale(ws) { UsageStatus::Stale } else { UsageStatus::Available })
        })),
{
    let ghost input = windows@;
    let ghost ws = input.map_values(|w: (String, String, P, Option<i64>)| reported_window(w, now));
    if windows.len() == 0 {
        return None;
    }
    let mut out: Vec<UsageWindow<P>> = Vec::new();
    let mut rest = windows;
    let mut i: usize = 0;
    let n = rest.len();
    while rest.len() > 0
        invariant
            i + rest@.len() == input.len(),
            input.len() == n,
            rest@ == input.skip(i as int),
            ws == input.map_values(|w: (String, String, P, Option<i64>)| reported_window(w, now)),
            out@ == ws.subrange(0, i as int),
        decreases rest@.len(),
    {
        let (limit_id, label, remaining_percent, resets_at) = rest.remove(0);
        let is_stale = match resets_at {
            Some(reset) => reset <= now,
            None => false,
        };
        out.push(UsageWindow { limit_id, label, remaining_percent, resets_at, updated_at: now, is_stale });
        proof {
            assert(input[i as int] == (limit_id, label, remaining_percent, resets_at));
        }
        i += 1;
        assert(out@ =~= ws.subrange(0, i as int));
        assert(rest@ =~= input.skip(i as int));
    }
    assert(ws.subrange(0, i as int) =~= ws);
    let status = if has_stale_window(&out) {
        UsageStatus::Stale
    } else {
        UsageStatus::Available
    };
    Some(UsageSnapshot { windows: out, updated_at: Some(now), status })
}

/// When and how large the credential file was; a change means another login.
#[derive(Debug, Clone, Copy, PartialEq, Eq, Structural)]
pub struct CredentialStamp {
    /// Modification time, in seconds and nanoseconds from the Unix epoch.
    pub modified_secs: i64,
    pub modified_nanos: u32,
    pub length: u64,
}

/// Why a quota request gave no report.
#[derive(Debug, Clone, Copy, PartialEq, Eq, Structural)]
pub enum FetchError {
    /// The token was refused.
    SignInRequired,
    /// Anything else; the server may have said how long to wait.
    Retry { after_secs: Option<i64> },
}

fn same_stamp(a: Option<CredentialStamp>, b: Option<CredentialStamp>) -> (r: bool)
    ensures
        r == (a == b),
{
    match (a, b) {
        (Some(x), Some(y)) => x == y,
        (None, None) => true,
        _ => false,
    }
}

/// The reader's memory between polls.
pub struct UsageReader<P> {
    pub stamp: Option<CredentialStamp>,
    pub snapshot: UsageSnapshot<P>,
    /// Unix seconds before which no request is sent.
    pub next_request_at: i64,
    /// Failed requests in a row.
    pub failures: u32,
}

impl<P> View for UsageReader<P> {
    type V = (Option<CredentialStamp>, (Seq<UsageWindow<P>>, Option<i64>, UsageStatus), i64, u32);

    open spec fn view(&self) -> Self::V {
        (self.stamp, self.snapshot@, self.next_request_at, self.failures)
    }
}

/// A reader that remembers nothing but `stamp`, showing `status`.
pub open spec fn blank_reader<P>(stamp: Option<CredentialStamp>, status: UsageStatus) -> (
    Option<CredentialStamp>,
    (Seq<UsageWindow<P>>, Option<i64>, UsageStatus),
    i64,
    u32,
) {
    (stamp, empty_snapshot(status), 0, 0)
}

/// A window as it is shown at `now`: stale once it is older than the limit
/// or past its reset time. Staleness is never undone here.
pub open spec fn aged<P>(w: UsageWindow<P>, now: i64) -> UsageWindow<P> {
    UsageWindow {
        is_stale: w.is_stale || now - w.updated_at > STALE_AFTER_SECS || (w.resets_at matches Some(
            reset,
        ) && reset <= now),
        ..w
    }
}

/// A reader as `finish` leaves it at `now`: its windows aged, the report
/// stale if one of them is.
pub open spec fn finished<P>(
    v: (Option<CredentialStamp>, (Seq<UsageWindow<P>>, Option<i64>, UsageStatus), i64, u32),
    now: i64,
) -> (Option<CredentialStamp>, (Seq<UsageWindow<P>>, Option<i64>, UsageStatus), i64, u32) {
    let ws = v.1.0.map_values(|w: UsageWindow<P>| aged(w, now));
    (v.0, (ws, v.1.1, if any_stale(ws) { UsageStatus::Stale } else { v.1.2 }), v.2, v.3)
}

/// Without usable credentials (`begin_refresh` of `None`, whatever the
/// reader held: its contract leaves a blank reader and no request), `finish`
/// reports nothing but a request to sign in: no quota of an earlier account
/// survives, nor its backoff.
pub proof fn law_no_credentials_no_request<P>(
    begun: (Option<CredentialStamp>, (Seq<UsageWindow<P>>, Option<i64>, UsageStatus), i64, u32),
    fetch: bool,
    now: i64,
)
    requires
        begun == blank_reader::<P>(None, UsageStatus::SignInRequired) && !fetch,
    ensures
        !fetch,
        finished(begun, now) == blank_reader::<P>(None, UsageStatus::SignInRequired),
        finished(begun, now).1 == empty_snapshot::<P>(UsageStatus::SignInRequired),
{
    let ws = begun.1.0.map_values(|w: UsageWindow<P>| aged(w, now));
    assert(ws =~= Seq::<UsageWindow<P>>::empty());
    assert(!any_stale(ws));
}

pub open spec fn marked_stale<P>(w: UsageWindow<P>) -> UsageWindow<P> {
    UsageWindow { is_stale: true, ..w }
}

impl<P: Copy> UsageReader<P> {
    pub fn new() -> (r: Self)
        ensures
            r@ == blank_reader::<P>(None, UsageStatus::Unavailable),
    {
        UsageReader {
            stamp: None,
            snapshot: UsageSnapshot::default(),
            next_request_at: 0,
            failures: 0,
        }
    }

    fn reset(&mut self, stamp: Option<CredentialStamp>, status: UsageStatus)
        ensures
            final(self)@ == blank_reader::<P>(stamp, status),
    {
        self.stamp = stamp;
        self.snapshot = UsageSnapshot { windows: Vec::new(), updated_at: None, status };
        self.next_request_at = 0;
        self.failures = 0;
    }

    /// Starts a poll with the stamp of the usable credentials, if there are
    /// any. Without them everything is forgotten, so that another account's
    /// quota is never shown; new credentials start a new reader. Returns
    /// whether a request is due.
    pub fn begin_refresh(&mut self, credentials: Option<CredentialStamp>, now: i64) -> (fetch: bool)
        ensures
            match credentials {
                None => final(self)@ == blank_reader::<P>(None, UsageStatus::SignInRequired) && !fetch,
                Some(st) => {
                    &&& final(self)@ == if old(self).stamp == Some(st) {
                        old(self)@
                    } else {
                        blank_reader::<P>(Some(st), UsageStatus::Unavailable)
                    }
                    &&& fetch == (now >= final(self).next_request_at)
                },
            },
    {
        match credentials {
            None => {
                self.reset(None, UsageStatus::SignInRequired);
                false
            },
            Some(st) => {
                if !same_stamp(self.stamp, Some(st)) {
                    self.reset(Some(st), UsageStatus::Unavailable);
                }
                now >= self.next_request_at
            },
        }
    }

    fn mark_stale(&mut self)
        ensures
            final(self).stamp == old(self).stamp,
            final(self).next_request_at == old(self).next_request_at,
            final(self).failures == old(self).failures,
            final(self).snapshot@ == (
                old(self).snapshot.windows@.map_values(|w: UsageWindow<P>| marked_stale(w)),
                old(self).snapshot.updated_at,
                if old(self).snapshot.windows@.len() == 0 {
                    UsageStatus::Unavailable
                } else {
                    UsageStatus::Stale
                },
            ),
    {
        let ghost before = self.snapshot.windows@;
        let mut windows: Vec<UsageWindow<P>> = Vec::new();
        let mut i: usize = 0;
        while i < self.snapshot.windows.len()
            invariant
                i <= before.len(),
                self.snapshot.windows@ == before,
                windows@ == before.map_values(|w: UsageWindow<P>| marked_stale(w)).subrange(0, i as int),
            decreases before.len() - i,
        {
            let mut w = self.snapshot.windows[i].copy();
            w.is_stale = true;
            windows.push(w);
            i += 1;
            assert(windows@ =~= before.map_values(|w: UsageWindow<P>| marked_stale(w)).subrange(0, i as int));
        }
        assert(before.map_values(|w: UsageWindow<P>| marked_stale(w)).subrange(0, i as int)
            =~= before.map_values(|w: UsageWindow<P>| marked_stale(w)));
        let status = if windows.len() == 0 {
            UsageStatus::Unavailable
        } else {
            UsageStatus::Stale
        };
        self.snapshot = UsageSnapshot { windows, updated_at: self.snapshot.updated_at, status };
    }

    /// Takes the outcome of a request, given the credentials' stamp as it is
    /// after the reply. A login that changed while the request was out
    /// discards the reply. A refused token is not sent again until the
    /// credentials change; any other failure keeps the last report, marked
    /// stale, and backs off.
    pub fn complete_fetch(
        &mut self,
        result: Result<UsageSnapshot<P>, FetchError>,
        current_stamp: Option<CredentialStamp>,
        now: i64,
    )
        ensures
            current_stamp != old(self).stamp ==> final(self)@ == blank_reader::<P>(
                None,
                if current_stamp is Some {
                    UsageStatus::Loading
                } else {
                    UsageStatus::SignInRequired
                },
            ),
            current_stamp == old(self).stamp ==> match result {
                Ok(s) => final(self)@ == (
                    old(self).stamp,
                    s@,
                    clamp_i64(now + REQUEST_INTERVAL_SECS),
                    0u32,
                ),
                Err(FetchError::SignInRequired) => final(self)@ == (
                    old(self).stamp,
                    empty_snapshot::<P>(UsageStatus::SignInRequired),
                    i64::MAX,
                    old(self).failures,
                ),
                Err(FetchError::Retry { after_secs }) => {
                    let failures: u32 = if old(self).failures == u32::MAX {
                        u32::MAX
                    } else {
                        (old(self).failures + 1) as u32
                    };
                    final(self)@ == (
                        old(self).stamp,
                        (
                            old(self).snapshot.windows@.map_values(|w: UsageWindow<P>| marked_stale(w)),
                            old(self).snapshot.updated_at,
                            if old(self).snapshot.windows@.len() == 0 {
                                UsageStatus::Unavailable
                            } else {
                                UsageStatus::Stale
                            },
                        ),
                        clamp_i64(now + retry_delay_of(failures, after_secs)),
                        failures,
                    )
                },
            },
    {
        if !same_stamp(current_stamp, self.stamp) {
            let status = if current_stamp.is_some() {
                UsageStatus::Loading
            } else {
                UsageStatus::SignInRequired
            };
            self.reset(None, status);
            return;
        }
        match result {
            Ok(snapshot) => {
                self.snapshot = snapshot;
                self.failures = 0;
                self.next_request_at = saturating_add_i64(now, REQUEST_INTERVAL_SECS);
            },
            Err(FetchError::SignInRequired) => {
                self.snapshot = UsageSnapshot {
                    windows: Vec::new(),
                    updated_at: None,
                    status: UsageStatus::SignInRequired,
                };
                self.next_request_at = i64::MAX;
            },
            Err(FetchError::Retry { after_secs }) => {
                self.failures = self.failures.saturating_add(1);
                let delay = retry_delay(self.failures, after_secs);
                self.next_request_at = saturating_add_i64(now, delay);
                self.mark_stale();
            },
        }
    }

    /// Ends a poll: ages the windows at `now` and returns the report to show.
    pub fn finish(&mut self, now: i64) -> (r: UsageSnapshot<P>)
        ensures
            ({
                let ws = old(self).snapshot.windows@.map_values(|w: UsageWindow<P>| aged(w, now));
                final(self)@ == (
                    old(self).stamp,
                    (
                        ws,
                        old(self).snapshot.updated_at,
                        if any_stale(ws) { UsageStatus::Stale } else { old(self).snapshot.status },
                    ),
                    old(self).next_request_at,
                    old(self).failures,
                )
            }),
            r@ == final(self).snapshot@,
            final(self)@ == finished(old(self)@, now),
    {
        let ghost before = self.snapshot.windows@;
        let ghost ws = before.map_values(|w: UsageWindow<P>| aged(w, now));
        let mut windows: Vec<UsageWindow<P>> = Vec::new();
        let mut i: usize = 0;
        while i < self.snapshot.windows.len()
            invariant
                i <= before.len(),
                self.snapshot.windows@ == before,
                ws == before.map_values(|w: UsageWindow<P>| aged(w, now)),
                windows@ == ws.subrange(0, i as int),
            decreases before.len() - i,
        {
            let mut w = self.snapshot.windows[i].copy();
            let age: i128 = now as i128 - w.updated_at as i128;
            let past_reset = match w.resets_at {
                Some(reset) => reset <= now,
                None => false,
            };
            w.is_stale = w.is_stale || age > STALE_AFTER_SECS as i128 || past_reset;
            windows.push(w);
            i += 1;
            assert(windows@ =~= ws.subrange(0, i as int));
        }
        assert(ws.subrange(0, i as int) =~= ws);
        let status = if has_stale_window(&windows) {
            UsageStatus::Stale
        } else {
            self.snapshot.status
        };
        self.snapshot = UsageSnapshot { windows, updated_at: self.snapshot.updated_at, status };
        self.snapshot.copy()
    }
}


/// The wait before a retry is at least the normal poll interval, our own
/// backoff never exceeds an hour, and a longer wait that the server asks
/// for is honoured. Our own backoff doubles with each further failure until
/// it reaches the hour, and never shrinks as failures go on.
pub proof fn law_retry_delay_bounds(failures: u32, after_secs: Option<i64>)
    ensures
        retry_delay_of(failures, after_secs) >= REQUEST_INTERVAL_SECS,
        retry_delay_of(failures, None) <= MAX_BACKOFF_SECS,
        after_secs matches Some(s) ==> retry_delay_of(failures, after_secs) >= s,
        failures >= 5 ==> retry_delay_of(failures, None) == MAX_BACKOFF_SECS,
        failures <= 1 ==> retry_delay_of(failures, None) == REQUEST_INTERVAL_SECS,
        1 <= failures < 4 ==> retry_delay_of((failures + 1) as u32, None) == 2 * retry_delay_of(failures, None),
        failures < u32::MAX ==> retry_delay_of(failures, None) <= retry_delay_of((failures + 1) as u32, None),
{
}

/// Aging a window never refills it: its percentage stays, a stale window
/// stays stale, and a window past its reset time becomes stale.
pub proof fn law_aging_never_refills<P>(w: UsageWindow<P>, now: i64)
    ensures
        aged(w, now).remaining_percent == w.remaining_percent,
        aged(w, now).resets_at == w.resets_at,
        w.is_stale ==> aged(w, now).is_stale,
        (w.resets_at matches Some(reset) && reset <= now) ==> aged(w, now).is_stale,
{
}

} // verus!
