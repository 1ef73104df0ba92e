//! Decisions of the on-screen widget that do not depend on how it is drawn:
//! refresh timing, notification text and grouping, battery and weather icons.

use vstd::prelude::*;
use crate::config::{Config, WidgetSection};
use crate::notifications::Notification;
use crate::text::{
    append_chars, append_str, chars_of, decimal, decimal2, decimal_chars, eq_ignore_case,
    eq_ignore_case_str, is_ws, join, join_exec, lemma_split_on, lower, lower_chars, pieces_total,
    runs_exec, split_chars, split_on, starts_with, starts_with_str, string_of, text_lines, trim,
    trim_bounds, trimmed_chars, views, words,
};

verus! {

broadcast use vstd::seq_lib::group_seq_properties;

pub const MIN_UI_TICK_INTERVAL_MS: u64 = 250;
pub const MAX_UI_TICK_INTERVAL_MS: u64 = 1_000;
/// How long after a tick boundary the widget refreshes, so that the clock has
/// turned over.
pub const UI_TICK_SETTLE_DELAY_NS: u128 = 5_000_000;
pub const NOTIFICATION_LINE_HEIGHT: u32 = 17;
pub const NOTIFICATION_CHARS_PER_LINE: usize = 32;

// ---------------------------------------------------------------------------
// Timing
// ---------------------------------------------------------------------------

/// The refresh interval in milliseconds: the configured one, kept within a
/// quarter second and one second.
pub fn ui_tick_interval(configured_ms: u64) -> (r: u64)
    ensures
        r == if configured_ms < MIN_UI_TICK_INTERVAL_MS {
            MIN_UI_TICK_INTERVAL_MS
        } else if configured_ms > MAX_UI_TICK_INTERVAL_MS {
            MAX_UI_TICK_INTERVAL_MS
        } else {
            configured_ms
        },
{
    if configured_ms < MIN_UI_TICK_INTERVAL_MS {
        MIN_UI_TICK_INTERVAL_MS
    } else if configured_ms > MAX_UI_TICK_INTERVAL_MS {
        MAX_UI_TICK_INTERVAL_MS
    } else {
        configured_ms
    }
}

/// Nanoseconds from `elapsed` to the next multiple of `interval` (a whole
/// interval on a boundary), at most `u64::MAX`.
pub open spec fn until_boundary(elapsed: u128, interval: u128) -> int {
    let i = if interval == 0 { 1 } else { interval as int };
    let rem = elapsed as int % i;
    let until = if rem == 0 { i } else { i - rem };
    if until > u64::MAX { u64::MAX as int } else { until }
}

/// Nanoseconds to wait, `elapsed` nanoseconds after the epoch, for the next
/// tick: just after the next multiple of `interval`.
pub fn delay_until_next_tick(elapsed: u128, interval: u128) -> (r: u128)
    ensures
        r == until_boundary(elapsed, interval) + UI_TICK_SETTLE_DELAY_NS,
{
    let interval = if interval == 0 { 1 } else { interval };
    let remainder = elapsed % interval;
    let until = if remainder == 0 { interval } else { interval - remainder };
    let capped: u128 = if until > 0xffff_ffff_ffff_ffffu128 { 0xffff_ffff_ffff_ffffu128 } else { until };
    capped + UI_TICK_SETTLE_DELAY_NS
}

/// The wait ends just after a tick boundary: the next one, never the current.
pub proof fn law_ticks_align_to_the_next_boundary(elapsed: u128, interval: u128)
    requires
        0 < interval <= u64::MAX,
    ensures
        0 < until_boundary(elapsed, interval) <= interval,
        (elapsed + until_boundary(elapsed, interval)) % (interval as int) == 0,
{
    let i = interval as int;
    let e = elapsed as int;
    assert(0 <= e % i < i) by (nonlinear_arith)
        requires
            i > 0,
    ;
    assert(e == (e / i) * i + e % i) by (nonlinear_arith)
        requires
            i > 0,
    ;
    let q = e / i;
    if e % i == 0 {
        assert((e + i) % i == 0) by (nonlinear_arith)
            requires
                i > 0,
                e == q * i,
        ;
    } else {
        assert((e + (i - e % i)) % i == 0) by (nonlinear_arith)
            requires
                i > 0,
                e == q * i + e % i,
        ;
    }
}

// ---------------------------------------------------------------------------
// Notifications
// ---------------------------------------------------------------------------

/// The group a notification is shown in: its application, or its summary for
/// notifications of no application or of "system" (trimmed either way).
pub open spec fn source_of(n: Notification) -> Seq<char> {
    if trim(n.app_name@).len() == 0 || eq_ignore_case(n.app_name@, "system"@) {
        trim(n.summary@)
    } else {
        trim(n.app_name@)
    }
}

pub fn notification_source(notification: &Notification) -> (r: String)
    ensures
        r@ == source_of(*notification),
{
    let app = trimmed_chars(notification.app_name.as_str());
    if app.len() == 0 || eq_ignore_case_str(notification.app_name.as_str(), "system") {
        string_of(&trimmed_chars(notification.summary.as_str()))
    } else {
        string_of(&app)
    }
}

/// Whether a notification is the one that a key (application and time) names.
pub struct NotificationKey {
    pub app_name: String,
    pub timestamp: u64,
}

impl NotificationKey {
    pub fn matches(&self, notification: &Notification) -> (r: bool)
        ensures
            r == (self.app_name@ == notification.app_name@ && self.timestamp == notification.timestamp),
    {
        self.timestamp == notification.timestamp && crate::text::str_eq(
            self.app_name.as_str(),
            notification.app_name.as_str(),
        )
    }
}

/// How many rows of `width` characters a line takes (at least one).
pub open spec fn wrapped(line: Seq<char>, width: nat) -> nat {
    let n = if trim(line).len() == 0 { 1 } else { trim(line).len() };
    n / width + if n % width == 0 { 0nat } else { 1nat }
}

pub open spec fn wrapped_sum(lines: Seq<Seq<char>>, width: nat) -> nat
    decreases lines.len(),
{
    if lines.len() == 0 {
        0
    } else {
        wrapped_sum(lines.drop_last(), width) + wrapped(lines.last(), width)
    }
}

/// Rows that a text takes when wrapped at `width` characters (at least one).
pub open spec fn estimated_lines(s: Seq<char>, width: nat) -> nat {
    let total = wrapped_sum(text_lines(s), width);
    if total == 0 { 1 } else { total }
}

proof fn lemma_wrapped_sum_bound(lines: Seq<Seq<char>>, width: nat)
    requires
        width >= 1,
    ensures
        wrapped_sum(lines, width) <= pieces_total(lines),
    decreases lines.len(),
{
    if lines.len() > 0 {
        lemma_wrapped_sum_bound(lines.drop_last(), width);
        let line = lines.last();
        let n: nat = if trim(line).len() == 0 { 1 } else { trim(line).len() };
        crate::text::lemma_trim_len(line);
        assert(n / width + (if n % width == 0 { 0nat } else { 1nat }) <= n) by (nonlinear_arith)
            requires
                width >= 1,
                n >= 1,
        ;
    }
}

proof fn lemma_take_sums(lines: Seq<Seq<char>>, i: int, width: nat)
    requires
        0 <= i < lines.len(),
    ensures
        wrapped_sum(lines.take(i + 1), width) == wrapped_sum(lines.take(i), width) + wrapped(lines[i], width),
        pieces_total(lines.take(i + 1)) == pieces_total(lines.take(i)) + lines[i].len() + 1,
{
    assert(lines.take(i + 1).drop_last() =~= lines.take(i));
}

proof fn lemma_pieces_total_prefix(lines: Seq<Seq<char>>, i: int)
    requires
        0 <= i <= lines.len(),
    ensures
        pieces_total(lines.take(i)) <= pieces_total(lines),
    decreases lines.len() - i,
{
    if i < lines.len() {
        lemma_pieces_total_prefix(lines, i + 1);
        lemma_take_sums(lines, i, 1);
    } else {
        assert(lines.take(i) =~= lines);
    }
}

/// Rows of text a notification's summary and body take when wrapped at
/// `line_width` characters, at least one per line break and per text.
pub fn estimated_wrapped_lines(text: &str, line_width: usize) -> (r: u32)
    requires
        line_width > 0,
        text@.len() < 0x7fff_ffff,
    ensures
        r == estimated_lines(text@, line_width as nat),
        r <= text@.len() + 1,
{
    let chars = chars_of(text);
    let pieces = split_chars(&chars, '\n');
    proof {
        lemma_split_on(text@, '\n');
    }
    let count = if chars.len() == 0 {
        0
    } else if chars[chars.len() - 1] == '\n' {
        pieces.len() - 1
    } else {
        pieces.len()
    };
    let ghost lines = text_lines(text@);
    assert(views(pieces@).take(count as int) =~= lines);
    proof {
        lemma_pieces_total_prefix(views(pieces@), count as int);
    }
    let mut total: u64 = 0;
    let mut i: usize = 0;
    while i < count
        invariant
            i <= count <= pieces@.len(),
            lines == views(pieces@).take(count as int),
            total == wrapped_sum(lines.take(i as int), line_width as nat),
            pieces_total(lines) <= text@.len() + 1,
            text@.len() < 0x7fff_ffff,
            line_width > 0,
        decreases count - i,
    {
        let (a, b) = trim_bounds(pieces[i].as_slice());
        proof {
            assert(lines[i as int] == pieces@[i as int]@);
            lemma_take_sums(lines, i as int, line_width as nat);
            lemma_wrapped_sum_bound(lines.take(i + 1), line_width as nat);
            lemma_pieces_total_prefix(lines, i + 1);
            assert(b - a <= pieces@[i as int]@.len());
            assert(pieces@[i as int]@.len() + 1 <= pieces_total(lines));
        }
        let n: usize = if b - a == 0 { 1 } else { b - a };
        assert(n < 0x7fff_ffff);
        let rows = n / line_width + if n % line_width == 0 { 0 } else { 1 };
        total = total + rows as u64;
        i += 1;
    }
    assert(lines.take(count as int) =~= lines);
    proof {
        lemma_wrapped_sum_bound(lines, line_width as nat);
    }
    if total == 0 { 1 } else { total as u32 }
}

/// The extra height, in pixels, that an expanded notification takes beyond
/// its two collapsed lines (its application stands in for an empty text).
pub open spec fn extra_height(n: Notification) -> int {
    let summary = if trim(n.summary@).len() == 0 { n.app_name@ } else { n.summary@ };
    let body = if trim(n.body@).len() == 0 { n.app_name@ } else { n.body@ };
    let lines = estimated_lines(summary, NOTIFICATION_CHARS_PER_LINE as nat) + estimated_lines(
        body,
        NOTIFICATION_CHARS_PER_LINE as nat,
    );
    let extra = if lines < 2 { 0 } else { lines - 2 };
    if extra * NOTIFICATION_LINE_HEIGHT > u32::MAX { u32::MAX as int } else { extra * NOTIFICATION_LINE_HEIGHT }
}

pub fn notification_extra_height(notification: &Notification) -> (r: u32)
    requires
        notification.summary@.len() < 0x7fff_ffff,
        notification.body@.len() < 0x7fff_ffff,
        notification.app_name@.len() < 0x7fff_ffff,
    ensures
        r == extra_height(*notification),
{
    let summary = if trimmed_chars(notification.summary.as_str()).len() == 0 {
        notification.app_name.as_str()
    } else {
        notification.summary.as_str()
    };
    let body = if trimmed_chars(notification.body.as_str()).len() == 0 {
        notification.app_name.as_str()
    } else {
        notification.body.as_str()
    };
    let lines = estimated_wrapped_lines(summary, NOTIFICATION_CHARS_PER_LINE)
        .saturating_add(estimated_wrapped_lines(body, NOTIFICATION_CHARS_PER_LINE));
    let extra = lines.saturating_sub(2);
    if extra > u32::MAX / NOTIFICATION_LINE_HEIGHT {
        u32::MAX
    } else {
        extra * NOTIFICATION_LINE_HEIGHT
    }
}

/// How long ago a notification arrived, in its largest whole unit.
pub open spec fn relative_time(now: u64, timestamp: u64) -> Seq<char> {
    let elapsed: nat = if now >= timestamp { (now - timestamp) as nat } else { 0 };
    if elapsed <= 4 {
        "now"@
    } else if elapsed <= 59 {
        decimal(elapsed) + "s ago"@
    } else if elapsed <= 3_599 {
        decimal(elapsed / 60) + "m ago"@
    } else if elapsed <= 86_399 {
        decimal(elapsed / 3_600) + "h ago"@
    } else {
        decimal(elapsed / 86_400) + "d ago"@
    }
}

pub fn relative_notification_time(now: u64, timestamp: u64) -> (r: String)
    ensures
        r@ == relative_time(now, timestamp),
{
    let elapsed = now.saturating_sub(timestamp);
    let (amount, unit) = if elapsed <= 4 {
        return crate::text::owned("now");
    } else if elapsed <= 59 {
        (elapsed, "s ago")
    } else if elapsed <= 3_599 {
        (elapsed / 60, "m ago")
    } else if elapsed <= 86_399 {
        (elapsed / 3_600, "h ago")
    } else {
        (elapsed / 86_400, "d ago")
    };
    let mut out = decimal_chars(amount);
    append_str(&mut out, unit);
    string_of(&out)
}

/// A text on one line: its words joined by single spaces, and, past
/// `max_chars` characters, cut to one less with an ellipsis.
pub open spec fn compacted(text: Seq<char>, max_chars: nat) -> Seq<char> {
    let normalized = join(words(text), " "@);
    if normalized.len() <= max_chars {
        normalized
    } else {
        normalized.take(if max_chars == 0 { 0 } else { max_chars - 1 }).push('\u{2026}')
    }
}

pub fn compact_single_line(text: &str, max_chars: usize) -> (r: String)
    ensures
        r@ == compacted(text@, max_chars as nat),
{
    let pieces = runs_exec(&chars_of(text), false);
    let normalized = join_exec(&pieces, &chars_of(" "));
    if normalized.len() <= max_chars {
        return string_of(&normalized);
    }
    let keep = if max_chars == 0 { 0 } else { max_chars - 1 };
    let mut out: Vec<char> = Vec::new();
    let mut i: usize = 0;
    while i < keep
        invariant
            i <= keep < normalized@.len(),
            out@ == normalized@.take(i as int),
        decreases keep - i,
    {
        out.push(normalized[i]);
        i += 1;
        assert(out@ =~= normalized@.take(i as int));
    }
    out.push('\u{2026}');
    string_of(&out)
}

/// The colour of a notification's dot, fixed for each application name.
#[derive(Debug, Clone, Copy, PartialEq, Eq, Structural)]
pub enum NotificationBand {
    Accent,
    Success,
    Warning,
    Destructive,
}

pub open spec fn byte_sum(b: Seq<u8>) -> nat
    decreases b.len(),
{
    if b.len() == 0 {
        0
    } else {
        byte_sum(b.drop_last()) + b.last() as nat
    }
}

pub open spec fn band_of(app_name: Seq<char>) -> NotificationBand {
    let k = (byte_sum(vstd::utf8::encode_utf8(app_name)) % 256) % 4;
    if k == 0 {
        NotificationBand::Accent
    } else if k == 1 {
        NotificationBand::Success
    } else if k == 2 {
        NotificationBand::Warning
    } else {
        NotificationBand::Destructive
    }
}

/// The band of an application name: the sum of its UTF-8 bytes (mod 256),
/// mod 4.
pub fn notification_band(app_name: &str) -> (r: NotificationBand)
    ensures
        r == band_of(app_name@),
{
    let bytes = app_name.as_bytes_vec();
    let mut hash: u8 = 0;
    let mut i: usize = 0;
    while i < bytes.len()
        invariant
            i <= bytes@.len(),
            hash as nat == byte_sum(bytes@.take(i as int)) % 256,
        decreases bytes@.len() - i,
    {
        proof {
            assert(bytes@.take(i + 1).drop_last() =~= bytes@.take(i as int));
        }
        hash = ((hash as u16 + bytes[i] as u16) % 256) as u8;
        proof {
            let t = byte_sum(bytes@.take(i as int));
            let b = bytes@[i as int] as nat;
            assert((t % 256 + b) % 256 == (t + b) % 256) by (nonlinear_arith);
        }
        i += 1;
    }
    assert(bytes@.take(i as int) =~= bytes@);
    match hash % 4 {
        0 => NotificationBand::Accent,
        1 => NotificationBand::Success,
        2 => NotificationBand::Warning,
        _ => NotificationBand::Destructive,
    }
}

pub open spec fn weather_icon(icon: Seq<char>) -> Seq<char> {
    if icon == "01d"@ {
        "weather-clear-symbolic"@
    } else if icon == "01n"@ {
        "weather-clear-night-symbolic"@
    } else if icon == "02d"@ {
        "weather-few-clouds-symbolic"@
    } else if icon == "02n"@ {
        "weather-few-clouds-night-symbolic"@
    } else if icon == "03d"@ || icon == "03n"@ || icon == "04d"@ || icon == "04n"@ {
        "weather-overcast-symbolic"@
    } else if icon == "09d"@ || icon == "09n"@ || icon == "10d"@ || icon == "10n"@ {
        "weather-showers-symbolic"@
    } else if icon == "11d"@ || icon == "11n"@ {
        "weather-storm-symbolic"@
    } else if icon == "13d"@ || icon == "13n"@ {
        "weather-snow-symbolic"@
    } else if icon == "50d"@ || icon == "50n"@ {
        "weather-fog-symbolic"@
    } else {
        "weather-severe-alert-symbolic"@
    }
}

/// The symbolic icon for an OpenWeather-style condition code.
pub fn weather_icon_name(icon: &str) -> (r: &'static str)
    ensures
        r@ == weather_icon(icon@),
{
    let eq = |code: &str| -> (b: bool)
        ensures
            b == (icon@ == code@),
        { crate::text::str_eq(icon, code) };
    if eq("01d") {
        "weather-clear-symbolic"
    } else if eq("01n") {
        "weather-clear-night-symbolic"
    } else if eq("02d") {
        "weather-few-clouds-symbolic"
    } else if eq("02n") {
        "weather-few-clouds-night-symbolic"
    } else if eq("03d") || eq("03n") || eq("04d") || eq("04n") {
        "weather-overcast-symbolic"
    } else if eq("09d") || eq("09n") || eq("10d") || eq("10n") {
        "weather-showers-symbolic"
    } else if eq("11d") || eq("11n") {
        "weather-storm-symbolic"
    } else if eq("13d") || eq("13n") {
        "weather-snow-symbolic"
    } else if eq("50d") || eq("50n") {
        "weather-fog-symbolic"
    } else {
        "weather-severe-alert-symbolic"
    }
}

/// Where "gh" does not occur in a text, neither does "-night-".
proof fn lemma_without_gh_no_night(s: Seq<char>)
    requires
        forall|k: int| 0 <= k && k + 1 < s.len() ==> !(#[trigger] s[k] == 'g' && s[k + 1] == 'h'),
    ensures
        !crate::text::contains(s, "-night-"@),
{
    reveal_strlit("-night-");
    if crate::text::contains(s, "-night-"@) {
        let i = choose|i: int| crate::text::occurs_at(s, "-night-"@, i);
        let piece = s.subrange(i, i + 7);
        assert(piece[3] == 'g' && piece[4] == 'h');
        assert(s[i + 3] == piece[3] && s[i + 4] == piece[4]);
    }
}

/// A day condition code (one that ends in 'd') is never shown with a night
/// icon, one whose name holds "-night-"; and clear or partly clouded skies
/// get different icons by day and by night.
pub proof fn law_day_codes_never_show_night(icon: Seq<char>)
    ensures
        icon.len() > 0 && icon.last() == 'd' ==> !crate::text::contains(weather_icon(icon), "-night-"@),
        weather_icon("01d"@) != weather_icon("01n"@),
        weather_icon("02d"@) != weather_icon("02n"@),
{
    reveal_strlit("01d");
    reveal_strlit("01n");
    reveal_strlit("02d");
    reveal_strlit("02n");
    reveal_strlit("weather-clear-symbolic");
    reveal_strlit("weather-clear-night-symbolic");
    reveal_strlit("weather-few-clouds-symbolic");
    reveal_strlit("weather-few-clouds-night-symbolic");
    reveal_strlit("weather-overcast-symbolic");
    reveal_strlit("weather-showers-symbolic");
    reveal_strlit("weather-storm-symbolic");
    reveal_strlit("weather-snow-symbolic");
    reveal_strlit("weather-fog-symbolic");
    reveal_strlit("weather-severe-alert-symbolic");
    assert("weather-clear-symbolic"@.len() != "weather-clear-night-symbolic"@.len());
    assert("weather-few-clouds-symbolic"@.len() != "weather-few-clouds-night-symbolic"@.len());
    assert("01d"@[2] == 'd' && "01n"@[2] == 'n' && "02d"@[2] == 'd' && "02n"@[2] == 'n');
    assert("01d"@[1] == '1' && "01n"@[1] == '1' && "02d"@[1] == '2' && "02n"@[1] == '2');
    assert(weather_icon("01n"@) == "weather-clear-night-symbolic"@);
    assert(weather_icon("02n"@) == "weather-few-clouds-night-symbolic"@);
    if icon.len() > 0 && icon.last() == 'd' {
        assert(icon != "01n"@) by {
            if icon == "01n"@ {
                assert(icon.last() == 'n');
            }
        }
        assert(icon != "02n"@) by {
            if icon == "02n"@ {
                assert(icon.last() == 'n');
            }
        }
        let shown = weather_icon(icon);
        assert forall|k: int| 0 <= k && k + 1 < shown.len() implies !(#[trigger] shown[k] == 'g' && shown[k + 1] == 'h') by {
        }
        lemma_without_gh_no_night(shown);
    }
}

/// A three-letter day code matches a day code exactly when the same code
/// read at night matches the night code of the same condition.
proof fn lemma_code_pair(icon: Seq<char>, day: Seq<char>, night_code: Seq<char>)
    requires
        icon.len() == 3,
        icon[2] == 'd',
        day.len() == 3,
        night_code.len() == 3,
        day[2] == 'd',
        night_code[2] == 'n',
        day[0] == night_code[0],
        day[1] == night_code[1],
    ensures
        (icon == day) <==> (icon.update(2, 'n') == night_code),
        icon != night_code,
        icon.update(2, 'n') != day,
{
    let night = icon.update(2, 'n');
    if icon == day {
        assert(night =~= night_code);
    }
    if night == night_code {
        assert(icon =~= day);
    }
    if icon == night_code {
        assert(icon[2] == night_code[2]);
    }
    if night == day {
        assert(night[2] == day[2]);
    }
}

/// The day and the night code of one condition get the same icon, except
/// for clear and partly clouded skies (codes 01 and 02): a code "XYd" is shown
/// as "XYn" is. A code that is neither a day nor a night code is shown as a
/// severe alert.
pub proof fn law_day_and_night_share_icons(icon: Seq<char>)
    ensures
        icon.len() == 3 && icon[2] == 'd' && !(icon[0] == '0' && (icon[1] == '1' || icon[1] == '2'))
            ==> weather_icon(icon) == weather_icon(icon.update(2, 'n')),
        icon.len() == 0 || (icon.last() != 'd' && icon.last() != 'n')
            ==> weather_icon(icon) == "weather-severe-alert-symbolic"@,
{
    reveal_strlit("01d");
    reveal_strlit("01n");
    reveal_strlit("02d");
    reveal_strlit("02n");
    reveal_strlit("03d");
    reveal_strlit("03n");
    reveal_strlit("04d");
    reveal_strlit("04n");
    reveal_strlit("09d");
    reveal_strlit("09n");
    reveal_strlit("10d");
    reveal_strlit("10n");
    reveal_strlit("11d");
    reveal_strlit("11n");
    reveal_strlit("13d");
    reveal_strlit("13n");
    reveal_strlit("50d");
    reveal_strlit("50n");
    if icon.len() == 3 && icon[2] == 'd' && !(icon[0] == '0' && (icon[1] == '1' || icon[1] == '2')) {
        lemma_code_pair(icon, "03d"@, "03n"@);
        lemma_code_pair(icon, "04d"@, "04n"@);
        lemma_code_pair(icon, "09d"@, "09n"@);
        lemma_code_pair(icon, "10d"@, "10n"@);
        lemma_code_pair(icon, "11d"@, "11n"@);
        lemma_code_pair(icon, "13d"@, "13n"@);
        lemma_code_pair(icon, "50d"@, "50n"@);
        lemma_code_pair(icon, "01d"@, "01n"@);
        lemma_code_pair(icon, "02d"@, "02n"@);
    }
    if icon.len() == 0 || (icon.last() != 'd' && icon.last() != 'n') {
        assert("01d"@[2] == 'd');
        assert("01n"@[2] == 'n');
        assert("02d"@[2] == 'd');
        assert("02n"@[2] == 'n');
        assert("03d"@[2] == 'd');
        assert("03n"@[2] == 'n');
        assert("04d"@[2] == 'd');
        assert("04n"@[2] == 'n');
        assert("09d"@[2] == 'd');
        assert("09n"@[2] == 'n');
        assert("10d"@[2] == 'd');
        assert("10n"@[2] == 'n');
        assert("11d"@[2] == 'd');
        assert("11n"@[2] == 'n');
        assert("13d"@[2] == 'd');
        assert("13n"@[2] == 'n');
        assert("50d"@[2] == 'd');
        assert("50n"@[2] == 'n');
    }
}

/// The colour band of a battery level.
#[derive(Debug, Clone, Copy, PartialEq, Eq, Structural)]
pub enum BatteryBand {
    Success,
    Warning,
    Destructive,
    /// A remembered reading that is not confirmed yet.
    Cached,
    Unavailable,
}

pub fn battery_band(level: u8) -> (r: BatteryBand)
    ensures
        r == if level <= 15 {
            BatteryBand::Destructive
        } else if level <= 30 {
            BatteryBand::Warning
        } else {
            BatteryBand::Success
        },
{
    if level <= 15 {
        BatteryBand::Destructive
    } else if level <= 30 {
        BatteryBand::Warning
    } else {
        BatteryBand::Success
    }
}

/// The icon step (in percent) nearest to a battery level.
pub open spec fn icon_step(level: u8) -> nat {
    let l = if level > 100 { 100 } else { level };
    if l <= 2 {
        0
    } else if l <= 7 {
        5
    } else if l <= 15 {
        10
    } else if l <= 27 {
        20
    } else if l <= 42 {
        35
    } else if l <= 57 {
        50
    } else if l <= 72 {
        65
    } else if l <= 85 {
        80
    } else if l <= 95 {
        90
    } else {
        100
    }
}

pub open spec fn battery_icon(level: u8, charging: bool) -> Seq<char> {
    "cosmic-applet-battery-level-"@ + decimal(icon_step(level)) + (if charging {
        "-charging"@
    } else {
        ""@
    }) + "-symbolic"@
}

/// The icon steps that battery icons exist for.
pub open spec fn is_icon_step(step: int) -> bool {
    step == 0 || step == 5 || step == 10 || step == 20 || step == 35 || step == 50 || step == 65
        || step == 80 || step == 90 || step == 100
}

/// A battery icon shows the step nearest to the level (the lower step on a
/// tie; full above 100%), and the charging icon of a level differs from the
/// one shown while discharging.
pub proof fn law_battery_icon_nearest_step(level: u8, step: int)
    requires
        is_icon_step(step),
    ensures
        is_icon_step(icon_step(level) as int),
        level <= 100 ==> {
            let d = icon_step(level) - level;
            let e = step - level;
            &&& (if d >= 0 { d } else { -d }) <= (if e >= 0 { e } else { -e })
            &&& (if d >= 0 { d } else { -d }) == (if e >= 0 { e } else { -e }) ==> icon_step(level) <= step
        },
        level > 100 ==> icon_step(level) == 100,
        battery_icon(level, true) != battery_icon(level, false),
{
    reveal_strlit("-charging");
    reveal_strlit("");
    assert(battery_icon(level, true).len() == battery_icon(level, false).len() + 9);
}

pub fn battery_icon_name(level: u8, charging: bool) -> (r: String)
    ensures
        r@ == battery_icon(level, charging),
{
    let l = if level > 100 { 100 } else { level };
    let step: u64 = if l <= 2 {
        0
    } else if l <= 7 {
        5
    } else if l <= 15 {
        10
    } else if l <= 27 {
        20
    } else if l <= 42 {
        35
    } else if l <= 57 {
        50
    } else if l <= 72 {
        65
    } else if l <= 85 {
        80
    } else if l <= 95 {
        90
    } else {
        100
    };
    let mut out: Vec<char> = chars_of("cosmic-applet-battery-level-");
    append_chars(&mut out, &decimal_chars(step));
    if charging {
        append_str(&mut out, "-charging");
    } else {
        append_str(&mut out, "");
    }
    append_str(&mut out, "-symbolic");
    string_of(&out)
}

/// Whether a power status says the battery is charging (in any case).
pub open spec fn charging_status(status: Option<Seq<char>>) -> bool {
    status matches Some(s) && (starts_with(lower(s), "charging"@) || starts_with(
        lower(s),
        "recharging"@,
    ))
}

pub fn is_charging(status: Option<&str>) -> (r: bool)
    ensures
        r == charging_status(match status {
            Some(s) => Some(s@),
            None => None,
        }),
{
    match status {
        Some(s) => {
            let lowered = lower_chars(&chars_of(s));
            starts_with_str(&lowered, "charging") || starts_with_str(&lowered, "recharging")
        },
        None => false,
    }
}

/// A media position as minutes and two-digit seconds.
pub fn format_media_time(milliseconds: u64) -> (r: String)
    ensures
        r@ == decimal((milliseconds / 1000 / 60) as nat) + ":"@ + decimal2((milliseconds / 1000 % 60) as nat),
{
    let seconds = milliseconds / 1_000;
    let mut out = decimal_chars(seconds / 60);
    append_str(&mut out, ":");
    let s = seconds % 60;
    if s < 10 {
        out.push('0');
        out.push(crate::text::digit(s));
        proof {
            assert(decimal2(s as nat) =~= seq!['0', crate::text::digit_char(s as nat)]);
        }
    } else {
        append_chars(&mut out, &decimal_chars(s));
    }
    string_of(&out)
}

/// Whether the utilisation section has anything to show.
pub fn show_utilization(config: &Config) -> (r: bool)
    ensures
        r == (config.show_cpu || config.show_memory || config.show_gpu),
{
    config.show_cpu || config.show_memory || config.show_gpu
}

/// Whether the temperature section has anything to show.
pub fn show_temperatures(config: &Config) -> (r: bool)
    ensures
        r == (config.show_cpu_temp || config.show_gpu_temp),
{
    config.show_cpu_temp || config.show_gpu_temp
}

/// Which line of the media panel a marquee draws.
#[derive(Debug, Clone, Copy, PartialEq, Eq, Structural)]
pub enum MarqueeKind {
    Title,
    Subtitle,
}

/// A line of text that scrolls when it does not fit.
pub struct Marquee {
    pub title: String,
    pub kind: MarqueeKind,
}

impl Marquee {
    pub fn new(title: &str, kind: MarqueeKind) -> (r: Marquee)
        ensures
            r.title@ == trim(title@),
            r.kind == kind,
    {
        Marquee { title: crate::text::trim_string(title), kind }
    }
}

// ---------------------------------------------------------------------------
// Notification groups
// ---------------------------------------------------------------------------

/// How many notifications of a list are shown in the group `x`.
pub open spec fn source_count(s: Seq<Notification>, x: Seq<char>) -> nat
    decreases s.len(),
{
    if s.len() == 0 {
        0
    } else {
        source_count(s.drop_last(), x) + if source_of(s.last()) == x { 1nat } else { 0nat }
    }
}

proof fn lemma_source_count_take(s: Seq<Notification>, i: int, x: Seq<char>)
    requires
        0 <= i < s.len(),
    ensures
        source_count(s.take(i + 1), x) == source_count(s.take(i), x) + if source_of(s[i]) == x {
            1nat
        } else {
            0nat
        },
{
    assert(s.take(i + 1).drop_last() =~= s.take(i));
}

proof fn lemma_source_count_absent(s: Seq<Notification>, x: Seq<char>)
    requires
        forall|i: int| 0 <= i < s.len() ==> source_of(#[trigger] s[i]) != x,
    ensures
        source_count(s, x) == 0,
    decreases s.len(),
{
    if s.len() > 0 {
        lemma_source_count_absent(s.drop_last(), x);
    }
}

proof fn lemma_source_count_bound(s: Seq<Notification>, x: Seq<char>)
    ensures
        source_count(s, x) <= s.len(),
    decreases s.len(),
{
    if s.len() > 0 {
        lemma_source_count_bound(s.drop_last(), x);
    }
}

/// The size of the group `source` in a list.
pub fn notification_group_size(notifications: &[Notification], source: &str) -> (r: usize)
    ensures
        r == source_count(notifications@, source@),
{
    let mut count: usize = 0;
    let mut i: usize = 0;
    while i < notifications.len()
        invariant
            i <= notifications@.len(),
            count == source_count(notifications@.take(i as int), source@),
        decreases notifications@.len() - i,
    {
        proof {
            lemma_source_count_take(notifications@, i as int, source@);
            lemma_source_count_bound(notifications@.take(i as int), source@);
        }
        let x = notification_source(&notifications[i]);
        if crate::text::str_eq(x.as_str(), source) {
            count += 1;
        }
        i += 1;
    }
    assert(notifications@.take(i as int) =~= notifications@);
    count
}

/// The notifications of one source, by their indices in the list.
#[derive(Debug, Clone, PartialEq, Eq)]
pub struct NotificationGroup {
    pub source: String,
    pub members: Vec<usize>,
}

/// `g` are the groups of `s`: one per source, in the order in which sources
/// first appear, each with the indices of its notifications in order.
pub open spec fn groups_of(s: Seq<Notification>, srcs: Seq<Seq<char>>, mems: Seq<Seq<usize>>) -> bool {
    &&& srcs.len() == mems.len()
    &&& forall|a: int| 0 <= a < mems.len() ==> #[trigger] mems[a].len() > 0 && mems[a].len() == source_count(s, srcs[a])
    &&& forall|a: int, k: int|
        0 <= a < mems.len() && 0 <= k < mems[a].len() ==> #[trigger] mems[a][k] < s.len() && source_of(
            s[mems[a][k] as int],
        ) == srcs[a]
    &&& forall|a: int, k1: int, k2: int|
        0 <= a < mems.len() && 0 <= k1 < k2 < mems[a].len() ==> #[trigger] mems[a][k1] < #[trigger] mems[a][k2]
    &&& forall|a: int, b: int| 0 <= a < b < srcs.len() ==> #[trigger] srcs[a] != #[trigger] srcs[b]
    &&& forall|a: int, b: int| 0 <= a < b < mems.len() ==> #[trigger] mems[a][0] < #[trigger] mems[b][0]
    &&& forall|i: int| 0 <= i < s.len() ==> exists|a: int| 0 <= a < srcs.len() && #[trigger] srcs[a] == source_of(#[trigger] s[i])
}

pub open spec fn group_sources(g: Seq<NotificationGroup>) -> Seq<Seq<char>> {
    Seq::new(g.len(), |a: int| g[a].source@)
}

pub open spec fn group_members(g: Seq<NotificationGroup>) -> Seq<Seq<usize>> {
    Seq::new(g.len(), |a: int| g[a].members@)
}

fn pushed(v: &Vec<usize>, x: usize) -> (r: Vec<usize>)
    ensures
        r@ == v@.push(x),
{
    let mut r: Vec<usize> = Vec::new();
    let mut i: usize = 0;
    while i < v.len()
        invariant
            i <= v@.len(),
            r@ == v@.take(i as int),
        decreases v@.len() - i,
    {
        r.push(v[i]);
        i += 1;
        assert(r@ =~= v@.take(i as int));
    }
    assert(v@.take(i as int) =~= v@);
    r.push(x);
    r
}

/// Groups notifications by source, in the order in which sources first appear.
pub fn notification_groups(notifications: &[Notification]) -> (r: Vec<NotificationGroup>)
    ensures
        groups_of(notifications@, group_sources(r@), group_members(r@)),
{
    let ghost s = notifications@;
    let mut sources: Vec<String> = Vec::new();
    let mut members: Vec<Vec<usize>> = Vec::new();
    let mut i: usize = 0;
    while i < notifications.len()
        invariant
            s == notifications@,
            i <= s.len(),
            groups_of(s.take(i as int), crate::text::string_views(sources@), members@.map_values(|m: Vec<usize>| m@)),
        decreases s.len() - i,
    {
        let ghost t = s.take(i as int);
        let ghost u = s.take(i + 1);
        let ghost srcs = crate::text::string_views(sources@);
        let ghost mems = members@.map_values(|m: Vec<usize>| m@);
        assert forall|k: int| 0 <= k < i implies u[k] == t[k] by {}
        let x = notification_source(&notifications[i]);
        let mut found: Option<usize> = None;
        let mut a: usize = 0;
        while a < sources.len()
            invariant
                a <= sources@.len(),
                found matches Some(f) ==> f < sources@.len() && sources@[f as int]@ == x@,
                found is None ==> forall|b: int| 0 <= b < a ==> sources@[b]@ != x@,
            decreases sources@.len() - a,
        {
            if found.is_none() && crate::text::str_eq(sources[a].as_str(), x.as_str()) {
                found = Some(a);
            }
            a += 1;
        }
        match found {
            Some(f) => {
                let grown = pushed(&members[f], i);
                members.set(f, grown);
                proof {
                    let mems2 = members@.map_values(|m: Vec<usize>| m@);
                    assert(srcs[f as int] == x@);
                    assert forall|b: int| 0 <= b < mems2.len() implies #[trigger] mems2[b].len() > 0
                        && mems2[b].len() == source_count(u, srcs[b]) by {
                        lemma_source_count_take(s, i as int, srcs[b]);
                        assert(s.take(i as int) == t);
                        if b != f {
                            assert(mems2[b] == mems[b]);
                        }
                    }
                    assert forall|b: int, k: int|
                        0 <= b < mems2.len() && 0 <= k < mems2[b].len() implies #[trigger] mems2[b][k] < u.len()
                        && source_of(u[mems2[b][k] as int]) == srcs[b] by {
                        if b != f || k < mems[b].len() {
                            assert(mems2[b][k] == mems[b][k]);
                        }
                    }
                    assert forall|b: int, k1: int, k2: int|
                        0 <= b < mems2.len() && 0 <= k1 < k2 < mems2[b].len() implies #[trigger] mems2[b][k1]
                        < #[trigger] mems2[b][k2] by {
                        if b != f || k2 < mems[b].len() {
                            assert(mems2[b][k1] == mems[b][k1]);
                            assert(mems2[b][k2] == mems[b][k2]);
                        } else {
                            assert(mems2[b][k1] == mems[b][k1]);
                        }
                    }
                    assert forall|b: int, c: int| 0 <= b < c < mems2.len() implies #[trigger] mems2[b][0]
                        < #[trigger] mems2[c][0] by {
                        assert(mems2[b][0] == mems[b][0]);
                        assert(mems2[c][0] == mems[c][0]);
                    }
                    assert forall|j: int| 0 <= j < u.len() implies exists|b: int|
                        0 <= b < srcs.len() && #[trigger] srcs[b] == source_of(#[trigger] u[j]) by {
                        if j == i {
                            assert(srcs[f as int] == source_of(u[j]));
                        } else {
                            assert(u[j] == t[j]);
                        }
                    }
                }
            },
            None => {
                let ghost x_view = x@;
                sources.push(x);
                let mut one: Vec<usize> = Vec::new();
                one.push(i);
                members.push(one);
                proof {
                    let srcs2 = crate::text::string_views(sources@);
                    let mems2 = members@.map_values(|m: Vec<usize>| m@);
                    assert(srcs2 =~= srcs.push(x_view));
                    assert(mems2 =~= mems.push(seq![i]));
                    assert forall|j: int| 0 <= j < t.len() implies source_of(#[trigger] t[j]) != x_view by {
                        let b = choose|b: int| 0 <= b < srcs.len() && #[trigger] srcs[b] == source_of(t[j]);
                        assert(sources@[b]@ != x_view);
                    }
                    lemma_source_count_absent(t, x_view);
                    assert forall|b: int| 0 <= b < mems2.len() implies #[trigger] mems2[b].len() > 0
                        && mems2[b].len() == source_count(u, srcs2[b]) by {
                        lemma_source_count_take(s, i as int, srcs2[b]);
                        assert(s.take(i as int) == t);
                    }
                    assert forall|b: int, k: int|
                        0 <= b < mems2.len() && 0 <= k < mems2[b].len() implies #[trigger] mems2[b][k] < u.len()
                        && source_of(u[mems2[b][k] as int]) == srcs2[b] by {
                        if b < mems.len() {
                            assert(mems2[b][k] == mems[b][k]);
                        }
                    }
                    assert forall|b: int, c: int| 0 <= b < c < srcs2.len() implies #[trigger] srcs2[b]
                        != #[trigger] srcs2[c] by {
                        if c == srcs.len() {
                            assert(sources@[b]@ != x_view);
                        }
                    }
                    assert forall|b: int, c: int| 0 <= b < c < mems2.len() implies #[trigger] mems2[b][0]
                        < #[trigger] mems2[c][0] by {
                        if c == mems.len() {
                            assert(mems[b][0] < t.len());
                        }
                    }
                    assert forall|j: int| 0 <= j < u.len() implies exists|b: int|
                        0 <= b < srcs2.len() && #[trigger] srcs2[b] == source_of(#[trigger] u[j]) by {
                        if j == i {
                            assert(srcs2[srcs.len() as int] == source_of(u[j]));
                        } else {
                            assert(u[j] == t[j]);
                            let b = choose|b: int| 0 <= b < srcs.len() && #[trigger] srcs[b] == source_of(t[j]);
                            assert(srcs2[b] == srcs[b]);
                        }
                    }
                }
            },
        }
        i += 1;
    }
    assert(s.take(i as int) =~= s);
    let mut groups: Vec<NotificationGroup> = Vec::new();
    let ghost srcs = crate::text::string_views(sources@);
    let ghost mems = members@.map_values(|m: Vec<usize>| m@);
    let mut sources = sources;
    let mut members = members;
    while sources.len() > 0
        invariant
            sources@.len() == members@.len(),
            groups@.len() + sources@.len() == srcs.len(),
            srcs.len() == mems.len(),
            forall|a: int| 0 <= a < groups@.len() ==> #[trigger] groups@[a].source@ == srcs[a]
                && groups@[a].members@ == mems[a],
            forall|a: int| 0 <= a < sources@.len() ==> #[trigger] sources@[a]@ == srcs[groups@.len() + a]
                && members@[a]@ == mems[groups@.len() + a],
        decreases sources@.len(),
    {
        let source = sources.remove(0);
        let m = members.remove(0);
        groups.push(NotificationGroup { source, members: m });
    }
    assert(group_sources(groups@) =~= srcs);
    assert forall|a: int| 0 <= a < groups@.len() implies group_members(groups@)[a] == mems[a] by {
        assert(groups@[a].source@ == srcs[a]);
    }
    assert(group_members(groups@) =~= mems);
    groups
}

/// The sources of a list's notifications.
pub open spec fn distinct_sources(s: Seq<Notification>) -> Set<Seq<char>> {
    Set::new(|x: Seq<char>| exists|i: int| 0 <= i < s.len() && source_of(s[i]) == x)
}

/// Rows the notification list takes: one per source, and, for the expanded
/// group when it holds several, one per notification besides.
pub open spec fn display_rows(s: Seq<Notification>, expanded: Option<Seq<char>>) -> int {
    distinct_sources(s).len() + match expanded {
        Some(e) => if source_count(s, e) > 1 { source_count(s, e) as int } else { 0 },
        None => 0,
    }
}

proof fn lemma_first_members_grow(mems: Seq<Seq<usize>>, a: int)
    requires
        0 <= a < mems.len(),
        forall|x: int| 0 <= x < mems.len() ==> #[trigger] mems[x].len() > 0,
        forall|x: int, y: int| 0 <= x < y < mems.len() ==> #[trigger] mems[x][0] < #[trigger] mems[y][0],
    ensures
        mems[a][0] >= a,
    decreases a,
{
    if a > 0 {
        lemma_first_members_grow(mems, a - 1);
        assert(mems[a - 1][0] < mems[a][0]);
    }
}

/// The sources of the groups are the distinct sources, each once.
proof fn lemma_groups_cover(s: Seq<Notification>, srcs: Seq<Seq<char>>, mems: Seq<Seq<usize>>)
    requires
        groups_of(s, srcs, mems),
    ensures
        srcs.to_set() == distinct_sources(s),
        srcs.no_duplicates(),
        srcs.to_set().len() == srcs.len(),
        srcs.len() <= s.len(),
{
    assert forall|x: Seq<char>| srcs.to_set().contains(x) <==> distinct_sources(s).contains(x) by {
        if srcs.contains(x) {
            let a = choose|a: int| 0 <= a < srcs.len() && srcs[a] == x;
            assert(mems[a].len() > 0);
            assert(mems[a][0] < s.len() && source_of(s[mems[a][0] as int]) == srcs[a]);
        }
        if distinct_sources(s).contains(x) {
            let i = choose|i: int| 0 <= i < s.len() && source_of(s[i]) == x;
            let a = choose|a: int| 0 <= a < srcs.len() && #[trigger] srcs[a] == source_of(s[i]);
            assert(srcs[a] == x);
        }
    }
    assert(srcs.to_set() =~= distinct_sources(s));
    assert forall|a: int, b: int| 0 <= a < srcs.len() && 0 <= b < srcs.len() && a != b implies srcs[a] != srcs[b] by {
        if a < b {
            assert(srcs[a] != srcs[b]);
        } else {
            assert(srcs[b] != srcs[a]);
        }
    }
    srcs.unique_seq_to_set();
    if srcs.len() > 0 {
        lemma_first_members_grow(mems, srcs.len() - 1);
        assert(mems[srcs.len() - 1].len() > 0);
        assert(mems[srcs.len() - 1][0] < s.len());
    }
}

pub fn notification_display_rows(notifications: &[Notification], expanded_group: Option<&str>) -> (r: u32)
    requires
        notifications@.len() < 0x7fff_ffff,
    ensures
        r == display_rows(notifications@, match expanded_group {
            Some(e) => Some(e@),
            None => None,
        }),
{
    let ghost s = notifications@;
    let ghost e = match expanded_group {
        Some(e) => Some(e@),
        None => None,
    };
    let groups = notification_groups(notifications);
    let ghost srcs = group_sources(groups@);
    let ghost mems = group_members(groups@);
    proof {
        lemma_groups_cover(s, srcs, mems);
    }
    let mut rows: u64 = 0;
    let mut a: usize = 0;
    while a < groups.len()
        invariant
            a <= groups@.len(),
            srcs == group_sources(groups@),
            mems == group_members(groups@),
            groups_of(s, srcs, mems),
            srcs.len() <= s.len() < 0x7fff_ffff,
            e == match expanded_group {
                Some(x) => Some(x@),
                None => None,
            },
            rows <= a + s.len(),
            rows == a + if e matches Some(x) && (exists|b: int| 0 <= b < a && #[trigger] srcs[b] == x)
                && source_count(s, x) > 1 {
                source_count(s, e->0) as int
            } else {
                0
            },
        decreases groups@.len() - a,
    {
        let g = &groups[a];
        let count = g.members.len();
        proof {
            assert(srcs[a as int] == g.source@);
            assert(mems[a as int] == g.members@);
            assert(mems[a as int].len() == source_count(s, srcs[a as int]));
            lemma_source_count_bound(s, srcs[a as int]);
            if let Some(x) = e {
                lemma_source_count_bound(s, x);
            }
        }
        let hit = match expanded_group {
            Some(x) => count > 1 && crate::text::str_eq(g.source.as_str(), x),
            None => false,
        };
        proof {
            if let Some(x) = e {
                if exists|b: int| 0 <= b < a && #[trigger] srcs[b] == x {
                    let b = choose|b: int| 0 <= b < a && #[trigger] srcs[b] == x;
                    if srcs[a as int] == x {
                        assert(srcs[b] != srcs[a as int]);
                    }
                }
            }
        }
        if hit {
            rows = rows + count as u64 + 1;
        } else {
            rows = rows + 1;
        }
        proof {
            if let Some(x) = e {
                if srcs[a as int] == x {
                    assert(exists|b: int| 0 <= b < a + 1 && #[trigger] srcs[b] == x);
                }
                if exists|b: int| 0 <= b < a + 1 && #[trigger] srcs[b] == x {
                    let b = choose|b: int| 0 <= b < a + 1 && #[trigger] srcs[b] == x;
                    if b < a {
                        assert(exists|b2: int| 0 <= b2 < a && #[trigger] srcs[b2] == x);
                    }
                }
            }
        }
        a += 1;
    }
    proof {
        if let Some(x) = e {
            if !(exists|b: int| 0 <= b < srcs.len() && #[trigger] srcs[b] == x) {
                assert forall|i: int| 0 <= i < s.len() implies source_of(#[trigger] s[i]) != x by {
                    let b = choose|b: int| 0 <= b < srcs.len() && #[trigger] srcs[b] == source_of(s[i]);
                }
                lemma_source_count_absent(s, x);
            }
        }
        assert(a == srcs.len());
        assert(distinct_sources(s).len() == srcs.len());
        assert(rows == display_rows(s, e));
    }
    rows as u32
}


/// The line under a track's title: artist and album, whichever there are,
/// or else the player's name; on one line.
pub open spec fn subtitle_of(info: crate::media::MediaInfo) -> Seq<char> {
    let artist = crate::text::trim(info.artist@);
    let album = crate::text::trim(info.album@);
    let line = if artist.len() == 0 && album.len() == 0 {
        info.player_name@
    } else if album.len() == 0 {
        artist
    } else if artist.len() == 0 {
        album
    } else {
        artist + " - "@ + album
    };
    compacted(line, usize::MAX as nat)
}

pub fn media_subtitle(info: &crate::media::MediaInfo) -> (r: String)
    ensures
        r@ == subtitle_of(*info),
{
    let artist = crate::text::trimmed_chars(info.artist.as_str());
    let album = crate::text::trimmed_chars(info.album.as_str());
    let line: Vec<char> = if artist.len() == 0 && album.len() == 0 {
        chars_of(info.player_name.as_str())
    } else if album.len() == 0 {
        artist
    } else if artist.len() == 0 {
        album
    } else {
        let mut v = artist;
        crate::text::append_str(&mut v, " - ");
        crate::text::append_chars(&mut v, &album);
        v
    };
    compact_single_line(crate::text::string_of(&line).as_str(), usize::MAX)
}


/// A play/pause command that the widget shows before the player confirms it.
pub struct PendingPlayback {
    pub player_id: crate::media::PlayerId,
    pub status: crate::media::PlaybackStatus,
    /// When the shown status stops overriding the player's, in milliseconds.
    pub expires_at: u64,
}

/// Whether entry `e` is the pending command's player.
pub open spec fn pending_target(id: crate::media::PlayerId) -> spec_fn((crate::media::PlayerId, crate::media::MediaInfo)) -> bool {
    |e: (crate::media::PlayerId, crate::media::MediaInfo)| crate::media::same_player(e.0, id)
}

/// Shows a pending command's status on its player until the command
/// expires; an expired command is forgotten.
pub fn reconcile_media_state(
    state: &mut crate::media::MultiPlayerState,
    pending: &mut Option<PendingPlayback>,
    now: u64,
)
    ensures
        final(state).current_index == old(state).current_index,
        *final(pending) == match *old(pending) {
            Some(p) => if p.expires_at <= now { None } else { Some(p) },
            None => None,
        },
        match *final(pending) {
            Some(p) => {
                let j = crate::text::first_match(old(state).players@, pending_target(p.player_id));
                &&& j >= 0 ==> final(state).players@ == old(state).players@.update(
                    j,
                    (old(state).players@[j].0, crate::media::MediaInfo { status: p.status, ..old(state).players@[j].1 }),
                )
                &&& j < 0 ==> final(state).players@ == old(state).players@
            },
            None => final(state).players@ == old(state).players@,
        },
{
    let expired = match pending {
        Some(p) => p.expires_at <= now,
        None => false,
    };
    if expired {
        *pending = None;
    }
    let (target_id, status) = match &*pending {
        Some(p) => (p.player_id.copy(), p.status),
        None => {
            return;
        },
    };
    let ghost target = pending_target(target_id);
    let ghost kept = *pending;
    let mut i: usize = 0;
    while i < state.players.len()
        invariant
            *pending == kept,
            kept matches Some(p) && p.player_id == target_id && p.status == status,
            kept == match *old(pending) {
                Some(p) => if p.expires_at <= now { None } else { Some(p) },
                None => None,
            },
            i <= state.players@.len(),
            state.players@ == old(state).players@,
            state.current_index == old(state).current_index,
            target == pending_target(target_id),
            forall|j: int| 0 <= j < i ==> !target(#[trigger] state.players@[j]),
        decreases state.players@.len() - i,
    {
        if state.players[i].0.same(&target_id) {
            proof {
                crate::text::lemma_first_match(state.players@, target, i as int);
            }
            let (id, mut info) = state.players.remove(i);
            info.status = status;
            state.players.insert(i, (id, info));
            assert(state.players@ =~= old(state).players@.update(
                i as int,
                (old(state).players@[i as int].0, crate::media::MediaInfo { status, ..old(state).players@[i as int].1 }),
            ));
            return;
        }
        i += 1;
    }
    proof {
        crate::text::lemma_first_match(state.players@, target, state.players@.len() as int);
    }
}


/// How long a play/pause command's status is shown before the player must
/// confirm it, in milliseconds.
pub const MEDIA_CONTROL_GRACE_MS: u64 = 2000;

/// The status a play/pause command asks for: pause what plays, play the rest.
pub open spec fn toggled(status: crate::media::PlaybackStatus) -> crate::media::PlaybackStatus {
    if status == crate::media::PlaybackStatus::Playing {
        crate::media::PlaybackStatus::Paused
    } else {
        crate::media::PlaybackStatus::Playing
    }
}

/// The status to show after play/pause on the shown player, until `now`
/// plus the grace period.
pub fn pending_playback_for(state: &crate::media::MultiPlayerState, now: u64) -> (r: Option<PendingPlayback>)
    requires
        now + MEDIA_CONTROL_GRACE_MS <= u64::MAX,
    ensures
        state.current_index < state.players@.len() ==> (r matches Some(p) && ({
            let shown = state.players@[state.current_index as int];
            &&& p.player_id == shown.0
            &&& p.status == toggled(shown.1.status)
            &&& p.expires_at == now + MEDIA_CONTROL_GRACE_MS
        })),
        state.current_index >= state.players@.len() ==> r is None,
{
    match state.current_player() {
        Some((id, info)) => {
            let status = match info.status {
                crate::media::PlaybackStatus::Playing => crate::media::PlaybackStatus::Paused,
                _ => crate::media::PlaybackStatus::Playing,
            };
            Some(PendingPlayback { player_id: id.copy(), status, expires_at: now + MEDIA_CONTROL_GRACE_MS })
        },
        None => None,
    }
}

pub open spec fn key_present(notifications: Seq<Notification>, key: NotificationKey) -> bool {
    exists|i: int| 0 <= i < notifications.len() && #[trigger] notifications[i].app_name@ == key.app_name@
        && notifications[i].timestamp == key.timestamp
}

/// After new notifications arrive: an expanded notification that is gone
/// collapses, and so does an expanded group with fewer than two members.
/// Returns whether each collapsed.
pub fn reconcile_expansions(
    notifications: &[Notification],
    expanded: &mut Option<NotificationKey>,
    expanded_group: &mut Option<String>,
) -> (collapsed: (bool, bool))
    ensures
        collapsed.0 == (*old(expanded) matches Some(k) && !key_present(notifications@, k)),
        *final(expanded) == if collapsed.0 { None } else { *old(expanded) },
        collapsed.1 == (*old(expanded_group) matches Some(g) && source_count(notifications@, g@) < 2),
        *final(expanded_group) == if collapsed.1 { None } else { *old(expanded_group) },
{
    let gone = match &*expanded {
        Some(key) => {
            let mut found = false;
            let mut i: usize = 0;
            while i < notifications.len()
                invariant
                    i <= notifications@.len(),
                    found == exists|j: int| 0 <= j < i && #[trigger] notifications@[j].app_name@ == key.app_name@
                        && notifications@[j].timestamp == key.timestamp,
                decreases notifications@.len() - i,
            {
                if key.matches(&notifications[i]) {
                    found = true;
                }
                i += 1;
            }
            !found
        },
        None => false,
    };
    if gone {
        *expanded = None;
    }
    let small = match &*expanded_group {
        Some(source) => notification_group_size(notifications, source.as_str()) < 2,
        None => false,
    };
    if small {
        *expanded_group = None;
    }
    (gone, small)
}

// ---------------------------------------------------------------------------
// Surface height
// ---------------------------------------------------------------------------

pub const BASE_SURFACE_HEIGHT: u32 = 556;
pub const EMPTY_STORAGE_HEIGHT: u32 = 63;
pub const STORAGE_SECTION_HEIGHT: u32 = 38;
pub const STORAGE_ITEM_HEIGHT: u32 = 62;
pub const EMPTY_DEVICES_HEIGHT: u32 = 83;
pub const DEVICES_SECTION_HEIGHT: u32 = 54;
pub const DEVICE_ITEM_HEIGHT: u32 = 33;
pub const EMPTY_WEATHER_HEIGHT: u32 = 83;
pub const WEATHER_SECTION_HEIGHT: u32 = 154;
pub const EMPTY_NOTIFICATIONS_HEIGHT: u32 = 83;
pub const NOTIFICATIONS_SECTION_HEIGHT: u32 = 65;
pub const NOTIFICATION_ITEM_HEIGHT: u32 = 47;
pub const MAX_VISIBLE_NOTIFICATION_ROWS: u32 = 4;
pub const EMPTY_MEDIA_HEIGHT: u32 = 83;
pub const MEDIA_SECTION_HEIGHT: u32 = 248;
/// Heights below 2^24 pixels, where the overlay's `f32` sum of the sections
/// is exact.
pub const EXACT_HEIGHT_LIMIT: u32 = 0x100_0000;

/// Whether a section is on screen: switched on and placed in the order.
pub open spec fn shown(on: bool, order: Seq<WidgetSection>, section: WidgetSection) -> bool {
    on && order.contains(section)
}

pub open spec fn keyed(app_name: Seq<char>, timestamp: u64) -> spec_fn(Notification) -> bool {
    |n: Notification| n.app_name@ == app_name && n.timestamp == timestamp
}

/// The index of the notification that a key selects, or -1.
pub open spec fn selected_index(s: Seq<Notification>, key: Option<(Seq<char>, u64)>) -> int {
    match key {
        Some(k) => crate::text::first_match(s, keyed(k.0, k.1)),
        None => -1,
    }
}

/// The height of the notification list once a transition has settled: one
/// row per source, the rows of the expanded group, and the extra lines of the
/// selected notification (when its group holds several, only while that
/// group is expanded), at most four rows.
pub open spec fn viewport_height(s: Seq<Notification>, key: Option<(Seq<char>, u64)>, group: Option<Seq<char>>) -> int {
    let group_rows = match group {
        Some(g) => source_count(s, g) as int,
        None => 0,
    };
    let i = selected_index(s, key);
    let extra = if i < 0 || (source_count(s, source_of(s[i])) > 1 && group is None) {
        0
    } else {
        extra_height(s[i])
    };
    let content = NOTIFICATION_ITEM_HEIGHT * (display_rows(s, None) + group_rows) + extra;
    let cap = NOTIFICATION_ITEM_HEIGHT * MAX_VISIBLE_NOTIFICATION_ROWS;
    if content > cap { cap as int } else { content }
}

/// The height of the overlay once transitions have settled: the base, and
/// each section that is on screen with its rows.
pub open spec fn surface_height(
    config: Config,
    disk_count: int,
    device_count: int,
    weather_loaded: bool,
    s: Seq<Notification>,
    media_active: bool,
    key: Option<(Seq<char>, u64)>,
    group: Option<Seq<char>>,
) -> int {
    let order = config.section_order@;
    BASE_SURFACE_HEIGHT + storage_height(shown(config.show_storage, order, WidgetSection::Storage), disk_count)
        + devices_height(shown(config.show_battery, order, WidgetSection::Battery), device_count)
        + (if !shown(config.show_weather, order, WidgetSection::Weather) {
        0
    } else if weather_loaded {
        WEATHER_SECTION_HEIGHT as int
    } else {
        EMPTY_WEATHER_HEIGHT as int
    }) + notifications_height(shown(config.show_notifications, order, WidgetSection::Notifications), s, key, group)
        + (if !shown(config.show_media, order, WidgetSection::Media) {
        0
    } else if media_active {
        MEDIA_SECTION_HEIGHT as int
    } else {
        EMPTY_MEDIA_HEIGHT as int
    })
}

pub open spec fn storage_height(on_screen: bool, disk_count: int) -> int {
    if !on_screen {
        0
    } else if disk_count == 0 {
        EMPTY_STORAGE_HEIGHT as int
    } else {
        STORAGE_SECTION_HEIGHT + STORAGE_ITEM_HEIGHT * disk_count
    }
}

pub open spec fn devices_height(on_screen: bool, device_count: int) -> int {
    if !on_screen {
        0
    } else if device_count == 0 {
        EMPTY_DEVICES_HEIGHT as int
    } else {
        DEVICES_SECTION_HEIGHT + DEVICE_ITEM_HEIGHT * device_count
    }
}

pub open spec fn notifications_height(
    on_screen: bool,
    s: Seq<Notification>,
    key: Option<(Seq<char>, u64)>,
    group: Option<Seq<char>>,
) -> int {
    if !on_screen {
        0
    } else if s.len() == 0 {
        EMPTY_NOTIFICATIONS_HEIGHT as int
    } else {
        NOTIFICATIONS_SECTION_HEIGHT + viewport_height(s, key, group)
    }
}

fn section_shown(on: bool, order: &Vec<WidgetSection>, section: WidgetSection) -> (r: bool)
    ensures
        r == shown(on, order@, section),
{
    if !on {
        return false;
    }
    let mut i: usize = 0;
    while i < order.len()
        invariant
            on,
            i <= order@.len(),
            forall|j: int| 0 <= j < i ==> order@[j] != section,
        decreases order@.len() - i,
    {
        if order[i] == section {
            assert(order@[i as int] == section);
            assert(order@.contains(section));
            return true;
        }
        i += 1;
    }
    false
}

pub open spec fn key_view(key: Option<&NotificationKey>) -> Option<(Seq<char>, u64)> {
    match key {
        Some(k) => Some((k.app_name@, k.timestamp)),
        None => None,
    }
}

pub open spec fn str_view(s: Option<&str>) -> Option<Seq<char>> {
    match s {
        Some(t) => Some(t@),
        None => None,
    }
}

/// Whether a notification's texts are short enough to be measured.
pub open spec fn measurable(n: Notification) -> bool {
    n.summary@.len() < 0x7fff_ffff && n.body@.len() < 0x7fff_ffff && n.app_name@.len() < 0x7fff_ffff
}

/// The height of the notification list once a transition has settled.
pub fn notification_viewport_height(
    notifications: &[Notification],
    expanded_notification: Option<&NotificationKey>,
    expanded_group: Option<&str>,
) -> (r: u32)
    requires
        notifications@.len() < 0x7fff_ffff,
        forall|i: int| 0 <= i < notifications@.len() ==> measurable(#[trigger] notifications@[i]),
    ensures
        r == viewport_height(notifications@, key_view(expanded_notification), str_view(expanded_group)),
{
    let ghost s = notifications@;
    let ghost key = key_view(expanded_notification);
    let ghost group = str_view(expanded_group);
    let cap: u32 = NOTIFICATION_ITEM_HEIGHT * MAX_VISIBLE_NOTIFICATION_ROWS;
    let compact = notification_display_rows(notifications, None);
    let group_rows: u32 = match expanded_group {
        Some(source) => {
            let n = notification_group_size(notifications, source);
            proof {
                lemma_source_count_bound(s, source@);
            }
            n as u32
        },
        None => 0,
    };
    proof {
        lemma_display_rows_bound(s);
    }
    let mut selected: Option<usize> = None;
    if let Some(k) = expanded_notification {
        let mut i: usize = 0;
        while i < notifications.len()
            invariant
                i <= notifications@.len(),
                s == notifications@,
                key == Some((k.app_name@, k.timestamp)),
                forall|j: int| 0 <= j < i ==> !keyed(k.app_name@, k.timestamp)(s[j]),
            ensures
                i <= notifications@.len(),
                forall|j: int| 0 <= j < i ==> !keyed(k.app_name@, k.timestamp)(s[j]),
                i < notifications@.len() ==> keyed(k.app_name@, k.timestamp)(s[i as int]),
            decreases notifications@.len() - i,
        {
            if k.matches(&notifications[i]) {
                break;
            }
            i += 1;
        }
        proof {
            crate::text::lemma_first_match(s, keyed(k.app_name@, k.timestamp), i as int);
        }
        if i < notifications.len() {
            selected = Some(i);
        }
    } else {
        assert(selected_index(s, key) == -1);
    }
    let extra: u32 = match selected {
        Some(i) => {
            let source = notification_source(&notifications[i]);
            let size = notification_group_size(notifications, source.as_str());
            if size > 1 && expanded_group.is_none() {
                0
            } else {
                notification_extra_height(&notifications[i])
            }
        },
        None => 0,
    };
    assert(extra == (if selected_index(s, key) < 0 || (source_count(s, source_of(s[selected_index(s, key)])) > 1
        && group is None) {
        0
    } else {
        extra_height(s[selected_index(s, key)])
    }));
    let rows: u64 = compact as u64 + group_rows as u64;
    let content: u64 = NOTIFICATION_ITEM_HEIGHT as u64 * rows + extra as u64;
    if content > cap as u64 {
        cap
    } else {
        content as u32
    }
}

proof fn lemma_display_rows_bound(s: Seq<Notification>)
    requires
        s.len() < 0x7fff_ffff,
    ensures
        0 <= display_rows(s, None) <= s.len(),
{
    lemma_distinct_sources_bound(s);
}

proof fn lemma_distinct_sources_bound(s: Seq<Notification>)
    ensures
        distinct_sources(s).finite(),
        distinct_sources(s).len() <= s.len(),
{
    let f = |n: Notification| source_of(n);
    let m = s.map_values(f);
    assert(distinct_sources(s) =~= m.to_set()) by {
        assert forall|x: Seq<char>| distinct_sources(s).contains(x) implies m.to_set().contains(x) by {
            let i = choose|i: int| 0 <= i < s.len() && source_of(s[i]) == x;
            assert(m[i] == x);
        }
        assert forall|x: Seq<char>| m.to_set().contains(x) implies distinct_sources(s).contains(x) by {
            let i = choose|i: int| 0 <= i < m.len() && m[i] == x;
            assert(source_of(s[i]) == x);
        }
    }
    m.lemma_cardinality_of_set();
}

/// The overlay's height once its transitions have settled, for what it
/// shows: the disk and device rows, whether weather has loaded, the
/// notifications with the selected one and the expanded group, and the
/// players.
pub fn desired_surface_height_with_expansion(
    config: &Config,
    disk_count: usize,
    device_count: usize,
    weather_loaded: bool,
    notifications: &[Notification],
    media: &crate::media::MultiPlayerState,
    expanded_notification: Option<&NotificationKey>,
    expanded_group: Option<&str>,
) -> (r: u32)
    requires
        surface_height(
            *config,
            disk_count as int,
            device_count as int,
            weather_loaded,
            notifications@,
            media_playing_something(*media),
            key_view(expanded_notification),
            str_view(expanded_group),
        ) < EXACT_HEIGHT_LIMIT,
        notifications@.len() < 0x7fff_ffff,
        forall|i: int| 0 <= i < notifications@.len() ==> measurable(#[trigger] notifications@[i]),
    ensures
        r == surface_height(
            *config,
            disk_count as int,
            device_count as int,
            weather_loaded,
            notifications@,
            media_playing_something(*media),
            key_view(expanded_notification),
            str_view(expanded_group),
        ),
{
    proof {
        let s = notifications@;
        let key = key_view(expanded_notification);
        let group = str_view(expanded_group);
        let i = selected_index(s, key);
        if i >= 0 && !(source_count(s, source_of(s[i])) > 1 && group is None) {
            assert(extra_height(s[i]) >= 0);
        }
        assert(viewport_height(s, key, group) >= 0);
    }
    let order = &config.section_order;
    let storage = storage_rows_height(section_shown(config.show_storage, order, WidgetSection::Storage), disk_count);
    let devices = device_rows_height(section_shown(config.show_battery, order, WidgetSection::Battery), device_count);
    let weather = if !section_shown(config.show_weather, order, WidgetSection::Weather) {
        0
    } else if weather_loaded {
        WEATHER_SECTION_HEIGHT
    } else {
        EMPTY_WEATHER_HEIGHT
    };
    let listed = notification_rows_height(
        section_shown(config.show_notifications, order, WidgetSection::Notifications),
        notifications,
        expanded_notification,
        expanded_group,
    );
    let playing = if !section_shown(config.show_media, order, WidgetSection::Media) {
        0
    } else if media_is_active(media) {
        MEDIA_SECTION_HEIGHT
    } else {
        EMPTY_MEDIA_HEIGHT
    };
    BASE_SURFACE_HEIGHT + storage + devices + weather + listed + playing
}

fn storage_rows_height(on_screen: bool, disk_count: usize) -> (r: u32)
    requires
        storage_height(on_screen, disk_count as int) < EXACT_HEIGHT_LIMIT,
    ensures
        r == storage_height(on_screen, disk_count as int),
{
    if !on_screen {
        0
    } else if disk_count == 0 {
        EMPTY_STORAGE_HEIGHT
    } else {
        STORAGE_SECTION_HEIGHT + STORAGE_ITEM_HEIGHT * disk_count as u32
    }
}

fn device_rows_height(on_screen: bool, device_count: usize) -> (r: u32)
    requires
        devices_height(on_screen, device_count as int) < EXACT_HEIGHT_LIMIT,
    ensures
        r == devices_height(on_screen, device_count as int),
{
    if !on_screen {
        0
    } else if device_count == 0 {
        EMPTY_DEVICES_HEIGHT
    } else {
        DEVICES_SECTION_HEIGHT + DEVICE_ITEM_HEIGHT * device_count as u32
    }
}

fn notification_rows_height(
    on_screen: bool,
    notifications: &[Notification],
    expanded_notification: Option<&NotificationKey>,
    expanded_group: Option<&str>,
) -> (r: u32)
    requires
        notifications@.len() < 0x7fff_ffff,
        forall|i: int| 0 <= i < notifications@.len() ==> measurable(#[trigger] notifications@[i]),
    ensures
        r == notifications_height(on_screen, notifications@, key_view(expanded_notification), str_view(expanded_group)),
        r <= 253,
{
    if !on_screen {
        0
    } else if notifications.len() == 0 {
        EMPTY_NOTIFICATIONS_HEIGHT
    } else {
        NOTIFICATIONS_SECTION_HEIGHT + notification_viewport_height(notifications, expanded_notification, expanded_group)
    }
}

fn media_is_active(media: &crate::media::MultiPlayerState) -> (r: bool)
    ensures
        r == media_playing_something(*media),
{
    match media.current_player() {
        Some(entry) => entry.1.is_active(),
        None => false,
    }
}

/// Whether the player the widget shows has something to show.
pub open spec fn media_playing_something(media: crate::media::MultiPlayerState) -> bool {
    media.current_index < media.players@.len() && {
        let info = media.players@[media.current_index as int].1;
        info.player_name@.len() > 0 && info.title@.len() > 0
    }
}

/// The overlay's height with nothing selected or expanded.
pub fn desired_surface_height(
    config: &Config,
    disk_count: usize,
    device_count: usize,
    weather_loaded: bool,
    notifications: &[Notification],
    media: &crate::media::MultiPlayerState,
) -> (r: u32)
    requires
        surface_height(
            *config,
            disk_count as int,
            device_count as int,
            weather_loaded,
            notifications@,
            media_playing_something(*media),
            None,
            None,
        ) < EXACT_HEIGHT_LIMIT,
        notifications@.len() < 0x7fff_ffff,
        forall|i: int| 0 <= i < notifications@.len() ==> measurable(#[trigger] notifications@[i]),
    ensures
        r == surface_height(
            *config,
            disk_count as int,
            device_count as int,
            weather_loaded,
            notifications@,
            media_playing_something(*media),
            None,
            None,
        ),
{
    desired_surface_height_with_expansion(config, disk_count, device_count, weather_loaded, notifications, media, None, None)
}

/// The group of the notification whose dismissal starts: none when a
/// dismissal of that key is already under way or no notification answers to
/// the key; otherwise the source of the first that does.
pub open spec fn dismissal_source(
    dismissing: Seq<NotificationKey>,
    s: Seq<Notification>,
    key: NotificationKey,
) -> Option<Seq<char>> {
    if exists|i: int| 0 <= i < dismissing.len() && #[trigger] dismissing[i].app_name@ == key.app_name@
        && dismissing[i].timestamp == key.timestamp {
        None
    } else {
        let j = selected_index(s, Some((key.app_name@, key.timestamp)));
        if j < 0 {
            None
        } else {
            Some(source_of(s[j]))
        }
    }
}

/// Whether a dismissal of `key` starts, and the group of the notification it
/// removes (see `dismissal_source`).
pub fn dismissal_to_start(dismissing: &[NotificationKey], notifications: &[Notification], key: &NotificationKey) -> (r:
    Option<String>)
    ensures
        match r {
            Some(source) => dismissal_source(dismissing@, notifications@, *key) == Some(source@),
            None => dismissal_source(dismissing@, notifications@, *key) is None,
        },
{
    let mut i: usize = 0;
    while i < dismissing.len()
        invariant
            i <= dismissing@.len(),
            forall|j: int| 0 <= j < i ==> !(#[trigger] dismissing@[j].app_name@ == key.app_name@
                && dismissing@[j].timestamp == key.timestamp),
        decreases dismissing@.len() - i,
    {
        if dismissing[i].timestamp == key.timestamp && crate::text::str_eq(
            dismissing[i].app_name.as_str(),
            key.app_name.as_str(),
        ) {
            return None;
        }
        i += 1;
    }
    let ghost s = notifications@;
    let mut j: usize = 0;
    while j < notifications.len()
        invariant
            s == notifications@,
            j <= s.len(),
            forall|k: int| 0 <= k < j ==> !keyed(key.app_name@, key.timestamp)(s[k]),
        ensures
            j <= s.len(),
            forall|k: int| 0 <= k < j ==> !keyed(key.app_name@, key.timestamp)(s[k]),
            j < s.len() ==> keyed(key.app_name@, key.timestamp)(s[j as int]),
        decreases s.len() - j,
    {
        if key.matches(&notifications[j]) {
            break;
        }
        j += 1;
    }
    proof {
        crate::text::lemma_first_match(s, keyed(key.app_name@, key.timestamp), j as int);
    }
    if j < notifications.len() {
        Some(notification_source(&notifications[j]))
    } else {
        None
    }
}

} // verus!
