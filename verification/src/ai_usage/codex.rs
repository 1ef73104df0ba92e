//! Codex's account quota, from the snapshots that Codex records in its
//! session files after each server response.
//!
//! Only a bounded tail of the most recently modified files is read, and an
//! unchanged file is not read again. A report stays stale, also past its
//! reset time, until Codex records a newer one. The used percentage is a
//! floating-point number; it is carried as the type parameter `U`.

use vstd::prelude::*;
use super::{UsageSnapshot, UsageStatus, UsageWindow, any_stale, has_stale_window};
use crate::battery::store::KeyedStore;
use crate::text::{decimal, trim};

verus! {

broadcast use vstd::seq_lib::group_seq_properties;

/// Age in seconds after which a report is stale.
pub const STALE_AFTER_SECS: i64 = 900;
/// How many of the most recently modified session files are read.
pub const MAX_SESSION_FILES: usize = 24;
/// How many bytes at the end of a session file are read.
pub const MAX_TAIL_BYTES: usize = 524288;
/// How deep below the sessions directory files are looked for.
pub const MAX_DIRECTORY_DEPTH: usize = 4;
/// How far in the future a record may be dated, in seconds.
pub const MAX_FUTURE_SECS: i64 = 300;

// ---------------------------------------------------------------------------
// Session file lines
// ---------------------------------------------------------------------------

/// The lines of `s`, as `split` on `b'\n'` gives them (a trailing newline
/// gives a last, empty line).
pub open spec fn byte_lines(s: Seq<u8>) -> Seq<Seq<u8>>
    decreases s.len(),
{
    if s.len() == 0 {
        seq![Seq::<u8>::empty()]
    } else {
        let prev = byte_lines(s.drop_last());
        if s.last() == 10u8 {
            prev.push(Seq::<u8>::empty())
        } else {
            prev.update(prev.len() - 1, prev.last().push(s.last()))
        }
    }
}

pub proof fn lemma_byte_lines_nonempty(s: Seq<u8>)
    ensures
        byte_lines(s).len() >= 1,
    decreases s.len(),
{
    if s.len() > 0 {
        lemma_byte_lines_nonempty(s.drop_last());
    }
}

/// The bytes of `"token_count"`, with its quotes.
pub open spec fn token_marker() -> Seq<u8> {
    seq![34u8, 116u8, 111u8, 107u8, 101u8, 110u8, 95u8, 99u8, 111u8, 117u8, 110u8, 116u8, 34u8]
}

/// Whether `line` holds the quoted word `"token_count"`.
pub open spec fn mentions_token_count(line: Seq<u8>) -> bool {
    exists|i: int| 0 <= i && i + 13 <= line.len() && #[trigger] line.subrange(i, i + 13) == token_marker()
}

pub open spec fn token_count_filter() -> spec_fn(Seq<u8>) -> bool {
    |line: Seq<u8>| mentions_token_count(line)
}

fn marker_at(line: &Vec<u8>, i: usize) -> (r: bool)
    requires
        i + 13 <= line@.len(),
    ensures
        r == (line@.subrange(i as int, i + 13) == token_marker()),
{
    let n = line.len();
    let marker: [u8; 13] = [34, 116, 111, 107, 101, 110, 95, 99, 111, 117, 110, 116, 34];
    assert(marker@ =~= token_marker());
    let mut k: usize = 0;
    while k < 13
        invariant
            n == line@.len(),
            i + 13 <= line@.len(),
            k <= 13,
            marker@ == token_marker(),
            forall|j: int| 0 <= j < k ==> line@[i + j] == marker@[j],
        decreases 13 - k,
    {
        if line[i + k] != marker[k] {
            assert(line@.subrange(i as int, i + 13)[k as int] != token_marker()[k as int]);
            return false;
        }
        k += 1;
    }
    assert(line@.subrange(i as int, i + 13) =~= token_marker());
    true
}

fn mentions_token_count_exec(line: &Vec<u8>) -> (r: bool)
    ensures
        r == mentions_token_count(line@),
{
    if line.len() < 13 {
        return false;
    }
    let last = line.len() - 13;
    let mut i: usize = 0;
    while i <= last
        invariant
            last + 13 == line@.len(),
            last + 13 <= usize::MAX,
            forall|j: int| 0 <= j < i && j + 13 <= line@.len() ==> #[trigger] line@.subrange(j, j + 13)
                != token_marker(),
        decreases line@.len() - i,
    {
        if marker_at(line, i) {
            return true;
        }
        i += 1;
    }
    false
}

proof fn lemma_filter_step(done: Seq<Seq<u8>>, line: Seq<u8>)
    ensures
        done.push(line).filter(token_count_filter()) == if mentions_token_count(line) {
            done.filter(token_count_filter()).push(line)
        } else {
            done.filter(token_count_filter())
        },
{
    done.lemma_filter_push(line, token_count_filter());
}

/// The lines of a session file tail that mention `"token_count"`, in order.
pub fn token_count_lines(bytes: &[u8]) -> (r: Vec<Vec<u8>>)
    ensures
        r@.map_values(|l: Vec<u8>| l@) == byte_lines(bytes@).filter(token_count_filter()),
{
    let mut kept: Vec<Vec<u8>> = Vec::new();
    let mut current: Vec<u8> = Vec::new();
    let ghost mut done: Seq<Seq<u8>> = Seq::empty();
    let mut i: usize = 0;
    assert(bytes@.take(0) =~= Seq::<u8>::empty());
    while i < bytes.len()
        invariant
            i <= bytes@.len(),
            byte_lines(bytes@.take(i as int)) == done.push(current@),
            kept@.map_values(|l: Vec<u8>| l@) == done.filter(token_count_filter()),
        decreases bytes@.len() - i,
    {
        let b = bytes[i];
        assert(bytes@.take(i + 1).drop_last() =~= bytes@.take(i as int));
        if b == 10u8 {
            let line = current;
            current = Vec::new();
            proof {
                assert(done.push(line@).drop_last() =~= done);
            }
            proof {
                lemma_filter_step(done, line@);
            }
            if mentions_token_count_exec(&line) {
                let ghost before = kept@;
                kept.push(line);
                proof {
                    assert(kept@.map_values(|l: Vec<u8>| l@) =~= before.map_values(|l: Vec<u8>| l@).push(line@));
                }
            }
            proof {
                done = done.push(line@);
                assert(byte_lines(bytes@.take(i + 1)) =~= done.push(current@));
            }
        } else {
            current.push(b);
            proof {
                assert(byte_lines(bytes@.take(i + 1)) =~= done.push(current@));
            }
        }
        i += 1;
    }
    assert(bytes@.take(i as int) =~= bytes@);
    let line = current;
    proof {
        assert(done.push(line@).drop_last() =~= done);
    }
    proof {
        lemma_filter_step(done, line@);
    }
    if mentions_token_count_exec(&line) {
        let ghost before = kept@;
        kept.push(line);
        proof {
            assert(kept@.map_values(|l: Vec<u8>| l@) =~= before.map_values(|l: Vec<u8>| l@).push(line@));
        }
    }
    kept
}


// ---------------------------------------------------------------------------
// Quota records
// ---------------------------------------------------------------------------

/// One quota window of a record; `used_percent` is as Codex wrote it.
#[derive(Debug)]
pub struct RateWindow<U> {
    pub used_percent: U,
    pub window_minutes: Option<i64>,
    pub resets_at: Option<i64>,
}

/// The quota of one bucket, as a `token_count` event reports it.
#[derive(Debug)]
pub struct RateLimits<U> {
    pub limit_id: String,
    pub limit_name: Option<String>,
    pub primary: Option<RateWindow<U>>,
    pub secondary: Option<RateWindow<U>>,
}

/// A bucket's quota and when Codex recorded it.
#[derive(Debug)]
pub struct QuotaRecord<U> {
    /// Unix seconds.
    pub updated_at: i64,
    /// Unix milliseconds, which order responses within a second.
    pub recorded_at_millis: i64,
    pub limits: RateLimits<U>,
}

/// Whether a window's length and reset time are possible: positive where
/// they are given.
pub open spec fn window_times_ok<U>(w: RateWindow<U>) -> bool {
    &&& (w.window_minutes matches Some(m) ==> m > 0)
    &&& (w.resets_at matches Some(t) ==> t > 0)
}

/// A window that is kept: its percentage is a number from 0 to 100
/// (`percent_ok`) and its times are possible.
pub open spec fn kept_window<U>(w: Option<RateWindow<U>>, percent_ok: bool) -> Option<RateWindow<U>> {
    match w {
        Some(x) => if percent_ok && window_times_ok(x) { Some(x) } else { None },
        None => None,
    }
}

/// The seconds and the milliseconds since the Unix epoch of an RFC 3339
/// time, where `text` is one.
pub uninterp spec fn rfc3339_times(text: Seq<char>) -> Option<(i64, i64)>;

/// Calls `chrono::DateTime::parse_from_rfc3339` and takes the parsed time's
/// `timestamp` and `timestamp_millis`. What counts as an RFC 3339 time is
/// chrono's and is only named here.
#[verifier::external_body]
pub(crate) fn rfc3339_instant(text: &str) -> (r: Option<(i64, i64)>)
    ensures
        r == rfc3339_times(text@),
{
    match chrono::DateTime::parse_from_rfc3339(text) {
        Ok(time) => Some((time.timestamp(), time.timestamp_millis())),
        Err(_) => None,
    }
}

/// The record that a session event gives: a `token_count` message with a
/// named bucket, at least one kept window and a readable time.
pub open spec fn quota_record_of<U>(
    event_type: Seq<char>,
    payload_type: Seq<char>,
    rate_limits: Option<RateLimits<U>>,
    primary_percent_ok: bool,
    secondary_percent_ok: bool,
    timestamp: Seq<char>,
) -> Option<QuotaRecord<U>> {
    if event_type != "event_msg"@ || payload_type != "token_count"@ {
        None
    } else {
        match rate_limits {
            None => None,
            Some(l) => {
                let primary = kept_window(l.primary, primary_percent_ok);
                let secondary = kept_window(l.secondary, secondary_percent_ok);
                if trim(l.limit_id@).len() == 0 || (primary is None && secondary is None) {
                    None
                } else {
                    match rfc3339_times(timestamp) {
                        None => None,
                        Some(t) => Some(
                            QuotaRecord {
                                updated_at: t.0,
                                recorded_at_millis: t.1,
                                limits: RateLimits { primary, secondary, ..l },
                            },
                        ),
                    }
                }
            },
        }
    }
}

fn keep_window<U>(w: Option<RateWindow<U>>, percent_ok: bool) -> (r: Option<RateWindow<U>>)
    ensures
        r == kept_window(w, percent_ok),
{
    match w {
        Some(x) => {
            let minutes_ok = match x.window_minutes {
                Some(m) => m > 0,
                None => true,
            };
            let reset_ok = match x.resets_at {
                Some(t) => t > 0,
                None => true,
            };
            if percent_ok && minutes_ok && reset_ok {
                Some(x)
            } else {
                None
            }
        },
        None => None,
    }
}

/// Turns a parsed session event into a quota record. The caller says, for
/// each window, whether its used percentage is a number from 0 to 100.
pub fn quota_record<U>(
    event_type: &str,
    payload_type: &str,
    rate_limits: Option<RateLimits<U>>,
    primary_percent_ok: bool,
    secondary_percent_ok: bool,
    timestamp: &str,
) -> (r: Option<QuotaRecord<U>>)
    ensures
        r == quota_record_of(
            event_type@,
            payload_type@,
            rate_limits,
            primary_percent_ok,
            secondary_percent_ok,
            timestamp@,
        ),
{
    if !crate::text::str_eq(event_type, "event_msg") || !crate::text::str_eq(payload_type, "token_count") {
        return None;
    }
    match rate_limits {
        None => None,
        Some(limits) => {
            let RateLimits { limit_id, limit_name, primary, secondary } = limits;
            let primary = keep_window(primary, primary_percent_ok);
            let secondary = keep_window(secondary, secondary_percent_ok);
            let id_chars = crate::text::trimmed_chars(limit_id.as_str());
            if id_chars.len() == 0 || (primary.is_none() && secondary.is_none()) {
                return None;
            }
            match rfc3339_instant(timestamp) {
                None => None,
                Some((updated_at, recorded_at_millis)) => Some(
                    QuotaRecord {
                        updated_at,
                        recorded_at_millis,
                        limits: RateLimits { limit_id, limit_name, primary, secondary },
                    },
                ),
            }
        },
    }
}

/// The records after `record` is merged in: it replaces the bucket's record
/// unless that one was recorded later.
pub open spec fn merged<U>(records: Map<Seq<char>, QuotaRecord<U>>, record: QuotaRecord<U>) -> Map<
    Seq<char>,
    QuotaRecord<U>,
> {
    let id = record.limits.limit_id@;
    if !records.contains_key(id) || records[id].recorded_at_millis <= record.recorded_at_millis {
        records.insert(id, record)
    } else {
        records
    }
}

/// Keeps the latest record of each bucket; log order is not assumed to be
/// chronological.
pub fn merge_record<U>(records: &mut KeyedStore<QuotaRecord<U>>, record: QuotaRecord<U>)
    ensures
        final(records)@ == merged(old(records)@, record),
{
    let id = crate::text::copy_string(&record.limits.limit_id);
    let replace = match records.get(id.as_str()) {
        None => true,
        Some(previous) => previous.recorded_at_millis <= record.recorded_at_millis,
    };
    if replace {
        records.insert(id, record);
    }
}

/// Merging two records gives the same records in either order, unless they
/// are of one bucket and were recorded at the same millisecond.
pub proof fn law_merge_order_is_irrelevant<U>(
    records: Map<Seq<char>, QuotaRecord<U>>,
    a: QuotaRecord<U>,
    b: QuotaRecord<U>,
)
    requires
        a.limits.limit_id@ == b.limits.limit_id@ ==> a.recorded_at_millis != b.recorded_at_millis,
    ensures
        merged(merged(records, a), b) == merged(merged(records, b), a),
{
    assert(merged(merged(records, a), b) =~= merged(merged(records, b), a));
}

/// After a merge, the bucket's record is at least as recent as the merged
/// record and as the one it had.
pub proof fn law_merge_never_goes_back<U>(records: Map<Seq<char>, QuotaRecord<U>>, record: QuotaRecord<U>)
    ensures
        ({
            let id = record.limits.limit_id@;
            let after = merged(records, record);
            &&& after.contains_key(id)
            &&& after[id].recorded_at_millis >= record.recorded_at_millis
            &&& records.contains_key(id) ==> after[id].recorded_at_millis >= records[id].recorded_at_millis
            &&& forall|k: Seq<char>| k != id ==> #[trigger] after.contains_key(k) == records.contains_key(k)
                && (records.contains_key(k) ==> after[k] == records[k])
        }),
{
}

// ---------------------------------------------------------------------------
// Window labels
// ---------------------------------------------------------------------------

/// An integer in decimal, with a minus sign when it is negative.
pub open spec fn signed_decimal(n: int) -> Seq<char> {
    if n < 0 {
        "-"@ + decimal((-n) as nat)
    } else {
        decimal(n as nat)
    }
}

/// The label of a window of `minutes` minutes; `fallback` where the length
/// is not given.
pub open spec fn window_label_of(minutes: Option<i64>, fallback: Seq<char>) -> Seq<char> {
    match minutes {
        Some(m) => if m == 10080 {
            "Weekly"@
        } else if m == 1440 {
            "Daily"@
        } else if m == 60 {
            "1 hour"@
        } else if m % 1440 == 0 {
            signed_decimal(m / 1440) + " days"@
        } else if m % 60 == 0 {
            signed_decimal(m / 60) + " hours"@
        } else if m == 1 {
            "1 minute"@
        } else {
            signed_decimal(m as int) + " minutes"@
        },
        None => fallback,
    }
}

fn signed_decimal_chars(n: i64) -> (r: Vec<char>)
    ensures
        r@ == signed_decimal(n as int),
{
    if n < 0 {
        let magnitude: u64 = (0i128 - n as i128) as u64;
        let mut r: Vec<char> = Vec::new();
        r.push('-');
        let digits = crate::text::decimal_chars(magnitude);
        crate::text::append_chars(&mut r, &digits);
        proof {
            reveal_strlit("-");
            assert(r@ =~= "-"@ + decimal((-n) as nat));
        }
        r
    } else {
        crate::text::decimal_chars(n as u64)
    }
}

pub fn window_label(minutes: Option<i64>, fallback: &str) -> (r: String)
    ensures
        r@ == window_label_of(minutes, fallback@),
{
    match minutes {
        Some(m) => {
            if m == 10080 {
                crate::text::owned("Weekly")
            } else if m == 1440 {
                crate::text::owned("Daily")
            } else if m == 60 {
                crate::text::owned("1 hour")
            } else if m % 1440 == 0 {
                let mut v = signed_decimal_chars(m / 1440);
                crate::text::append_str(&mut v, " days");
                crate::text::string_of(&v)
            } else if m % 60 == 0 {
                let mut v = signed_decimal_chars(m / 60);
                crate::text::append_str(&mut v, " hours");
                crate::text::string_of(&v)
            } else if m == 1 {
                crate::text::owned("1 minute")
            } else {
                let mut v = signed_decimal_chars(m);
                crate::text::append_str(&mut v, " minutes");
                crate::text::string_of(&v)
            }
        },
        None => crate::text::owned(fallback),
    }
}


// ---------------------------------------------------------------------------
// Snapshots
// ---------------------------------------------------------------------------

/// Whether bucket `a` is shown before bucket `b`: the general quota
/// (`codex`) first, then the others by id.
pub open spec fn record_before<U>(a: QuotaRecord<U>, b: QuotaRecord<U>) -> bool {
    let named_a = a.limits.limit_id@ != "codex"@;
    let named_b = b.limits.limit_id@ != "codex"@;
    (!named_a && named_b) || (named_a == named_b && crate::text::text_less(
        a.limits.limit_id@,
        b.limits.limit_id@,
    ))
}

pub open spec fn shown_before<U>(x: QuotaRecord<U>) -> spec_fn(QuotaRecord<U>) -> bool {
    |e: QuotaRecord<U>| record_before(x, e)
}

/// `x` put into `s` before the first record it is shown before.
pub open spec fn record_inserted<U>(s: Seq<QuotaRecord<U>>, x: QuotaRecord<U>) -> Seq<QuotaRecord<U>> {
    let j = crate::text::first_match(s, shown_before(x));
    if j < 0 { s.push(x) } else { s.insert(j, x) }
}

/// The records in display order (a stable sort).
pub open spec fn records_in_order<U>(s: Seq<QuotaRecord<U>>) -> Seq<QuotaRecord<U>>
    decreases s.len(),
{
    if s.len() == 0 {
        s
    } else {
        record_inserted(records_in_order(s.drop_last()), s.last())
    }
}

/// No record of `s` is shown before one that precedes it.
pub open spec fn shown_in_order<U>(s: Seq<QuotaRecord<U>>) -> bool {
    forall|i: int, j: int| 0 <= i < j < s.len() ==> !record_before(#[trigger] s[j], #[trigger] s[i])
}

proof fn lemma_record_before_order<U>(a: QuotaRecord<U>, b: QuotaRecord<U>, c: QuotaRecord<U>)
    ensures
        !(record_before(a, b) && record_before(b, a)),
        record_before(a, b) && record_before(b, c) ==> record_before(a, c),
{
    crate::text::lemma_text_less_order(a.limits.limit_id@, b.limits.limit_id@, c.limits.limit_id@);
}

proof fn lemma_inserted_in_order<U>(s: Seq<QuotaRecord<U>>, x: QuotaRecord<U>)
    requires
        shown_in_order(s),
    ensures
        shown_in_order(record_inserted(s, x)),
{
    let j = crate::text::first_match(s, shown_before(x));
    crate::text::lemma_first_match_bounds(s, shown_before(x));
    let r = record_inserted(s, x);
    if j < 0 {
        assert forall|a: int, b: int| 0 <= a < b < r.len() implies !record_before(#[trigger] r[b], #[trigger] r[a]) by {
            if b == s.len() {
                assert(!(shown_before(x))(s[a]));
            } else {
                assert(r[a] == s[a] && r[b] == s[b]);
            }
        }
    } else {
        assert forall|a: int, b: int| 0 <= a < b < r.len() implies !record_before(#[trigger] r[b], #[trigger] r[a]) by {
            if a < j && b < j {
                assert(r[a] == s[a] && r[b] == s[b]);
            } else if a < j && b == j {
                assert(r[a] == s[a]);
                assert(!(shown_before(x))(s[a]));
            } else if a < j {
                assert(r[a] == s[a] && r[b] == s[b - 1]);
            } else if a == j {
                assert(r[b] == s[b - 1]);
                assert(record_before(x, s[j]));
                if b - 1 > j {
                    lemma_record_before_order(s[b - 1], x, s[j]);
                } else {
                    lemma_record_before_order(x, s[j], x);
                }
            } else {
                assert(r[a] == s[a - 1] && r[b] == s[b - 1]);
            }
        }
    }
}

/// Records are shown with the general (`codex`) quota first and the named
/// buckets after it, each group by id in ascending order.
pub proof fn law_records_shown_in_order<U>(s: Seq<QuotaRecord<U>>)
    ensures
        shown_in_order(records_in_order(s)),
        records_in_order(s).len() == s.len(),
    decreases s.len(),
{
    if s.len() > 0 {
        law_records_shown_in_order(s.drop_last());
        lemma_inserted_in_order(records_in_order(s.drop_last()), s.last());
        let t = records_in_order(s.drop_last());
        crate::text::lemma_first_match_bounds(t, shown_before(s.last()));
    }
}

pub open spec fn derefs<U>(v: Seq<&QuotaRecord<U>>) -> Seq<QuotaRecord<U>> {
    v.map_values(|r: &QuotaRecord<U>| *r)
}

fn record_goes_before<U>(a: &QuotaRecord<U>, b: &QuotaRecord<U>) -> (r: bool)
    ensures
        r == record_before(*a, *b),
{
    let named_a = !crate::text::str_eq(a.limits.limit_id.as_str(), "codex");
    let named_b = !crate::text::str_eq(b.limits.limit_id.as_str(), "codex");
    (!named_a && named_b) || (named_a == named_b && crate::text::text_less_exec(
        &crate::text::chars_of(a.limits.limit_id.as_str()),
        &crate::text::chars_of(b.limits.limit_id.as_str()),
    ))
}

fn order_records<'a, U>(records: Vec<&'a QuotaRecord<U>>) -> (r: Vec<&'a QuotaRecord<U>>)
    ensures
        derefs(r@) == records_in_order(derefs(records@)),
{
    let ghost s = derefs(records@);
    let n = records.len();
    let mut sorted: Vec<&QuotaRecord<U>> = Vec::new();
    let mut rest = records;
    let ghost input = rest@;
    let mut i: usize = 0;
    while rest.len() > 0
        invariant
            i + rest@.len() == s.len(),
            s.len() == n,
            s == derefs(input),
            rest@ == input.skip(i as int),
            derefs(sorted@) == records_in_order(s.take(i as int)),
        decreases rest@.len(),
    {
        let x = rest.remove(0);
        proof {
            assert(*x == s[i as int]);
            assert(s.take(i + 1).drop_last() =~= s.take(i as int));
        }
        let mut j: usize = 0;
        while j < sorted.len() && !record_goes_before(x, sorted[j])
            invariant
                j <= sorted@.len(),
                forall|t: int| 0 <= t < j ==> !(shown_before(*x))(#[trigger] derefs(sorted@)[t]),
            decreases sorted@.len() - j,
        {
            j += 1;
        }
        proof {
            crate::text::lemma_first_match(derefs(sorted@), shown_before(*x), j as int);
        }
        let ghost before = sorted@;
        if j < sorted.len() {
            sorted.insert(j, x);
            assert(derefs(sorted@) =~= derefs(before).insert(j as int, *x));
        } else {
            sorted.push(x);
            assert(derefs(sorted@) =~= derefs(before).push(*x));
        }
        i += 1;
        proof {
            assert(rest@ =~= input.skip(i as int));
        }
    }
    assert(s.take(i as int) =~= s);
    sorted
}

/// The windows that a record shows, each with its record and its fallback
/// label.
pub open spec fn record_windows<U>(rec: QuotaRecord<U>) -> Seq<(QuotaRecord<U>, RateWindow<U>, Seq<char>)> {
    let p = match rec.limits.primary {
        Some(w) => seq![(rec, w, "Primary"@)],
        None => Seq::empty(),
    };
    let q = match rec.limits.secondary {
        Some(w) => seq![(rec, w, "Secondary"@)],
        None => Seq::empty(),
    };
    p + q
}

/// The windows that records show, in order.
pub open spec fn window_plan<U>(records: Seq<QuotaRecord<U>>) -> Seq<(QuotaRecord<U>, RateWindow<U>, Seq<char>)>
    decreases records.len(),
{
    if records.len() == 0 {
        Seq::empty()
    } else {
        window_plan(records.drop_last()) + record_windows(records.last())
    }
}

/// A bucket's name: its given name, or else its id.
pub open spec fn bucket_name<U>(l: RateLimits<U>) -> Seq<char> {
    match l.limit_name {
        Some(name) => if trim(name@).len() > 0 { name@ } else { l.limit_id@ },
        None => l.limit_id@,
    }
}

/// A window's label; a named bucket's windows carry the bucket's name.
pub open spec fn planned_label<U>(rec: QuotaRecord<U>, w: RateWindow<U>, fallback: Seq<char>) -> Seq<char> {
    let base = window_label_of(w.window_minutes, fallback);
    if rec.limits.limit_id@ == "codex"@ {
        base
    } else {
        bucket_name(rec.limits) + " \u{b7} "@ + base
    }
}

/// Whether a window is stale at `now`: its record is too old or it is past
/// its reset time.
pub open spec fn planned_stale<U>(rec: QuotaRecord<U>, w: RateWindow<U>, now: i64) -> bool {
    now - rec.updated_at > STALE_AFTER_SECS || (w.resets_at matches Some(reset) && reset <= now)
}

/// Whether `x` shows the planned window `item` at `now`, with a remaining
/// percentage that `remaining` gives for the used one.
pub open spec fn shows<U, P, F: Fn(&U) -> P>(
    x: UsageWindow<P>,
    item: (QuotaRecord<U>, RateWindow<U>, Seq<char>),
    now: i64,
    remaining: F,
) -> bool {
    &&& x.limit_id == item.0.limits.limit_id
    &&& x.label@ == planned_label(item.0, item.1, item.2)
    &&& x.resets_at == item.1.resets_at
    &&& x.updated_at == item.0.updated_at
    &&& x.is_stale == planned_stale(item.0, item.1, now)
    &&& call_ensures(remaining, (&item.1.used_percent,), x.remaining_percent)
}

/// The latest record time among planned windows.
pub open spec fn latest_update<U>(plan: Seq<(QuotaRecord<U>, RateWindow<U>, Seq<char>)>) -> Option<i64>
    decreases plan.len(),
{
    if plan.len() == 0 {
        None
    } else {
        let t = plan.last().0.updated_at;
        match latest_update(plan.drop_last()) {
            None => Some(t),
            Some(p) => Some(if p >= t { p } else { t }),
        }
    }
}

fn planned_window<U, P, F: Fn(&U) -> P>(
    rec: &QuotaRecord<U>,
    w: &RateWindow<U>,
    fallback: &str,
    now: i64,
    remaining: &F,
) -> (x: UsageWindow<P>)
    requires
        call_requires(*remaining, (&w.used_percent,)),
    ensures
        shows(x, (*rec, *w, fallback@), now, *remaining),
{
    let base = window_label(w.window_minutes, fallback);
    let label = if crate::text::str_eq(rec.limits.limit_id.as_str(), "codex") {
        base
    } else {
        let mut v: Vec<char> = match &rec.limits.limit_name {
            Some(name) => {
                let trimmed = crate::text::trimmed_chars(name.as_str());
                if trimmed.len() > 0 {
                    crate::text::chars_of(name.as_str())
                } else {
                    crate::text::chars_of(rec.limits.limit_id.as_str())
                }
            },
            None => crate::text::chars_of(rec.limits.limit_id.as_str()),
        };
        crate::text::append_str(&mut v, " \u{b7} ");
        crate::text::append_str(&mut v, base.as_str());
        crate::text::string_of(&v)
    };
    let age: i128 = now as i128 - rec.updated_at as i128;
    let past_reset = match w.resets_at {
        Some(reset) => reset <= now,
        None => false,
    };
    let percent = remaining(&w.used_percent);
    UsageWindow {
        limit_id: crate::text::copy_string(&rec.limits.limit_id),
        label,
        remaining_percent: percent,
        resets_at: w.resets_at,
        updated_at: rec.updated_at,
        is_stale: age > STALE_AFTER_SECS as i128 || past_reset,
    }
}

fn later(latest: Option<i64>, t: i64) -> (r: Option<i64>)
    ensures
        r == (match latest {
            None => Some(t),
            Some(p) => Some(if p >= t { p } else { t }),
        }),
{
    match latest {
        None => Some(t),
        Some(p) => Some(if p >= t { p } else { t }),
    }
}

/// The report that the latest records give at `now`: the general quota
/// first, each window labelled, stale when its record is old or it is past
/// its reset time. `remaining` turns a used percentage into the remaining
/// one.
pub fn snapshot_from_records<U, P, F: Fn(&U) -> P>(records: Vec<&QuotaRecord<U>>, now: i64, remaining: F) -> (r:
    UsageSnapshot<P>)
    requires
        forall|u: &U| #[trigger] call_requires(remaining, (u,)),
    ensures
        ({
            let plan = window_plan(records_in_order(derefs(records@)));
            &&& r.windows@.len() == plan.len()
            &&& forall|i: int| 0 <= i < plan.len() ==> shows(#[trigger] r.windows@[i], plan[i], now, remaining)
            &&& r.updated_at == latest_update(plan)
            &&& r.status == if plan.len() == 0 {
                UsageStatus::Unavailable
            } else if any_stale(r.windows@) {
                UsageStatus::Stale
            } else {
                UsageStatus::Available
            }
        }),
{
    let sorted = order_records(records);
    let ghost s = derefs(sorted@);
    let mut windows: Vec<UsageWindow<P>> = Vec::new();
    let mut latest: Option<i64> = None;
    let mut k: usize = 0;
    assert(s.take(0) =~= Seq::<QuotaRecord<U>>::empty());
    while k < sorted.len()
        invariant
            k <= sorted@.len(),
            s == derefs(sorted@),
            forall|u: &U| #[trigger] call_requires(remaining, (u,)),
            windows@.len() == window_plan(s.take(k as int)).len(),
            forall|i: int| 0 <= i < windows@.len() ==> shows(#[trigger] windows@[i], window_plan(s.take(k as int))[i], now, remaining),
            latest == latest_update(window_plan(s.take(k as int))),
        decreases sorted@.len() - k,
    {
        let rec: &QuotaRecord<U> = sorted[k];
        let ghost plan0 = window_plan(s.take(k as int));
        proof {
            assert(s.take(k + 1).drop_last() =~= s.take(k as int));
            assert(s.take(k + 1).last() == *rec);
            assert(window_plan(s.take(k + 1)) == plan0 + record_windows(*rec));
        }
        let ghost mut plan1 = plan0;
        match &rec.limits.primary {
            Some(w) => {
                let x = planned_window(rec, w, "Primary", now, &remaining);
                proof {
                    reveal_strlit("Primary");
                    plan1 = plan0.push((*rec, *w, "Primary"@));
                    assert(plan1.drop_last() =~= plan0);
                }
                windows.push(x);
                latest = later(latest, rec.updated_at);
                assert(plan1.last().0.updated_at == rec.updated_at);
                assert(latest == latest_update(plan1));
            },
            None => {},
        }
        assert(latest == latest_update(plan1));
        let ghost mut plan2 = plan1;
        match &rec.limits.secondary {
            Some(w) => {
                let x = planned_window(rec, w, "Secondary", now, &remaining);
                proof {
                    reveal_strlit("Secondary");
                    plan2 = plan1.push((*rec, *w, "Secondary"@));
                    assert(plan2.drop_last() =~= plan1);
                }
                windows.push(x);
                latest = later(latest, rec.updated_at);
                assert(plan2.last().0.updated_at == rec.updated_at);
                assert(latest == latest_update(plan2));
            },
            None => {},
        }
        assert(latest == latest_update(plan2));
        proof {
            assert(plan2 =~= plan0 + record_windows(*rec));
            assert forall|i: int| 0 <= i < windows@.len() implies shows(#[trigger] windows@[i], window_plan(s.take(k + 1))[i], now, remaining) by {
                if i < plan0.len() {
                    assert(plan2[i] == plan0[i]);
                }
            }
        }
        k += 1;
    }
    assert(s.take(k as int) =~= s);
    let status = if windows.len() == 0 {
        UsageStatus::Unavailable
    } else if has_stale_window(&windows) {
        UsageStatus::Stale
    } else {
        UsageStatus::Available
    };
    UsageSnapshot { windows, updated_at: latest, status }
}


// ---------------------------------------------------------------------------
// The session reader
// ---------------------------------------------------------------------------

/// When and how large a session file was.
#[derive(Debug, Clone, Copy, PartialEq, Eq, Structural)]
pub struct FileStamp {
    pub length: u64,
    /// Modification time, in seconds and nanoseconds from the Unix epoch.
    pub modified_secs: i64,
    pub modified_nanos: u32,
}

/// Whether `a` was modified later than `b`.
pub open spec fn modified_later(a: FileStamp, b: FileStamp) -> bool {
    a.modified_secs > b.modified_secs || (a.modified_secs == b.modified_secs && a.modified_nanos
        > b.modified_nanos)
}

/// Whether path `a` sorts before path `b` (by components, as `Path` orders).
pub uninterp spec fn path_precedes(a: Seq<char>, b: Seq<char>) -> bool;

/// Compares two paths with `<` on `std::path::Path`, which orders paths by
/// their components. That order is std's and is only named here.
#[verifier::external_body]
fn path_less(a: &str, b: &str) -> (r: bool)
    ensures
        r == path_precedes(a@, b@),
{
    std::path::Path::new(a) < std::path::Path::new(b)
}

/// Whether file `a` is read before file `b`: the most recently modified
/// first, then by path.
pub open spec fn file_before(a: (String, FileStamp), b: (String, FileStamp)) -> bool {
    modified_later(a.1, b.1) || (a.1.modified_secs == b.1.modified_secs && a.1.modified_nanos
        == b.1.modified_nanos && path_precedes(a.0@, b.0@))
}

pub open spec fn read_before(x: (String, FileStamp)) -> spec_fn((String, FileStamp)) -> bool {
    |e: (String, FileStamp)| file_before(x, e)
}

pub open spec fn file_inserted(s: Seq<(String, FileStamp)>, x: (String, FileStamp)) -> Seq<(String, FileStamp)> {
    let j = crate::text::first_match(s, read_before(x));
    if j < 0 { s.push(x) } else { s.insert(j, x) }
}

/// The files in the order they are considered.
pub open spec fn files_in_order(s: Seq<(String, FileStamp)>) -> Seq<(String, FileStamp)>
    decreases s.len(),
{
    if s.len() == 0 {
        s
    } else {
        file_inserted(files_in_order(s.drop_last()), s.last())
    }
}

/// The files that are kept: the most recently modified ones.
pub open spec fn chosen_files(found: Seq<(String, FileStamp)>) -> Seq<(String, FileStamp)> {
    let ordered = files_in_order(found);
    if ordered.len() <= MAX_SESSION_FILES {
        ordered
    } else {
        ordered.take(MAX_SESSION_FILES as int)
    }
}

pub open spec fn file_paths(s: Seq<(String, FileStamp)>) -> Set<Seq<char>> {
    s.map_values(|e: (String, FileStamp)| e.0@).to_set()
}

/// Whether a file must be read: it is new, or changed since it was read.
pub open spec fn needs_reading(read: Map<Seq<char>, FileStamp>) -> spec_fn((String, FileStamp)) -> bool {
    |e: (String, FileStamp)| !(read.contains_key(e.0@) && read[e.0@] == e.1)
}

/// The records after those of one file are merged in, skipping records
/// dated too far after `now`, which would hide real data.
pub open spec fn absorbed<U>(records: Map<Seq<char>, QuotaRecord<U>>, new: Seq<QuotaRecord<U>>, now: i64) -> Map<
    Seq<char>,
    QuotaRecord<U>,
>
    decreases new.len(),
{
    if new.len() == 0 {
        records
    } else {
        let prev = absorbed(records, new.drop_last(), now);
        if new.last().updated_at > now + MAX_FUTURE_SECS {
            prev
        } else {
            merged(prev, new.last())
        }
    }
}

/// The records a store holds, in the order it keeps them.
pub open spec fn stored_records<U>(store: KeyedStore<QuotaRecord<U>>) -> Seq<QuotaRecord<U>> {
    store.key_order().map_values(|k: Seq<char>| store@[k])
}

/// What the reader remembers between polls: the files it has read, with the
/// stamp they had, and the latest record of each bucket.
pub struct SessionReader<U> {
    pub files: KeyedStore<FileStamp>,
    pub latest: KeyedStore<QuotaRecord<U>>,
}

fn file_goes_before(a: &(String, FileStamp), b: &(String, FileStamp)) -> (r: bool)
    ensures
        r == file_before(*a, *b),
{
    let la = a.1;
    let lb = b.1;
    (la.modified_secs > lb.modified_secs || (la.modified_secs == lb.modified_secs && la.modified_nanos
        > lb.modified_nanos)) || (la.modified_secs == lb.modified_secs && la.modified_nanos
        == lb.modified_nanos && path_less(a.0.as_str(), b.0.as_str()))
}

fn order_files(found: Vec<(String, FileStamp)>) -> (r: Vec<(String, FileStamp)>)
    ensures
        r@ == files_in_order(found@),
{
    let ghost s = found@;
    let n = found.len();
    let mut sorted: Vec<(String, FileStamp)> = Vec::new();
    let mut rest = found;
    let mut i: usize = 0;
    while rest.len() > 0
        invariant
            i + rest@.len() == s.len(),
            s.len() == n,
            rest@ == s.skip(i as int),
            sorted@ == files_in_order(s.take(i as int)),
        decreases rest@.len(),
    {
        let x = rest.remove(0);
        proof {
            assert(x == s[i as int]);
            assert(s.take(i + 1).drop_last() =~= s.take(i as int));
        }
        let mut j: usize = 0;
        while j < sorted.len() && !file_goes_before(&x, &sorted[j])
            invariant
                j <= sorted@.len(),
                forall|t: int| 0 <= t < j ==> !(read_before(x))(#[trigger] sorted@[t]),
            decreases sorted@.len() - j,
        {
            j += 1;
        }
        proof {
            crate::text::lemma_first_match(sorted@, read_before(x), j as int);
        }
        if j < sorted.len() {
            sorted.insert(j, x);
        } else {
            sorted.push(x);
        }
        i += 1;
        proof {
            assert(rest@ =~= s.skip(i as int));
        }
    }
    assert(s.take(i as int) =~= s);
    sorted
}

impl<U> SessionReader<U> {
    pub fn new() -> (r: Self)
        ensures
            r.files@ == Map::<Seq<char>, FileStamp>::empty(),
            r.latest@ == Map::<Seq<char>, QuotaRecord<U>>::empty(),
    {
        SessionReader { files: KeyedStore::new(), latest: KeyedStore::new() }
    }

    /// Takes the session files found, each with its stamp, and keeps the
    /// most recently modified ones; files no longer among them are
    /// forgotten. Returns the kept files that must be read, in order.
    pub fn select_files(&mut self, found: Vec<(String, FileStamp)>) -> (to_read: Vec<(String, FileStamp)>)
        ensures
            ({
                let chosen = chosen_files(found@);
                &&& final(self).files@ == old(self).files@.restrict(file_paths(chosen))
                &&& final(self).latest@ == old(self).latest@
                &&& to_read@ == chosen.filter(needs_reading(old(self).files@))
            }),
    {
        let mut files = order_files(found);
        files.truncate(MAX_SESSION_FILES);
        let ghost chosen = files@;
        assert(chosen == chosen_files(found@));
        let mut paths: Vec<String> = Vec::new();
        let mut i: usize = 0;
        while i < files.len()
            invariant
                i <= files@.len(),
                files@ == chosen,
                crate::text::string_views(paths@) == chosen.take(i as int).map_values(|e: (String, FileStamp)| e.0@),
            decreases files@.len() - i,
        {
            let ghost pb = paths@;
            paths.push(crate::text::copy_string(&files[i].0));
            proof {
                assert(crate::text::string_views(paths@) =~= crate::text::string_views(pb).push(chosen[i as int].0@));
                assert(chosen.take(i + 1).map_values(|e: (String, FileStamp)| e.0@) =~= chosen.take(
                    i as int,
                ).map_values(|e: (String, FileStamp)| e.0@).push(chosen[i as int].0@));
            }
            i += 1;
        }
        assert(chosen.take(i as int) =~= chosen);
        let ghost before = self.files@;
        self.files.retain_keys(&paths);
        assert(self.files@ =~= before.restrict(file_paths(chosen)));
        let mut to_read: Vec<(String, FileStamp)> = Vec::new();
        let mut rest = files;
        let mut k: usize = 0;
        let n = rest.len();
        assert(chosen.take(0) =~= Seq::<(String, FileStamp)>::empty());
        while rest.len() > 0
            invariant
                k + rest@.len() == chosen.len(),
                n == chosen.len(),
                rest@ == chosen.skip(k as int),
                self.files@ == before.restrict(file_paths(chosen)),
                to_read@ == chosen.take(k as int).filter(needs_reading(before)),
            decreases rest@.len(),
        {
            let e = rest.remove(0);
            proof {
                assert(e == chosen[k as int]);
                assert(chosen.take(k + 1).drop_last() =~= chosen.take(k as int));
                assert(chosen.map_values(|e: (String, FileStamp)| e.0@)[k as int] == e.0@);
                assert(file_paths(chosen).contains(e.0@));
                chosen.take(k as int).lemma_filter_push(e, needs_reading(before));
                assert(chosen.take(k + 1) =~= chosen.take(k as int).push(e));
            }
            let unchanged = match self.files.get(e.0.as_str()) {
                Some(stamp) => *stamp == e.1,
                None => false,
            };
            if !unchanged {
                to_read.push(e);
            }
            k += 1;
            proof {
                assert(rest@ =~= chosen.skip(k as int));
            }
        }
        assert(chosen.take(k as int) =~= chosen);
        to_read
    }

    /// Takes the records read from a file and remembers the file's stamp,
    /// so that it is not read again until it changes.
    pub fn absorb(&mut self, path: String, stamp: FileStamp, records: Vec<QuotaRecord<U>>, now: i64)
        ensures
            final(self).files@ == old(self).files@.insert(path@, stamp),
            final(self).latest@ == absorbed(old(self).latest@, records@, now),
    {
        let ghost s = records@;
        let ghost start = self.latest@;
        let n = records.len();
        let mut rest = records;
        let mut i: usize = 0;
        assert(s.take(0) =~= Seq::<QuotaRecord<U>>::empty());
        while rest.len() > 0
            invariant
                i + rest@.len() == s.len(),
                n == s.len(),
                rest@ == s.skip(i as int),
                self.latest@ == absorbed(start, s.take(i as int), now),
                self.files@ == old(self).files@,
            decreases rest@.len(),
        {
            let record = rest.remove(0);
            proof {
                assert(record == s[i as int]);
                assert(s.take(i + 1).drop_last() =~= s.take(i as int));
                assert(s.take(i + 1).last() == record);
            }
            let future_dated = record.updated_at as i128 > now as i128 + MAX_FUTURE_SECS as i128;
            if !future_dated {
                merge_record(&mut self.latest, record);
            }
            i += 1;
            proof {
                assert(rest@ =~= s.skip(i as int));
            }
        }
        assert(s.take(i as int) =~= s);
        self.files.insert(path, stamp);
    }

    /// The report that the remembered records give at `now`.
    pub fn snapshot<P, F: Fn(&U) -> P>(&self, now: i64, remaining: F) -> (r: UsageSnapshot<P>)
        requires
            forall|u: &U| #[trigger] call_requires(remaining, (u,)),
        ensures
            ({
                let plan = window_plan(records_in_order(stored_records(self.latest)));
                &&& r.windows@.len() == plan.len()
                &&& forall|i: int| 0 <= i < plan.len() ==> shows(#[trigger] r.windows@[i], plan[i], now, remaining)
                &&& r.updated_at == latest_update(plan)
                &&& r.status == if plan.len() == 0 {
                    UsageStatus::Unavailable
                } else if any_stale(r.windows@) {
                    UsageStatus::Stale
                } else {
                    UsageStatus::Available
                }
            }),
    {
        let records = self.latest.values();
        assert(derefs(records@) =~= stored_records(self.latest));
        snapshot_from_records(records, now, remaining)
    }
}

} // verus!
