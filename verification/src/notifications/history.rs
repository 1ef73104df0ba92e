//! Merging live notifications with the daemon's history, and the rules for
//! notifications that the user dismissed in the widget.

use vstd::prelude::*;
use crate::text::{
    chars_of, copy_opt_string, copy_string, eq_ignore_case, eq_ignore_case_str, first_match,
    lemma_first_match, lemma_first_match_bounds, lower, lower_chars, opt_string_eq, opt_view,
    seq_eq, str_eq, strip_all_suffix, strip_all_suffix_chars, trim, trimmed_chars,
};
use super::{Notification, id_set, id_set_of, remote_id, remote_notification_id, truncated};
use super::file_transfers::{opt_is_active, opt_transfer_active, transfer_active};
use super::ids::{RemoteIdSet, id_view};

verus! {

broadcast use vstd::seq_lib::group_seq_properties;

// ---------------------------------------------------------------------------
// Live updates
// ---------------------------------------------------------------------------

/// `c` is the row that an update `n` replaces: the same daemon ID and owner.
pub open spec fn replaces(n: Notification) -> spec_fn(Notification) -> bool {
    |c: Notification| n.id is Some && c.id == n.id && opt_view(c.server_owner) == opt_view(n.server_owner)
}

/// An update keeps the time the row was first shown, and the folder and
/// action already found for it when it brings none.
pub open spec fn replacement(old: Notification, n: Notification) -> Notification {
    Notification {
        timestamp: old.timestamp,
        open_folder: if n.open_folder is Some { n.open_folder } else { old.open_folder },
        activation_action: if n.activation_action is Some {
            n.activation_action
        } else {
            old.activation_action
        },
        ..n
    }
}

/// The list after a notification arrives: it replaces the row with its ID,
/// or goes first, the list then cut to `max_count`.
pub open spec fn upserted(s: Seq<Notification>, n: Notification, max_count: int) -> Seq<Notification> {
    let k = first_match(s, replaces(n));
    if k >= 0 {
        s.update(k, replacement(s[k], n))
    } else {
        truncated(seq![n] + s, max_count)
    }
}

fn find_replaced(notifications: &Vec<Notification>, n: &Notification) -> (r: Option<usize>)
    ensures
        r matches Some(k) ==> k < notifications@.len() && k as int == first_match(notifications@, replaces(*n)),
        r is None ==> first_match(notifications@, replaces(*n)) < 0,
{
    let id = match n.id {
        Some(id) => id,
        None => {
            proof {
                lemma_first_match(notifications@, replaces(*n), notifications@.len() as int);
            }
            return None;
        },
    };
    let mut i: usize = 0;
    while i < notifications.len()
        invariant
            i <= notifications@.len(),
            n.id == Some(id),
            forall|j: int| 0 <= j < i ==> !(replaces(*n))(#[trigger] notifications@[j]),
        decreases notifications@.len() - i,
    {
        let c = &notifications[i];
        if c.id == Some(id) && opt_string_eq(&c.server_owner, &n.server_owner) {
            proof {
                lemma_first_match(notifications@, replaces(*n), i as int);
            }
            return Some(i);
        }
        i += 1;
    }
    proof {
        lemma_first_match(notifications@, replaces(*n), notifications@.len() as int);
    }
    None
}

/// Adds a live notification: an update of a shown one replaces it in place
/// (keeping when it was first shown), a new one goes first.
pub fn upsert_notification(notifications: &mut Vec<Notification>, notification: Notification, max_count: usize)
    ensures
        final(notifications)@ == upserted(old(notifications)@, notification, max_count as int),
{
    match find_replaced(notifications, &notification) {
        Some(k) => {
            let old_row = &notifications[k];
            let timestamp = old_row.timestamp;
            let old_folder = copy_opt_string(&old_row.open_folder);
            let old_action = copy_opt_string(&old_row.activation_action);
            let Notification {
                id,
                server_owner,
                sender_owner,
                app_name,
                summary,
                body,
                timestamp: _,
                open_folder,
                activation_action,
                file_transfer,
            } = notification;
            let row = Notification {
                id,
                server_owner,
                sender_owner,
                app_name,
                summary,
                body,
                timestamp,
                open_folder: if open_folder.is_some() { open_folder } else { old_folder },
                activation_action: if activation_action.is_some() {
                    activation_action
                } else {
                    old_action
                },
                file_transfer,
            };
            notifications.set(k, row);
        },
        None => {
            let ghost s = notifications@;
            notifications.insert(0, notification);
            assert(notifications@ =~= seq![notification] + s);
            notifications.truncate(max_count);
        },
    }
}

/// An update of a shown notification keeps the time it was first shown.
pub proof fn law_replacement_keeps_display_time(s: Seq<Notification>, n: Notification, max_count: int)
    requires
        first_match(s, replaces(n)) >= 0,
    ensures
        upserted(s, n, max_count).len() == s.len(),
        upserted(s, n, max_count)[first_match(s, replaces(n))].timestamp == s[first_match(
            s,
            replaces(n),
        )].timestamp,
{
    lemma_first_match_bounds(s, replaces(n));
}

/// A new notification is shown first, and the list never grows past
/// `max_count` when it adds a row.
pub proof fn law_new_notification_first(s: Seq<Notification>, n: Notification, max_count: int)
    requires
        first_match(s, replaces(n)) < 0,
        max_count > 0,
    ensures
        upserted(s, n, max_count)[0] == n,
        upserted(s, n, max_count).len() <= max_count || upserted(s, n, max_count).len() == s.len() + 1,
        upserted(s, n, max_count).len() <= s.len() + 1,
{
}

// ---------------------------------------------------------------------------
// History refresh
// ---------------------------------------------------------------------------

/// Whether the shown row `e` is the history row `r`: the same daemon ID, or,
/// when either has none, the same application and time.
pub open spec fn same_row(r: Notification) -> spec_fn(Notification) -> bool {
    |e: Notification| match (remote_id(e), remote_id(r)) {
        (Some(a), Some(b)) => a == b,
        _ => e.app_name@ == r.app_name@ && e.timestamp == r.timestamp,
    }
}

/// A history row keeps what the widget found for it before (folder, action),
/// and a transfer keeps its first time and, when finished, its outcome.
pub open spec fn preserved(existing: Seq<Notification>, r: Notification) -> Notification {
    let k = first_match(existing, same_row(r));
    if k < 0 {
        r
    } else {
        let p = existing[k];
        let kept = Notification {
            open_folder: if r.open_folder is None { p.open_folder } else { r.open_folder },
            activation_action: if r.activation_action is None {
                p.activation_action
            } else {
                r.activation_action
            },
            ..r
        };
        if p.file_transfer is Some {
            Notification {
                timestamp: p.timestamp,
                file_transfer: if transfer_active(p.file_transfer->0) {
                    None
                } else {
                    p.file_transfer
                },
                ..kept
            }
        } else {
            kept
        }
    }
}

fn same_row_exec(e: &Notification, r: &Notification) -> (b: bool)
    ensures
        b == (same_row(*r))(*e),
{
    match (remote_notification_id(e), remote_notification_id(r)) {
        (Some(a), Some(b)) => a.0 == b.0 && str_eq(a.1.as_str(), b.1.as_str()),
        _ => e.timestamp == r.timestamp && str_eq(e.app_name.as_str(), r.app_name.as_str()),
    }
}

fn preserved_row(existing: &[Notification], r: &Notification) -> (p: Notification)
    ensures
        p == preserved(existing@, *r),
{
    let mut i: usize = 0;
    while i < existing.len()
        invariant
            i <= existing@.len(),
            forall|j: int| 0 <= j < i ==> !(same_row(*r))(#[trigger] existing@[j]),
        decreases existing@.len() - i,
    {
        if same_row_exec(&existing[i], r) {
            proof {
                lemma_first_match(existing@, same_row(*r), i as int);
            }
            let p = &existing[i];
            let mut row = r.copy();
            if row.open_folder.is_none() {
                row.open_folder = copy_opt_string(&p.open_folder);
            }
            if row.activation_action.is_none() {
                row.activation_action = copy_opt_string(&p.activation_action);
            }
            if p.file_transfer.is_some() {
                row.timestamp = p.timestamp;
                row.file_transfer = if opt_is_active(&p.file_transfer) {
                    None
                } else {
                    p.file_transfer
                };
            }
            return row;
        }
        i += 1;
    }
    proof {
        lemma_first_match(existing@, same_row(*r), existing@.len() as int);
    }
    r.copy()
}

/// Carries over, row by row, what the widget knew of the refreshed rows.
pub fn preserve_notification_targets(existing: &[Notification], refreshed: &mut Vec<Notification>)
    ensures
        final(refreshed)@.len() == old(refreshed)@.len(),
        forall|i: int| 0 <= i < old(refreshed)@.len() ==> #[trigger] final(refreshed)@[i] == preserved(
            existing@,
            old(refreshed)@[i],
        ),
{
    let ghost start = refreshed@;
    let mut i: usize = 0;
    while i < refreshed.len()
        invariant
            i <= refreshed@.len(),
            refreshed@.len() == start.len(),
            forall|j: int| 0 <= j < i ==> #[trigger] refreshed@[j] == preserved(existing@, start[j]),
            forall|j: int| i <= j < start.len() ==> #[trigger] refreshed@[j] == start[j],
        decreases start.len() - i,
    {
        let row = preserved_row(existing, &refreshed[i]);
        refreshed.set(i, row);
        i += 1;
    }
}

/// A refresh of the daemon's history, which it sent from `server_owner`.
#[derive(Debug, Clone, PartialEq, Eq)]
pub struct CosmicNotificationHistory {
    pub server_owner: String,
    pub notifications: Vec<Notification>,
}

/// A shown transfer that the daemon `owner` assigned.
pub open spec fn daemon_transfer(n: Notification, owner: Seq<char>) -> bool {
    n.file_transfer is Some && opt_view(n.server_owner) == Some(owner)
}

pub open spec fn same_remote(n: Notification) -> spec_fn(Notification) -> bool {
    |c: Notification| remote_id(c) == remote_id(n)
}

pub open spec fn min(a: int, b: int) -> int {
    if a <= b { a } else { b }
}

/// Puts the transfer that was shown at `index` back at that place: its history
/// row when there is one, else the live row while it is under way.
pub open spec fn place_transfer(h: Seq<Notification>, n: Notification, index: int) -> Seq<Notification> {
    let p = first_match(h, same_remote(n));
    if p >= 0 {
        let rest = h.remove(p);
        rest.insert(min(index, rest.len() as int), h[p])
    } else if opt_transfer_active(n.file_transfer) {
        h.insert(min(index, h.len() as int), n)
    } else {
        h
    }
}

/// `h` after placing the daemon's transfers among the first `k` shown rows.
pub open spec fn place_transfers(h: Seq<Notification>, existing: Seq<Notification>, owner: Seq<char>, k: nat) -> Seq<
    Notification,
>
    decreases k,
{
    if k == 0 {
        h
    } else {
        let before = place_transfers(h, existing, owner, (k - 1) as nat);
        if daemon_transfer(existing[k - 1], owner) {
            place_transfer(before, existing[k - 1], k - 1)
        } else {
            before
        }
    }
}

pub open spec fn preserved_all(existing: Seq<Notification>, h: Seq<Notification>) -> Seq<Notification> {
    Seq::new(h.len(), |i: int| preserved(existing, h[i]))
}

/// The history that the widget shows after a refresh.
pub open spec fn reconciled_history(existing: Seq<Notification>, h: Seq<Notification>, owner: Seq<char>) -> Seq<
    Notification,
> {
    truncated(
        place_transfers(preserved_all(existing, h), existing, owner, existing.len()),
        COSMIC_NOTIFICATION_HISTORY_LIMIT as int,
    )
}

fn find_same_remote(h: &Vec<Notification>, n: &Notification) -> (r: Option<usize>)
    ensures
        r matches Some(k) ==> k < h@.len() && k as int == first_match(h@, same_remote(*n)),
        r is None ==> first_match(h@, same_remote(*n)) < 0,
{
    let target = remote_notification_id(n);
    let mut i: usize = 0;
    while i < h.len()
        invariant
            i <= h@.len(),
            forall|j: int| 0 <= j < i ==> !(same_remote(*n))(#[trigger] h@[j]),
            match target {
                Some(k) => remote_id(*n) == Some(id_view(k)),
                None => remote_id(*n) is None,
            },
        decreases h@.len() - i,
    {
        let same = match (remote_notification_id(&h[i]), &target) {
            (Some(a), Some(b)) => a.0 == b.0 && str_eq(a.1.as_str(), b.1.as_str()),
            (None, None) => true,
            _ => false,
        };
        if same {
            proof {
                lemma_first_match(h@, same_remote(*n), i as int);
            }
            return Some(i);
        }
        i += 1;
    }
    proof {
        lemma_first_match(h@, same_remote(*n), h@.len() as int);
    }
    None
}

use super::COSMIC_NOTIFICATION_HISTORY_LIMIT;

/// Keeps the transfers that the widget shows where they are while the daemon's
/// history lacks them (running and paused ones are not in history), moves the
/// finished ones of history back to their place, and keeps at most the
/// history limit.
pub fn reconcile_transfer_history(existing: &[Notification], history: &mut CosmicNotificationHistory)
    ensures
        final(history).server_owner == old(history).server_owner,
        final(history).notifications@ == reconciled_history(
            existing@,
            old(history).notifications@,
            old(history).server_owner@,
        ),
{
    let ghost h0 = history.notifications@;
    preserve_notification_targets(existing, &mut history.notifications);
    assert(history.notifications@ =~= preserved_all(existing@, h0));
    let owner = copy_string(&history.server_owner);
    let mut rows: Vec<Notification> = Vec::new();
    std::mem::swap(&mut rows, &mut history.notifications);
    let mut index: usize = 0;
    while index < existing.len()
        invariant
            index <= existing@.len(),
            owner@ == old(history).server_owner@,
            rows@ == place_transfers(preserved_all(existing@, h0), existing@, owner@, index as nat),
        decreases existing@.len() - index,
    {
        let n = &existing[index];
        let of_daemon = n.file_transfer.is_some() && match &n.server_owner {
            Some(o) => str_eq(o.as_str(), owner.as_str()),
            None => false,
        };
        if of_daemon {
            let ghost h = rows@;
            match find_same_remote(&rows, n) {
                Some(p) => {
                    let row = rows.remove(p);
                    let at = if index < rows.len() { index } else { rows.len() };
                    rows.insert(at, row);
                },
                None => {
                    if opt_is_active(&n.file_transfer) {
                        let at = if index < rows.len() { index } else { rows.len() };
                        rows.insert(at, n.copy());
                    }
                },
            }
        }
        index += 1;
    }
    rows.truncate(COSMIC_NOTIFICATION_HISTORY_LIMIT);
    history.notifications = rows;
}

// ---------------------------------------------------------------------------
// Dismissals
// ---------------------------------------------------------------------------

/// Moves dismissed transfers that reached the history of the current daemon
/// to the ordinary dismissals, forgets those of other daemons, and keeps the
/// others (their later progress stays hidden).
pub fn reconcile_transfer_dismissals(
    history: &CosmicNotificationHistory,
    dismissed: &mut RemoteIdSet,
    dismissed_transfers: &mut RemoteIdSet,
)
    ensures
        final(dismissed_transfers)@ == old(dismissed_transfers)@.filter(
            |k: (u32, Seq<char>)| k.1 == history.server_owner@ && !id_set(history.notifications@).contains(k),
        ),
        final(dismissed)@ == old(dismissed)@.union(
            old(dismissed_transfers)@.filter(
                |k: (u32, Seq<char>)| k.1 == history.server_owner@ && id_set(history.notifications@).contains(k),
            ),
        ),
{
    let in_history = id_set_of(history.notifications.as_slice());
    let transfers = dismissed_transfers.to_vec();
    let ghost all = dismissed_transfers@;
    let ghost d0 = dismissed@;
    let ghost owner = history.server_owner@;
    let ghost hs = id_set(history.notifications@);
    let mut kept = RemoteIdSet::new();
    let mut i: usize = 0;
    while i < transfers.len()
        invariant
            i <= transfers@.len(),
            super::ids::id_views(transfers@).to_set() == all,
            in_history@ == hs,
            kept@ == super::ids::id_views(transfers@).take(i as int).to_set().filter(
                |k: (u32, Seq<char>)| k.1 == owner && !hs.contains(k),
            ),
            dismissed@ == d0.union(
                super::ids::id_views(transfers@).take(i as int).to_set().filter(
                    |k: (u32, Seq<char>)| k.1 == owner && hs.contains(k),
                ),
            ),
            owner == history.server_owner@,
        decreases transfers@.len() - i,
    {
        let (id, o) = (transfers[i].0, &transfers[i].1);
        let ghost x = id_view(transfers@[i as int]);
        let ghost prefix = super::ids::id_views(transfers@).take(i as int);
        proof {
            assert(super::ids::id_views(transfers@).take(i + 1) =~= prefix.push(x));
            assert(prefix.push(x).to_set() =~= prefix.to_set().insert(x));
        }
        if str_eq(o.as_str(), history.server_owner.as_str()) {
            if in_history.contains(id, o.as_str()) {
                dismissed.insert(id, copy_string(o));
            } else {
                kept.insert(id, copy_string(o));
            }
        }
        proof {
            assert(kept@ =~= prefix.push(x).to_set().filter(|k: (u32, Seq<char>)| k.1 == owner && !hs.contains(k)));
            assert(dismissed@ =~= d0.union(
                prefix.push(x).to_set().filter(|k: (u32, Seq<char>)| k.1 == owner && hs.contains(k)),
            ));
        }
        i += 1;
    }
    proof {
        assert(super::ids::id_views(transfers@).take(i as int) =~= super::ids::id_views(transfers@));
    }
    *dismissed_transfers = kept;
}

pub open spec fn not_dismissed(dismissed: Set<(u32, Seq<char>)>) -> spec_fn(Notification) -> bool {
    |n: Notification| match remote_id(n) {
        Some(k) => !dismissed.contains(k),
        None => true,
    }
}

/// Hides the history rows that the user dismissed in the widget, and forgets
/// dismissals of rows that the daemon no longer has.
pub fn apply_local_dismissal_suppression(history: &mut Vec<Notification>, locally_dismissed: &mut RemoteIdSet)
    ensures
        final(locally_dismissed)@ == old(locally_dismissed)@.intersect(id_set(old(history)@)),
        final(history)@ == old(history)@.filter(not_dismissed(old(locally_dismissed)@)),
{
    let ghost h = history@;
    let ghost d = locally_dismissed@;
    let in_history = id_set_of(history.as_slice());
    locally_dismissed.retain_in(&in_history);
    let mut kept: Vec<Notification> = Vec::new();
    let mut i: usize = 0;
    while i < history.len()
        invariant
            h == history@,
            i <= h.len(),
            locally_dismissed@ == d.intersect(id_set(h)),
            kept@ == h.take(i as int).filter(not_dismissed(d)),
        decreases h.len() - i,
    {
        proof {
            assert(h.take(i + 1) =~= h.take(i as int).push(h[i as int]));
            h.take(i as int).lemma_filter_push(h[i as int], not_dismissed(d));
        }
        let n = &history[i];
        let keep = match remote_notification_id(n) {
            Some(k) => {
                proof {
                    assert(id_set(h).contains(id_view(k)));
                }
                !locally_dismissed.contains(k.0, k.1.as_str())
            },
            None => true,
        };
        if keep {
            kept.push(n.copy());
        }
        i += 1;
    }
    assert(h.take(i as int) =~= h);
    *history = kept;
}

/// After suppression no shown row carries a dismissed ID, and every
/// remembered dismissal names a row of the history it was applied to.
pub proof fn law_dismissed_rows_stay_hidden(h: Seq<Notification>, d: Set<(u32, Seq<char>)>)
    ensures
        forall|i: int| 0 <= i < h.filter(not_dismissed(d)).len() ==> match remote_id(
            #[trigger] h.filter(not_dismissed(d))[i],
        ) {
            Some(k) => !d.intersect(id_set(h)).contains(k),
            None => true,
        },
        forall|k: (u32, Seq<char>)| #[trigger] d.intersect(id_set(h)).contains(k) ==> id_set(h).contains(k),
{
    assert forall|i: int| 0 <= i < h.filter(not_dismissed(d)).len() implies match remote_id(
        #[trigger] h.filter(not_dismissed(d))[i],
    ) {
        Some(k) => !d.intersect(id_set(h)).contains(k),
        None => true,
    } by {
        h.lemma_filter_pred(not_dismissed(d), i);
    }
}

/// Once the daemon has removed a dismissed row, the dismissal is forgotten.
pub proof fn law_dismissal_forgotten_after_removal(h: Seq<Notification>, d: Set<(u32, Seq<char>)>, k: (u32, Seq<char>))
    requires
        !id_set(h).contains(k),
    ensures
        !d.intersect(id_set(h)).contains(k),
{
}

// ---------------------------------------------------------------------------
// Activation
// ---------------------------------------------------------------------------

/// Whether a notification comes from Discord, by its application name or its
/// desktop entry (trimmed, without `.desktop`, in any case).
pub open spec fn from_discord(app_name: Seq<char>, desktop_entry: Option<Seq<char>>) -> bool {
    eq_ignore_case(app_name, "discord"@) || (desktop_entry is Some && {
        let entry = lower(strip_all_suffix(trim(desktop_entry->0), ".desktop"@));
        entry == "discord"@ || entry == "com.discordapp.discord"@
    })
}

pub open spec fn has_default_action(keys: Seq<String>) -> bool {
    exists|i: int| 0 <= i < keys.len() && keys[i]@ == "default"@
}

/// Discord's notifications open the conversation through their `default` action.
pub fn discord_activation_action(app_name: &str, desktop_entry: Option<&str>, action_keys: &[String]) -> (r: Option<String>)
    ensures
        r is Some <==> from_discord(app_name@, match desktop_entry {
            Some(e) => Some(e@),
            None => None,
        }) && has_default_action(action_keys@),
        r matches Some(a) ==> a@ == "default"@,
{
    let by_name = eq_ignore_case_str(app_name, "discord");
    let by_entry = match desktop_entry {
        Some(entry) => {
            let trimmed = trimmed_chars(entry);
            let stripped = strip_all_suffix_chars(&trimmed, &chars_of(".desktop"));
            let lowered = lower_chars(&stripped);
            seq_eq(&lowered, &chars_of("discord")) || seq_eq(&lowered, &chars_of("com.discordapp.discord"))
        },
        None => false,
    };
    if !(by_name || by_entry) {
        return None;
    }
    let ghost entry_view = match desktop_entry {
        Some(e) => Some(e@),
        None => None,
    };
    assert(from_discord(app_name@, entry_view));
    let mut i: usize = 0;
    while i < action_keys.len()
        invariant
            i <= action_keys@.len(),
            from_discord(app_name@, entry_view),
            entry_view == match desktop_entry {
                Some(e) => Some(e@),
                None => None,
            },
            forall|j: int| 0 <= j < i ==> action_keys@[j]@ != "default"@,
        decreases action_keys@.len() - i,
    {
        if str_eq(action_keys[i].as_str(), "default") {
            assert(action_keys@[i as int]@ == "default"@);
            return Some(copy_string(&action_keys[i]));
        }
        i += 1;
    }
    None
}

} // verus!
