//! Desktop notifications: the list the widget shows, kept in step with the
//! notification daemon's history.

pub mod ids;
pub mod file_transfers;
pub mod history;
pub mod downloads;
pub mod monitor;
pub mod bus;

use vstd::prelude::*;
use crate::text::{
    chars_of, contains, contains_str, copy_opt_string, copy_string, eq_ignore_case,
    eq_ignore_case_str, lower, lower_chars, opt_string_eq, opt_view, str_eq, string_views,
};
use self::file_transfers::{FileTransfer, opt_is_active, opt_transfer_active};
use self::ids::{RemoteIdSet, id_view, id_views};

verus! {

broadcast use vstd::seq_lib::group_seq_properties;

/// How many notifications of the daemon's history the widget keeps.
pub const COSMIC_NOTIFICATION_HISTORY_LIMIT: usize = 200;

/// A desktop notification.
#[derive(Debug, Clone, PartialEq, Eq)]
pub struct Notification {
    /// The ID that the notification daemon assigned.
    pub id: Option<u32>,
    /// The unique D-Bus name of the daemon that assigned `id`.
    pub server_owner: Option<String>,
    /// The unique D-Bus name of the sender.
    pub sender_owner: Option<String>,
    pub app_name: String,
    pub summary: String,
    pub body: String,
    /// Seconds since the Unix epoch when it was captured.
    pub timestamp: u64,
    /// A local file or directory that the notification can reveal.
    pub open_folder: Option<String>,
    /// The daemon action that opens the item the notification is about.
    pub activation_action: Option<String>,
    /// COSMIC Files copy or move progress.
    pub file_transfer: Option<FileTransfer>,
}

impl Notification {
    pub fn copy(&self) -> (r: Notification)
        ensures
            r == *self,
    {
        Notification {
            id: self.id,
            server_owner: copy_opt_string(&self.server_owner),
            sender_owner: copy_opt_string(&self.sender_owner),
            app_name: copy_string(&self.app_name),
            summary: copy_string(&self.summary),
            body: copy_string(&self.body),
            timestamp: self.timestamp,
            open_folder: copy_opt_string(&self.open_folder),
            activation_action: copy_opt_string(&self.activation_action),
            file_transfer: self.file_transfer,
        }
    }
}

/// How a notification is found again: by its daemon ID, or, for one without
/// (restored from the cache), by its application and time.
#[derive(Debug, Clone, PartialEq, Eq, Hash)]
pub enum NotificationIdentity {
    Remote { id: u32, server_owner: String },
    Local { app_name: String, timestamp: u64 },
}

/// The daemon ID and owner of a notification that has both.
pub open spec fn remote_id(n: Notification) -> Option<(u32, Seq<char>)> {
    match (n.id, n.server_owner) {
        (Some(id), Some(owner)) => Some((id, owner@)),
        _ => None,
    }
}

pub open spec fn identity_of(n: Notification) -> NotificationIdentity {
    match (n.id, n.server_owner) {
        (Some(id), Some(owner)) => NotificationIdentity::Remote { id, server_owner: owner },
        _ => NotificationIdentity::Local { app_name: n.app_name, timestamp: n.timestamp },
    }
}

/// Whether `identity` names `n`.
pub open spec fn identifies(identity: NotificationIdentity, n: Notification) -> bool {
    match identity {
        NotificationIdentity::Remote { id, server_owner } => remote_id(n) == Some((id, server_owner@)),
        NotificationIdentity::Local { app_name, timestamp } => remote_id(n) is None && n.app_name@
            == app_name@ && n.timestamp == timestamp,
    }
}

impl Notification {
    pub fn identity(&self) -> (r: NotificationIdentity)
        ensures
            r == identity_of(*self),
    {
        match (&self.id, &self.server_owner) {
            (Some(id), Some(owner)) => NotificationIdentity::Remote {
                id: *id,
                server_owner: copy_string(owner),
            },
            _ => NotificationIdentity::Local {
                app_name: copy_string(&self.app_name),
                timestamp: self.timestamp,
            },
        }
    }
}

impl NotificationIdentity {
    /// Whether this is the identity of `notification`.
    pub fn matches(&self, notification: &Notification) -> (r: bool)
        ensures
            r == identifies(*self, *notification),
    {
        match self {
            NotificationIdentity::Remote { id, server_owner } => match (
                &notification.id,
                &notification.server_owner,
            ) {
                (Some(nid), Some(owner)) => *nid == *id && str_eq(owner.as_str(), server_owner.as_str()),
                _ => false,
            },
            NotificationIdentity::Local { app_name, timestamp } => match (
                &notification.id,
                &notification.server_owner,
            ) {
                (Some(_), Some(_)) => false,
                _ => notification.timestamp == *timestamp && str_eq(
                    notification.app_name.as_str(),
                    app_name.as_str(),
                ),
            },
        }
    }
}

/// The identity of a notification names it.
pub proof fn law_identity_matches_itself(n: Notification)
    ensures
        identifies(identity_of(n), n),
{
}

pub fn remote_notification_id(notification: &Notification) -> (r: Option<(u32, String)>)
    ensures
        match r {
            Some(k) => remote_id(*notification) == Some(id_view(k)),
            None => remote_id(*notification) is None,
        },
{
    match (&notification.id, &notification.server_owner) {
        (Some(id), Some(owner)) => Some((*id, copy_string(owner))),
        _ => None,
    }
}

/// The daemon IDs of a list, in its order.
pub open spec fn remote_ids(s: Seq<Notification>) -> Seq<(u32, Seq<char>)>
    decreases s.len(),
{
    if s.len() == 0 {
        Seq::empty()
    } else {
        match remote_id(s.last()) {
            Some(k) => remote_ids(s.drop_last()).push(k),
            None => remote_ids(s.drop_last()),
        }
    }
}

/// The set of daemon IDs of a list.
pub open spec fn id_set(s: Seq<Notification>) -> Set<(u32, Seq<char>)> {
    Set::new(|k: (u32, Seq<char>)| exists|i: int| 0 <= i < s.len() && remote_id(s[i]) == Some(k))
}

pub fn remote_notification_ids(notifications: &[Notification]) -> (r: Vec<(u32, String)>)
    ensures
        id_views(r@) == remote_ids(notifications@),
{
    let mut r: Vec<(u32, String)> = Vec::new();
    let mut i: usize = 0;
    while i < notifications.len()
        invariant
            i <= notifications@.len(),
            id_views(r@) == remote_ids(notifications@.take(i as int)),
        decreases notifications@.len() - i,
    {
        let ghost before = r@;
        assert(notifications@.take(i + 1).drop_last() =~= notifications@.take(i as int));
        match remote_notification_id(&notifications[i]) {
            Some(k) => {
                r.push(k);
                assert(id_views(r@) =~= id_views(before).push(id_view(k)));
            },
            None => {},
        }
        i += 1;
    }
    assert(notifications@.take(i as int) =~= notifications@);
    r
}

/// The set of daemon IDs of a list.
pub fn id_set_of(notifications: &[Notification]) -> (r: RemoteIdSet)
    ensures
        r@ == id_set(notifications@),
{
    let mut r = RemoteIdSet::new();
    let mut i: usize = 0;
    while i < notifications.len()
        invariant
            i <= notifications@.len(),
            r@ == id_set(notifications@.take(i as int)),
        decreases notifications@.len() - i,
    {
        let ghost before = r@;
        match remote_notification_id(&notifications[i]) {
            Some(k) => {
                r.insert(k.0, k.1);
            },
            None => {},
        }
        proof {
            let t = notifications@.take(i + 1);
            assert forall|k: (u32, Seq<char>)| r@.contains(k) <==> id_set(t).contains(k) by {
                if id_set(t).contains(k) {
                    let j = choose|j: int| 0 <= j < t.len() && remote_id(t[j]) == Some(k);
                    if j < i {
                        assert(notifications@.take(i as int)[j] == t[j]);
                        assert(before.contains(k));
                    }
                }
                if before.contains(k) {
                    let j = choose|j: int| 0 <= j < i && remote_id(notifications@.take(i as int)[j]) == Some(k);
                    assert(t[j] == notifications@.take(i as int)[j]);
                }
                if remote_id(notifications@[i as int]) == Some(k) {
                    assert(t[i as int] == notifications@[i as int]);
                }
            }
            assert(r@ =~= id_set(t));
        }
        i += 1;
    }
    assert(notifications@.take(i as int) =~= notifications@);
    r
}

// ---------------------------------------------------------------------------
// Filtering
// ---------------------------------------------------------------------------

/// A routine battery report of Solaar (the widget shows batteries itself);
/// Solaar's other notifications, such as pairing, stay.
pub open spec fn unwanted_discharge(n: Notification) -> bool {
    &&& eq_ignore_case(n.app_name@, "solaar"@)
    &&& contains(lower(n.body@), "discharg"@)
    &&& (contains(lower(n.body@), "battery"@) || contains(lower(n.summary@), "battery"@))
}

pub fn is_unwanted_battery_discharge(notification: &Notification) -> (r: bool)
    ensures
        r == unwanted_discharge(*notification),
{
    if !eq_ignore_case_str(notification.app_name.as_str(), "solaar") {
        return false;
    }
    let body = lower_chars(&chars_of(notification.body.as_str()));
    let summary = lower_chars(&chars_of(notification.summary.as_str()));
    contains_str(&body, "discharg") && (contains_str(&body, "battery") || contains_str(
        &summary,
        "battery",
    ))
}

pub open spec fn wanted() -> spec_fn(Notification) -> bool {
    |n: Notification| !unwanted_discharge(n)
}

/// The notifications that are no routine Solaar battery report, in order.
pub fn without_unwanted(notifications: &[Notification]) -> (r: Vec<Notification>)
    ensures
        r@ == notifications@.filter(wanted()),
{
    let mut r: Vec<Notification> = Vec::new();
    let mut i: usize = 0;
    while i < notifications.len()
        invariant
            i <= notifications@.len(),
            r@ == notifications@.take(i as int).filter(wanted()),
        decreases notifications@.len() - i,
    {
        proof {
            assert(notifications@.take(i + 1) =~= notifications@.take(i as int).push(notifications@[i as int]));
            notifications@.take(i as int).lemma_filter_push(notifications@[i as int], wanted());
        }
        if !is_unwanted_battery_discharge(&notifications[i]) {
            r.push(notifications[i].copy());
        }
        i += 1;
    }
    assert(notifications@.take(i as int) =~= notifications@);
    r
}

pub open spec fn not_active() -> spec_fn(Notification) -> bool {
    |n: Notification| !opt_transfer_active(n.file_transfer)
}

/// What the cache keeps: everything but transfers under way, which are live only.
pub fn persistable_notifications(notifications: &[Notification]) -> (r: Vec<Notification>)
    ensures
        r@ == notifications@.filter(not_active()),
{
    let mut r: Vec<Notification> = Vec::new();
    let mut i: usize = 0;
    while i < notifications.len()
        invariant
            i <= notifications@.len(),
            r@ == notifications@.take(i as int).filter(not_active()),
        decreases notifications@.len() - i,
    {
        proof {
            assert(notifications@.take(i + 1) =~= notifications@.take(i as int).push(notifications@[i as int]));
            notifications@.take(i as int).lemma_filter_push(notifications@[i as int], not_active());
        }
        if !opt_is_active(&notifications[i].file_transfer) {
            r.push(notifications[i].copy());
        }
        i += 1;
    }
    assert(notifications@.take(i as int) =~= notifications@);
    r
}

pub open spec fn restorable() -> spec_fn(Notification) -> bool {
    |n: Notification| !opt_transfer_active(n.file_transfer) && !unwanted_discharge(n)
}

pub open spec fn truncated<A>(s: Seq<A>, n: int) -> Seq<A> {
    if s.len() <= n {
        s
    } else {
        s.take(n)
    }
}

/// What is restored from the cache: no transfer under way, no routine
/// Solaar battery report, at most `max_notifications`.
pub fn restorable_notifications(notifications: &[Notification], max_notifications: usize) -> (r: Vec<
    Notification,
>)
    ensures
        r@ == truncated(notifications@.filter(restorable()), max_notifications as int),
{
    let mut r: Vec<Notification> = Vec::new();
    let mut i: usize = 0;
    while i < notifications.len()
        invariant
            i <= notifications@.len(),
            r@ == notifications@.take(i as int).filter(restorable()),
        decreases notifications@.len() - i,
    {
        proof {
            assert(notifications@.take(i + 1) =~= notifications@.take(i as int).push(notifications@[i as int]));
            notifications@.take(i as int).lemma_filter_push(notifications@[i as int], restorable());
        }
        if !opt_is_active(&notifications[i].file_transfer) && !is_unwanted_battery_discharge(
            &notifications[i],
        ) {
            r.push(notifications[i].copy());
        }
        i += 1;
    }
    assert(notifications@.take(i as int) =~= notifications@);
    r.truncate(max_notifications);
    r
}

/// Whether a cache written under `cached_key` belongs to the boot `session_key`:
/// the same key, or an older key of this boot (the boot key, `:` and more).
pub open spec fn same_boot(cached_key: Seq<char>, session_key: Seq<char>) -> bool {
    cached_key == session_key || (cached_key.len() > session_key.len() && cached_key.take(
        session_key.len() as int,
    ) == session_key && cached_key[session_key.len() as int] == ':')
}

pub fn from_current_boot(cached_key: &str, session_key: &str) -> (r: bool)
    ensures
        r == same_boot(cached_key@, session_key@),
{
    let cached = chars_of(cached_key);
    let session = chars_of(session_key);
    if crate::text::seq_eq(&cached, &session) {
        return true;
    }
    if cached.len() <= session.len() {
        return false;
    }
    let prefix = crate::text::starts_with_chars(&cached, &session);
    proof {
        if prefix {
            assert(cached@.take(session@.len() as int) =~= cached@.subrange(0, session@.len() as int));
        } else {
            assert(cached@.take(session@.len() as int) =~= cached@.subrange(0, session@.len() as int));
        }
    }
    prefix && cached[session.len()] == ':'
}

// ---------------------------------------------------------------------------
// Transfers whose sender went away
// ---------------------------------------------------------------------------

pub open spec fn abandoned_by(sender: Seq<char>) -> spec_fn(Notification) -> bool {
    |n: Notification| !(opt_view(n.sender_owner) == Some(sender) && opt_transfer_active(n.file_transfer))
}

/// Drops the transfers under way that `sender` started; its finished ones and
/// other senders' stay.
pub fn remove_abandoned_transfers(notifications: &mut Vec<Notification>, sender: &str)
    ensures
        final(notifications)@ == old(notifications)@.filter(abandoned_by(sender@)),
{
    let ghost s = notifications@;
    let mut kept: Vec<Notification> = Vec::new();
    let mut i: usize = 0;
    while i < notifications.len()
        invariant
            s == notifications@,
            i <= s.len(),
            kept@ == s.take(i as int).filter(abandoned_by(sender@)),
        decreases s.len() - i,
    {
        proof {
            assert(s.take(i + 1) =~= s.take(i as int).push(s[i as int]));
            s.take(i as int).lemma_filter_push(s[i as int], abandoned_by(sender@));
        }
        let n = &notifications[i];
        let from_sender = match &n.sender_owner {
            Some(owner) => str_eq(owner.as_str(), sender),
            None => false,
        };
        if !(from_sender && opt_is_active(&n.file_transfer)) {
            kept.push(n.copy());
        }
        i += 1;
    }
    assert(s.take(i as int) =~= s);
    *notifications = kept;
}

pub open spec fn active_sender(n: Notification, x: Seq<char>) -> bool {
    opt_transfer_active(n.file_transfer) && opt_view(n.sender_owner) == Some(x)
}

/// The senders of transfers under way, each once.
pub fn transfer_senders(notifications: &[Notification]) -> (r: Vec<String>)
    ensures
        forall|x: Seq<char>| string_views(r@).contains(x) <==> exists|i: int|
            0 <= i < notifications@.len() && #[trigger] active_sender(notifications@[i], x),
        string_views(r@).no_duplicates(),
{
    let mut r: Vec<String> = Vec::new();
    let mut i: usize = 0;
    while i < notifications.len()
        invariant
            i <= notifications@.len(),
            forall|x: Seq<char>| string_views(r@).contains(x) <==> exists|j: int|
                0 <= j < i && #[trigger] active_sender(notifications@[j], x),
            string_views(r@).no_duplicates(),
        decreases notifications@.len() - i,
    {
        let n = &notifications[i];
        if opt_is_active(&n.file_transfer) {
            if let Some(sender) = &n.sender_owner {
                let mut seen = false;
                let mut j: usize = 0;
                while j < r.len()
                    invariant
                        j <= r@.len(),
                        seen == exists|k: int| 0 <= k < j && r@[k]@ == sender@,
                    decreases r@.len() - j,
                {
                    if str_eq(r[j].as_str(), sender.as_str()) {
                        seen = true;
                    }
                    j += 1;
                }
                let ghost before = string_views(r@);
                if !seen {
                    r.push(copy_string(sender));
                    proof {
                        assert(string_views(r@) =~= before.push(sender@));
                        assert(!before.contains(sender@)) by {
                            if before.contains(sender@) {
                                let k = choose|k: int| 0 <= k < before.len() && before[k] == sender@;
                                assert(r@[k]@ == sender@);
                            }
                        }
                    }
                } else {
                    proof {
                        let k = choose|k: int| 0 <= k < j && r@[k]@ == sender@;
                        assert(before[k] == sender@);
                    }
                }
                proof {
                    assert forall|x: Seq<char>| string_views(r@).contains(x) <==> exists|j2: int|
                        0 <= j2 < i + 1 && active_sender(notifications@[j2], x) by {
                        if x == sender@ {
                            assert(opt_view(notifications@[i as int].sender_owner) == Some(x));
                            if !seen {
                                assert(string_views(r@)[r@.len() - 1] == x);
                            }
                        } else {
                            if exists|j2: int| 0 <= j2 < i + 1 && active_sender(notifications@[j2], x) {
                                let j2 = choose|j2: int| 0 <= j2 < i + 1 && active_sender(notifications@[j2], x);
                                assert(j2 < i);
                            }
                            if !seen {
                                if string_views(r@).contains(x) {
                                    let k = choose|k: int| 0 <= k < r@.len() && string_views(r@)[k] == x;
                                    assert(k < before.len());
                                    assert(before[k] == x);
                                }
                                if before.contains(x) {
                                    let k = choose|k: int| 0 <= k < before.len() && before[k] == x;
                                    assert(string_views(r@)[k] == x);
                                }
                            }
                        }
                    }
                }
            } else {
                proof {
                    assert forall|x: Seq<char>| string_views(r@).contains(x) <==> exists|j2: int|
                        0 <= j2 < i + 1 && active_sender(notifications@[j2], x) by {
                        if exists|j2: int| 0 <= j2 < i + 1 && active_sender(notifications@[j2], x) {
                            let j2 = choose|j2: int| 0 <= j2 < i + 1 && active_sender(notifications@[j2], x);
                            assert(j2 < i);
                        }
                    }
                }
            }
        } else {
            proof {
                assert forall|x: Seq<char>| string_views(r@).contains(x) <==> exists|j2: int|
                    0 <= j2 < i + 1 && active_sender(notifications@[j2], x) by {
                    if exists|j2: int| 0 <= j2 < i + 1 && active_sender(notifications@[j2], x) {
                        let j2 = choose|j2: int| 0 <= j2 < i + 1 && active_sender(notifications@[j2], x);
                        assert(j2 < i);
                    }
                }
            }
        }
        i += 1;
    }
    r
}

} // verus!
