//! The widget's notification list and the decisions taken on it: what a bus
//! event, a history refresh or a click changes, and what the caller has to do
//! next (persist the list, refresh the history, close rows at the daemon).

use vstd::prelude::*;
use crate::text::{copy_string, opt_string_eq, opt_view, str_eq};
use super::{
    Notification, NotificationIdentity, truncated, id_set, id_set_of, identifies, remote_id,
    remote_ids, remote_notification_id, remote_notification_ids, unwanted_discharge, wanted,
    without_unwanted,
};
use super::file_transfers::{opt_is_active, opt_transfer_active};
use super::history::{
    CosmicNotificationHistory, apply_local_dismissal_suppression, not_dismissed,
    reconcile_transfer_dismissals, upsert_notification, upserted,
};
use super::ids::{RemoteIdSet, id_view, id_views};

verus! {

broadcast use vstd::seq_lib::group_seq_properties;

/// What the notification bus reported.
#[derive(Debug, Clone, PartialEq, Eq)]
pub enum NotificationBusEvent {
    /// A notification that the daemon accepted (new, or replacing one).
    Upsert(Notification),
    /// A sender left the bus.
    SenderGone(String),
    /// The daemon closed a notification (`reason` 2: dismissed by the user).
    Closed { id: u32, server_owner: String, reason: u32 },
}

/// What the caller does after an event.
#[derive(Debug, Clone, Copy, PartialEq, Eq, Structural)]
pub enum BusReaction {
    Nothing,
    /// Ask the daemon's history again (a dismissed notification came back).
    RefreshHistory,
    /// Write the list to the cache.
    Persist,
    PersistAndRefresh,
}

/// What a history refresh did.
#[derive(Debug, Clone, Copy, PartialEq, Eq, Structural)]
pub enum HistoryOutcome {
    /// The list changed while the history was fetched; fetch it again.
    Retry,
    Unchanged,
    /// The list is now the history; write it to the cache.
    Replaced,
}

/// Two notifications that hold the same values.
pub open spec fn same_notification(a: Notification, b: Notification) -> bool {
    &&& a.id == b.id
    &&& opt_view(a.server_owner) == opt_view(b.server_owner)
    &&& opt_view(a.sender_owner) == opt_view(b.sender_owner)
    &&& a.app_name@ == b.app_name@
    &&& a.summary@ == b.summary@
    &&& a.body@ == b.body@
    &&& a.timestamp == b.timestamp
    &&& opt_view(a.open_folder) == opt_view(b.open_folder)
    &&& opt_view(a.activation_action) == opt_view(b.activation_action)
    &&& a.file_transfer == b.file_transfer
}

pub open spec fn same_list(a: Seq<Notification>, b: Seq<Notification>) -> bool {
    a.len() == b.len() && forall|i: int| 0 <= i < a.len() ==> #[trigger] same_notification(a[i], b[i])
}

fn notification_eq(a: &Notification, b: &Notification) -> (r: bool)
    ensures
        r == same_notification(*a, *b),
{
    a.id == b.id && opt_string_eq(&a.server_owner, &b.server_owner) && opt_string_eq(
        &a.sender_owner,
        &b.sender_owner,
    ) && str_eq(a.app_name.as_str(), b.app_name.as_str()) && str_eq(a.summary.as_str(), b.summary.as_str())
        && str_eq(a.body.as_str(), b.body.as_str()) && a.timestamp == b.timestamp && opt_string_eq(
        &a.open_folder,
        &b.open_folder,
    ) && opt_string_eq(&a.activation_action, &b.activation_action) && a.file_transfer == b.file_transfer
}

/// Whether two lists hold the same notifications in the same order.
pub fn same_notifications(a: &[Notification], b: &[Notification]) -> (r: bool)
    ensures
        r == same_list(a@, b@),
{
    if a.len() != b.len() {
        return false;
    }
    let mut i: usize = 0;
    while i < a.len()
        invariant
            a@.len() == b@.len(),
            i <= a@.len(),
            forall|j: int| 0 <= j < i ==> #[trigger] same_notification(a@[j], b@[j]),
        decreases a@.len() - i,
    {
        if !notification_eq(&a[i], &b[i]) {
            return false;
        }
        i += 1;
    }
    true
}

/// IDs of the active transfers of a list.
pub open spec fn transfer_id_set(s: Seq<Notification>) -> Set<(u32, Seq<char>)> {
    Set::new(
        |k: (u32, Seq<char>)|
            exists|i: int| 0 <= i < s.len() && opt_transfer_active(s[i].file_transfer) && remote_id(s[i]) == Some(k),
    )
}

pub open spec fn from_app(app_name: Seq<char>) -> spec_fn(Notification) -> bool {
    |n: Notification| n.app_name@ == app_name
}

pub open spec fn not_from_app(app_name: Seq<char>) -> spec_fn(Notification) -> bool {
    |n: Notification| n.app_name@ != app_name
}

pub open spec fn not_identified(identity: NotificationIdentity) -> spec_fn(Notification) -> bool {
    |n: Notification| !identifies(identity, n)
}

pub open spec fn is_identified(identity: NotificationIdentity) -> spec_fn(Notification) -> bool {
    |n: Notification| identifies(identity, n)
}

/// The first row that `identity` names, as a list of at most one.
pub open spec fn first_identified(s: Seq<Notification>, identity: NotificationIdentity) -> Seq<Notification> {
    let k = crate::text::first_match(s, is_identified(identity));
    if k >= 0 {
        seq![s[k]]
    } else {
        Seq::empty()
    }
}

pub open spec fn closes(id: u32, owner: Seq<char>) -> spec_fn(Notification) -> bool {
    |n: Notification| !(n.id == Some(id) && opt_view(n.server_owner) == Some(owner))
}

pub open spec fn not_remote(k: (u32, Seq<char>)) -> spec_fn(Notification) -> bool {
    |n: Notification| remote_id(n) != Some(k)
}

/// The notification list and what the user dismissed in the widget.
pub struct NotificationMonitor {
    notifications: Vec<Notification>,
    locally_dismissed: RemoteIdSet,
    dismissed_transfers: RemoteIdSet,
    max_count: usize,
}

impl NotificationMonitor {
    /// At most `limit()` rows are kept.
    pub open spec fn well_formed(self) -> bool {
        self.rows().len() <= self.limit()
    }

    /// Every row, newest first (routine Solaar battery reports included).
    pub closed spec fn rows(self) -> Seq<Notification> {
        self.notifications@
    }

    /// IDs that the user dismissed in the widget and that the daemon still had.
    pub closed spec fn dismissed(self) -> Set<(u32, Seq<char>)> {
        self.locally_dismissed@
    }

    /// IDs of transfers that the user dismissed while they were under way.
    pub closed spec fn dismissed_transfer_ids(self) -> Set<(u32, Seq<char>)> {
        self.dismissed_transfers@
    }

    /// How many live notifications are kept.
    pub closed spec fn limit(self) -> nat {
        self.max_count as nat
    }

    /// A monitor that starts from restored rows and keeps at most `max_count`
    /// of them, the newest.
    pub fn new(notifications: Vec<Notification>, max_count: usize) -> (r: Self)
        ensures
            r.rows() == truncated(notifications@, max_count as int),
            r.well_formed(),
            r.dismissed() == Set::<(u32, Seq<char>)>::empty(),
            r.dismissed_transfer_ids() == Set::<(u32, Seq<char>)>::empty(),
            r.limit() == max_count,
    {
        let mut notifications = notifications;
        notifications.truncate(max_count);
        NotificationMonitor {
            notifications,
            locally_dismissed: RemoteIdSet::new(),
            dismissed_transfers: RemoteIdSet::new(),
            max_count,
        }
    }

    /// The notifications to show, newest first: all but routine Solaar
    /// battery reports.
    pub fn get_notifications(&self) -> (r: Vec<Notification>)
        ensures
            r@ == self.rows().filter(wanted()),
            self.well_formed() ==> r@.len() <= self.limit(),
    {
        proof {
            self.notifications@.lemma_filter_len(wanted());
        }
        without_unwanted(self.notifications.as_slice())
    }

    /// Every row, as the cache stores it.
    pub fn snapshot(&self) -> (r: Vec<Notification>)
        ensures
            r@ == self.rows(),
    {
        let mut r: Vec<Notification> = Vec::new();
        let mut i: usize = 0;
        while i < self.notifications.len()
            invariant
                i <= self.notifications@.len(),
                r@ == self.notifications@.take(i as int),
            decreases self.notifications@.len() - i,
        {
            r.push(self.notifications[i].copy());
            i += 1;
            assert(r@ =~= self.notifications@.take(i as int));
        }
        assert(self.notifications@.take(i as int) =~= self.notifications@);
        r
    }

    /// Remembers that the user dismissed `selected`: their IDs, and those of
    /// the transfers among them, so that the daemon's copies stay hidden.
    /// Returns the IDs to close at the daemon.
    fn suppress(&mut self, selected: &[Notification]) -> (r: Vec<(u32, String)>)
        ensures
            id_views(r@) == remote_ids(selected@),
            final(self).locally_dismissed@ == old(self).locally_dismissed@.union(id_set(selected@)),
            final(self).dismissed_transfers@ == old(self).dismissed_transfers@.union(
                transfer_id_set(selected@),
            ),
            final(self).notifications == old(self).notifications,
            final(self).max_count == old(self).max_count,
    {
        let remote = remote_notification_ids(selected);
        let ghost d0 = self.locally_dismissed@;
        let ghost t0 = self.dismissed_transfers@;
        let mut i: usize = 0;
        while i < selected.len()
            invariant
                i <= selected@.len(),
                self.locally_dismissed@ == d0.union(id_set(selected@.take(i as int))),
                self.dismissed_transfers@ == t0.union(transfer_id_set(selected@.take(i as int))),
                self.notifications == old(self).notifications,
                self.max_count == old(self).max_count,
            decreases selected@.len() - i,
        {
            let ghost before_d = self.locally_dismissed@;
            let ghost before_t = self.dismissed_transfers@;
            let n = &selected[i];
            let active = opt_is_active(&n.file_transfer);
            match remote_notification_id(n) {
                Some(k) => {
                    self.locally_dismissed.insert(k.0, copy_string(&k.1));
                    if active {
                        self.dismissed_transfers.insert(k.0, k.1);
                    }
                },
                None => {},
            }
            proof {
                let t = selected@.take(i + 1);
                let p = selected@.take(i as int);
                assert(t =~= p.push(selected@[i as int]));
                assert forall|k: (u32, Seq<char>)| id_set(t).contains(k) <==> (id_set(p).contains(k) || remote_id(selected@[i as int]) == Some(k)) by {
                    if id_set(t).contains(k) {
                        let j = choose|j: int| 0 <= j < t.len() && remote_id(t[j]) == Some(k);
                        if j < i {
                            assert(p[j] == t[j]);
                        }
                    }
                    if id_set(p).contains(k) {
                        let j = choose|j: int| 0 <= j < p.len() && remote_id(p[j]) == Some(k);
                        assert(t[j] == p[j]);
                    }
                    if remote_id(selected@[i as int]) == Some(k) {
                        assert(t[i as int] == selected@[i as int]);
                    }
                }
                assert forall|k: (u32, Seq<char>)| transfer_id_set(t).contains(k) <==> (transfer_id_set(p).contains(k) || (
                opt_transfer_active(selected@[i as int].file_transfer) && remote_id(selected@[i as int]) == Some(k))) by {
                    if transfer_id_set(t).contains(k) {
                        let j = choose|j: int| 0 <= j < t.len() && opt_transfer_active(t[j].file_transfer) && remote_id(t[j]) == Some(k);
                        if j < i {
                            assert(p[j] == t[j]);
                        }
                    }
                    if transfer_id_set(p).contains(k) {
                        let j = choose|j: int| 0 <= j < p.len() && opt_transfer_active(p[j].file_transfer) && remote_id(p[j]) == Some(k);
                        assert(t[j] == p[j]);
                    }
                    if opt_transfer_active(selected@[i as int].file_transfer) && remote_id(selected@[i as int]) == Some(k) {
                        assert(t[i as int] == selected@[i as int]);
                    }
                }
                assert(self.locally_dismissed@ =~= d0.union(id_set(t)));
                assert(self.dismissed_transfers@ =~= t0.union(transfer_id_set(t)));
            }
            i += 1;
        }
        assert(selected@.take(i as int) =~= selected@);
        remote
    }

    fn retain_rows_of_other_apps(&mut self, app_name: &str)
        ensures
            final(self).notifications@ == old(self).notifications@.filter(not_from_app(app_name@)),
            final(self).locally_dismissed == old(self).locally_dismissed,
            final(self).dismissed_transfers == old(self).dismissed_transfers,
            final(self).max_count == old(self).max_count,
    {
        let ghost s = self.notifications@;
        let mut kept: Vec<Notification> = Vec::new();
        let mut i: usize = 0;
        while i < self.notifications.len()
            invariant
                s == self.notifications@,
                i <= s.len(),
                kept@ == s.take(i as int).filter(not_from_app(app_name@)),
            decreases s.len() - i,
        {
            proof {
                assert(s.take(i + 1) =~= s.take(i as int).push(s[i as int]));
                s.take(i as int).lemma_filter_push(s[i as int], not_from_app(app_name@));
            }
            if !str_eq(self.notifications[i].app_name.as_str(), app_name) {
                kept.push(self.notifications[i].copy());
            }
            i += 1;
        }
        assert(s.take(i as int) =~= s);
        self.notifications = kept;
    }

    /// Removes every row, and remembers them as dismissed. Returns the IDs
    /// to close at the daemon.
    pub fn clear(&mut self) -> (to_close: Vec<(u32, String)>)
        ensures
            old(self).well_formed() ==> final(self).well_formed(),
            final(self).rows() == Seq::<Notification>::empty(),
            id_views(to_close@) == remote_ids(old(self).rows()),
            final(self).dismissed() == old(self).dismissed().union(id_set(old(self).rows())),
            final(self).dismissed_transfer_ids() == old(self).dismissed_transfer_ids().union(
                transfer_id_set(old(self).rows()),
            ),
            final(self).limit() == old(self).limit(),
    {
        let rows = self.snapshot();
        let remote = self.suppress(rows.as_slice());
        self.notifications = Vec::new();
        remote
    }

    /// Removes the rows of one application (its name compared exactly), and
    /// remembers them as dismissed. Returns the IDs to close at the daemon.
    pub fn clear_app(&mut self, app_name: &str) -> (to_close: Vec<(u32, String)>)
        ensures
            old(self).well_formed() ==> final(self).well_formed(),
            final(self).rows() == old(self).rows().filter(not_from_app(app_name@)),
            id_views(to_close@) == remote_ids(old(self).rows().filter(from_app(app_name@))),
            final(self).dismissed() == old(self).dismissed().union(
                id_set(old(self).rows().filter(from_app(app_name@))),
            ),
            final(self).dismissed_transfer_ids() == old(self).dismissed_transfer_ids().union(
                transfer_id_set(old(self).rows().filter(from_app(app_name@))),
            ),
            final(self).limit() == old(self).limit(),
    {
        let ghost s = self.notifications@;
        let mut selected: Vec<Notification> = Vec::new();
        let mut i: usize = 0;
        while i < self.notifications.len()
            invariant
                s == self.notifications@,
                i <= s.len(),
                selected@ == s.take(i as int).filter(from_app(app_name@)),
            decreases s.len() - i,
        {
            proof {
                assert(s.take(i + 1) =~= s.take(i as int).push(s[i as int]));
                s.take(i as int).lemma_filter_push(s[i as int], from_app(app_name@));
            }
            if str_eq(self.notifications[i].app_name.as_str(), app_name) {
                selected.push(self.notifications[i].copy());
            }
            i += 1;
        }
        assert(s.take(i as int) =~= s);
        let remote = self.suppress(selected.as_slice());
        self.retain_rows_of_other_apps(app_name);
        remote
    }

    /// Removes the row that `identity` names (every row it names), and
    /// remembers the first one as dismissed. Returns the IDs to close.
    pub fn remove_notification(&mut self, identity: &NotificationIdentity) -> (to_close: Vec<(u32, String)>)
        ensures
            old(self).well_formed() ==> final(self).well_formed(),
            final(self).rows() == old(self).rows().filter(not_identified(*identity)),
            id_views(to_close@) == remote_ids(first_identified(old(self).rows(), *identity)),
            final(self).dismissed() == old(self).dismissed().union(
                id_set(first_identified(old(self).rows(), *identity)),
            ),
            final(self).dismissed_transfer_ids() == old(self).dismissed_transfer_ids().union(
                transfer_id_set(first_identified(old(self).rows(), *identity)),
            ),
            final(self).limit() == old(self).limit(),
    {
        let ghost s = self.notifications@;
        let mut selected: Vec<Notification> = Vec::new();
        match self.find_identified(identity) {
            Some(k) => {
                selected.push(self.notifications[k].copy());
            },
            None => {},
        }
        assert(selected@ =~= first_identified(s, *identity));
        let remote = self.suppress(selected.as_slice());
        let mut kept: Vec<Notification> = Vec::new();
        let mut i: usize = 0;
        while i < self.notifications.len()
            invariant
                s == self.notifications@,
                i <= s.len(),
                kept@ == s.take(i as int).filter(not_identified(*identity)),
            decreases s.len() - i,
        {
            proof {
                assert(s.take(i + 1) =~= s.take(i as int).push(s[i as int]));
                s.take(i as int).lemma_filter_push(s[i as int], not_identified(*identity));
            }
            if !identity.matches(&self.notifications[i]) {
                kept.push(self.notifications[i].copy());
            }
            i += 1;
        }
        assert(s.take(i as int) =~= s);
        self.notifications = kept;
        remote
    }

    /// The daemon ID, owner and action to invoke for the row that `identity`
    /// names: the first such row, when it has a daemon ID and an action.
    pub fn activate_notification(&self, identity: &NotificationIdentity) -> (r: Option<(u32, String, String)>)
        ensures
            ({
                let k = crate::text::first_match(self.rows(), is_identified(*identity));
                match r {
                    Some(t) => k >= 0 && remote_id(self.rows()[k]) == Some((t.0, t.1@))
                        && opt_view(self.rows()[k].activation_action) == Some(t.2@),
                    None => k < 0 || remote_id(self.rows()[k]) is None
                        || self.rows()[k].activation_action is None,
                }
            }),
    {
        match self.find_identified(identity) {
            Some(k) => {
                let n = &self.notifications[k];
                match (remote_notification_id(n), &n.activation_action) {
                    (Some(id), Some(action)) => Some((id.0, id.1, copy_string(action))),
                    _ => None,
                }
            },
            None => None,
        }
    }

    fn find_identified(&self, identity: &NotificationIdentity) -> (r: Option<usize>)
        ensures
            r matches Some(k) ==> k < self.notifications@.len() && k as int == crate::text::first_match(
                self.notifications@,
                is_identified(*identity),
            ),
            r is None ==> crate::text::first_match(self.notifications@, is_identified(*identity)) < 0,
    {
        let ghost s = self.notifications@;
        let mut i: usize = 0;
        while i < self.notifications.len()
            invariant
                s == self.notifications@,
                i <= s.len(),
                forall|j: int| 0 <= j < i ==> !(is_identified(*identity))(#[trigger] s[j]),
            decreases s.len() - i,
        {
            if identity.matches(&self.notifications[i]) {
                proof {
                    crate::text::lemma_first_match(s, is_identified(*identity), i as int);
                }
                return Some(i);
            }
            i += 1;
        }
        proof {
            crate::text::lemma_first_match(s, is_identified(*identity), s.len() as int);
        }
        None
    }

    fn retain_rows(&mut self, keep: Ghost<spec_fn(Notification) -> bool>, id: u32, owner: &str, by_remote: bool)
        requires
            by_remote ==> keep@ == not_remote((id, owner@)),
            !by_remote ==> keep@ == closes(id, owner@),
        ensures
            final(self).notifications@ == old(self).notifications@.filter(keep@),
            final(self).locally_dismissed == old(self).locally_dismissed,
            final(self).dismissed_transfers == old(self).dismissed_transfers,
            final(self).max_count == old(self).max_count,
    {
        let ghost s = self.notifications@;
        let mut kept: Vec<Notification> = Vec::new();
        let mut i: usize = 0;
        while i < self.notifications.len()
            invariant
                s == self.notifications@,
                i <= s.len(),
                kept@ == s.take(i as int).filter(keep@),
                by_remote ==> keep@ == not_remote((id, owner@)),
                !by_remote ==> keep@ == closes(id, owner@),
            decreases s.len() - i,
        {
            proof {
                assert(s.take(i + 1) =~= s.take(i as int).push(s[i as int]));
                s.take(i as int).lemma_filter_push(s[i as int], keep@);
            }
            let n = &self.notifications[i];
            let matching = n.id == Some(id) && match &n.server_owner {
                Some(o) => str_eq(o.as_str(), owner),
                None => false,
            };
            if !matching {
                kept.push(n.copy());
            }
            i += 1;
        }
        assert(s.take(i as int) =~= s);
        self.notifications = kept;
    }

    /// Applies an event of the notification bus and says what to do next.
    /// `Upsert` expects the notification's folder to be resolved already.
    pub fn apply_event(&mut self, event: NotificationBusEvent) -> (reaction: BusReaction)
        ensures
            old(self).well_formed() ==> final(self).well_formed(),
            final(self).limit() == old(self).limit(),
            final(self).dismissed() == old(self).dismissed(),
            match event {
                NotificationBusEvent::Upsert(n) => if remote_id(n) matches Some(k) && (old(self).dismissed().contains(k)
                    || old(self).dismissed_transfer_ids().contains(k)) {
                    reaction == BusReaction::RefreshHistory && final(self).rows() == old(self).rows()
                        && final(self).dismissed_transfer_ids() == old(self).dismissed_transfer_ids()
                } else if unwanted_discharge(n) {
                    &&& final(self).rows() == match remote_id(n) {
                        Some(k) => old(self).rows().filter(not_remote(k)),
                        None => old(self).rows(),
                    }
                    &&& reaction == if final(self).rows().len() != old(self).rows().len() {
                        BusReaction::Persist
                    } else {
                        BusReaction::Nothing
                    }
                    &&& final(self).dismissed_transfer_ids() == old(self).dismissed_transfer_ids()
                } else {
                    &&& final(self).rows() == upserted(old(self).rows(), n, old(self).limit() as int)
                    &&& reaction == if opt_transfer_active(n.file_transfer) {
                        BusReaction::Nothing
                    } else {
                        BusReaction::PersistAndRefresh
                    }
                    &&& final(self).dismissed_transfer_ids() == old(self).dismissed_transfer_ids()
                },
                NotificationBusEvent::Closed { id, server_owner, reason } => {
                    let user_closed_transfer = reason == 2 && exists|i: int|
                        0 <= i < old(self).rows().len() && (#[trigger] old(self).rows()[i]).id == Some(id)
                            && opt_view(old(self).rows()[i].server_owner) == Some(server_owner@)
                            && opt_transfer_active(old(self).rows()[i].file_transfer);
                    &&& final(self).dismissed_transfer_ids() == if user_closed_transfer {
                        old(self).dismissed_transfer_ids().insert((id, server_owner@))
                    } else {
                        old(self).dismissed_transfer_ids()
                    }
                    &&& final(self).rows() == old(self).rows().filter(closes(id, server_owner@))
                    &&& reaction == if final(self).rows().len() == old(self).rows().len() {
                        BusReaction::Nothing
                    } else {
                        BusReaction::PersistAndRefresh
                    }
                },
                NotificationBusEvent::SenderGone(sender) => {
                    &&& final(self).rows() == old(self).rows().filter(super::abandoned_by(sender@))
                    &&& final(self).dismissed_transfer_ids() == old(self).dismissed_transfer_ids()
                    &&& reaction == if final(self).rows().len() == old(self).rows().len() {
                        BusReaction::Nothing
                    } else {
                        BusReaction::PersistAndRefresh
                    }
                },
            },
    {
        match event {
            NotificationBusEvent::Upsert(n) => {
                match remote_notification_id(&n) {
                    Some(k) => {
                        if self.locally_dismissed.contains(k.0, k.1.as_str())
                            || self.dismissed_transfers.contains(k.0, k.1.as_str()) {
                            return BusReaction::RefreshHistory;
                        }
                    },
                    None => {},
                }
                if super::is_unwanted_battery_discharge(&n) {
                    let before = self.notifications.len();
                    match remote_notification_id(&n) {
                        Some(k) => {
                            let ghost s0 = self.notifications@;
                            self.retain_rows(Ghost(not_remote(id_view(k))), k.0, k.1.as_str(), true);
                            proof {
                                s0.lemma_filter_len(not_remote(id_view(k)));
                            }
                        },
                        None => {},
                    }
                    return if self.notifications.len() != before {
                        BusReaction::Persist
                    } else {
                        BusReaction::Nothing
                    };
                }
                let active = opt_is_active(&n.file_transfer);
                let mut rows: Vec<Notification> = Vec::new();
                std::mem::swap(&mut rows, &mut self.notifications);
                let ghost s0 = rows@;
                let ghost added = n;
                upsert_notification(&mut rows, n, self.max_count);
                proof {
                    if s0.len() <= self.max_count {
                        lemma_upserted_len(s0, added, self.max_count as int);
                    }
                }
                self.notifications = rows;
                if active {
                    BusReaction::Nothing
                } else {
                    BusReaction::PersistAndRefresh
                }
            },
            NotificationBusEvent::Closed { id, server_owner, reason } => {
                if reason == 2 {
                    let ghost s = self.notifications@;
                    let mut found = false;
                    let mut i: usize = 0;
                    while i < self.notifications.len()
                        invariant
                            s == self.notifications@,
                            i <= s.len(),
                            found == exists|j: int|
                                0 <= j < i && (#[trigger] s[j]).id == Some(id) && opt_view(s[j].server_owner)
                                    == Some(server_owner@) && opt_transfer_active(s[j].file_transfer),
                        decreases s.len() - i,
                    {
                        let n = &self.notifications[i];
                        let hit = n.id == Some(id) && match &n.server_owner {
                            Some(o) => str_eq(o.as_str(), server_owner.as_str()),
                            None => false,
                        } && opt_is_active(&n.file_transfer);
                        if hit {
                            found = true;
                        }
                        i += 1;
                    }
                    if found {
                        self.dismissed_transfers.insert(id, copy_string(&server_owner));
                    }
                }
                let before = self.notifications.len();
                let ghost s0 = self.notifications@;
                self.retain_rows(Ghost(closes(id, server_owner@)), id, server_owner.as_str(), false);
                proof {
                    s0.lemma_filter_len(closes(id, server_owner@));
                }
                if self.notifications.len() == before {
                    BusReaction::Nothing
                } else {
                    BusReaction::PersistAndRefresh
                }
            },
            NotificationBusEvent::SenderGone(sender) => {
                let before = self.notifications.len();
                let mut rows: Vec<Notification> = Vec::new();
                std::mem::swap(&mut rows, &mut self.notifications);
                let ghost s0 = rows@;
                super::remove_abandoned_transfers(&mut rows, sender.as_str());
                proof {
                    s0.lemma_filter_len(super::abandoned_by(sender@));
                }
                self.notifications = rows;
                if self.notifications.len() == before {
                    BusReaction::Nothing
                } else {
                    BusReaction::PersistAndRefresh
                }
            },
        }
    }

    /// Takes a refreshed history (its transfers already reconciled with
    /// `existing`, the rows shown when the refresh started): unless the list
    /// changed meanwhile, the dismissals are reconciled with it and it
    /// becomes the list, without the rows dismissed in the widget.
    pub fn apply_history(&mut self, existing: &[Notification], history: CosmicNotificationHistory) -> (outcome:
        HistoryOutcome)
        ensures
            final(self).limit() == old(self).limit(),
            !same_list(old(self).rows(), existing@) ==> outcome == HistoryOutcome::Retry && final(self).rows()
                == old(self).rows() && final(self).dismissed() == old(self).dismissed()
                && final(self).dismissed_transfer_ids() == old(self).dismissed_transfer_ids(),
            same_list(old(self).rows(), existing@) ==> ({
                let owner = history.server_owner@;
                let in_history = id_set(history.notifications@);
                let dismissed = old(self).dismissed().union(
                    old(self).dismissed_transfer_ids().filter(
                        |k: (u32, Seq<char>)| k.1 == owner && in_history.contains(k),
                    ),
                );
                let shown = history.notifications@.filter(not_dismissed(dismissed));
                let kept = truncated(shown, old(self).limit() as int);
                &&& final(self).dismissed_transfer_ids() == old(self).dismissed_transfer_ids().filter(
                    |k: (u32, Seq<char>)| k.1 == owner && !in_history.contains(k),
                )
                &&& final(self).dismissed() == dismissed.intersect(in_history)
                &&& if same_list(old(self).rows(), kept) {
                    outcome == HistoryOutcome::Unchanged && final(self).rows() == old(self).rows()
                } else {
                    outcome == HistoryOutcome::Replaced && final(self).rows() == kept
                }
            }),
            old(self).well_formed() ==> final(self).well_formed(),
    {
        if !same_notifications(self.notifications.as_slice(), existing) {
            return HistoryOutcome::Retry;
        }
        let ghost owner = history.server_owner@;
        let ghost in_history = id_set(history.notifications@);
        let ghost d0 = self.locally_dismissed@;
        let ghost t0 = self.dismissed_transfers@;
        let mut history = history;
        reconcile_transfer_dismissals(&history, &mut self.locally_dismissed, &mut self.dismissed_transfers);
        let ghost dismissed = d0.union(
            t0.filter(|k: (u32, Seq<char>)| k.1 == owner && in_history.contains(k)),
        );
        assert(self.locally_dismissed@ =~= dismissed);
        assert(self.dismissed_transfers@ =~= t0.filter(
            |k: (u32, Seq<char>)| k.1 == owner && !in_history.contains(k),
        ));
        let mut rows: Vec<Notification> = Vec::new();
        std::mem::swap(&mut rows, &mut history.notifications);
        apply_local_dismissal_suppression(&mut rows, &mut self.locally_dismissed);
        rows.truncate(self.max_count);
        if same_notifications(self.notifications.as_slice(), rows.as_slice()) {
            return HistoryOutcome::Unchanged;
        }
        self.notifications = rows;
        HistoryOutcome::Replaced
    }
}

proof fn lemma_upserted_len(s: Seq<Notification>, n: Notification, max_count: int)
    requires
        0 <= max_count,
        s.len() <= max_count,
    ensures
        upserted(s, n, max_count).len() <= max_count,
{
    crate::text::lemma_first_match_bounds(s, super::history::replaces(n));
}

/// After `clear`, nothing is shown.
pub proof fn law_clear_leaves_nothing_shown(rows: Seq<Notification>)
    requires
        rows == Seq::<Notification>::empty(),
    ensures
        rows.filter(wanted()) == Seq::<Notification>::empty(),
{
    reveal(Seq::filter);
}

/// After `clear_app`, no row of that application is left, and the other
/// rows keep their order.
pub proof fn law_clear_app_removes_only_that_app(rows: Seq<Notification>, app_name: Seq<char>)
    ensures
        forall|i: int| 0 <= i < rows.filter(not_from_app(app_name)).len() ==> (#[trigger] rows.filter(
            not_from_app(app_name),
        )[i]).app_name@ != app_name,
        forall|i: int| 0 <= i < rows.len() && rows[i].app_name@ != app_name ==> rows.filter(
            not_from_app(app_name),
        ).contains(#[trigger] rows[i]),
{
    assert forall|i: int| 0 <= i < rows.filter(not_from_app(app_name)).len() implies (#[trigger] rows.filter(
        not_from_app(app_name),
    )[i]).app_name@ != app_name by {
        rows.lemma_filter_pred(not_from_app(app_name), i);
    }
    assert forall|i: int| 0 <= i < rows.len() && rows[i].app_name@ != app_name implies rows.filter(
        not_from_app(app_name),
    ).contains(#[trigger] rows[i]) by {
        rows.lemma_filter_contains(not_from_app(app_name), i);
    }
}

/// After `remove_notification`, no row answers to that identity.
pub proof fn law_removed_notification_is_gone(rows: Seq<Notification>, identity: NotificationIdentity)
    ensures
        forall|i: int| 0 <= i < rows.filter(not_identified(identity)).len() ==> !identifies(
            identity,
            #[trigger] rows.filter(not_identified(identity))[i],
        ),
{
    assert forall|i: int| 0 <= i < rows.filter(not_identified(identity)).len() implies !identifies(
        identity,
        #[trigger] rows.filter(not_identified(identity))[i],
    ) by {
        rows.lemma_filter_pred(not_identified(identity), i);
    }
}

/// What `get_notifications` shows is never a routine Solaar battery report.
pub proof fn law_no_battery_report_is_shown(rows: Seq<Notification>)
    ensures
        forall|i: int| 0 <= i < rows.filter(wanted()).len() ==> !unwanted_discharge(
            #[trigger] rows.filter(wanted())[i],
        ),
{
    assert forall|i: int| 0 <= i < rows.filter(wanted()).len() implies !unwanted_discharge(
        #[trigger] rows.filter(wanted())[i],
    ) by {
        rows.lemma_filter_pred(wanted(), i);
    }
}

} // verus!
