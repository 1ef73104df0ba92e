//! Reading the notification traffic on the session bus. A `Notify` call is
//! held until the daemon's reply names the ID it assigned; only then does it
//! become a notification.

use vstd::prelude::*;
use std::collections::HashMap;
use crate::battery::store::KeyedStore;
use crate::text::{opt_view, owned, str_eq};
use super::Notification;
use super::file_transfers::{FileTransfer, TransferHints, from_hints, transfer_of};
use super::history::{discord_activation_action, from_discord, has_default_action};
use super::monitor::NotificationBusEvent;

verus! {

broadcast use vstd::std_specs::hash::group_hash_axioms;

/// The arguments of a `Notify` call that the widget reads.
#[derive(Debug, Clone, PartialEq, Eq)]
pub struct NotifyCall {
    pub app_name: String,
    pub summary: String,
    pub body: String,
    /// Action identifiers and their labels, alternating.
    pub actions: Vec<String>,
    pub hints: TransferHints,
}

/// A message seen on the bus, by what the widget reads of it.
#[derive(Debug, Clone, PartialEq, Eq)]
pub enum BusMessage {
    /// A `Notify` method call; `call` is `None` when its arguments do not
    /// have the types of the notification specification.
    Notify { sender: Option<String>, serial: u32, call: Option<NotifyCall> },
    /// A method return; `id` is its body read as a `u32`, `None` when the
    /// body is not one.
    MethodReturn {
        sender: Option<String>,
        destination: Option<String>,
        reply_serial: Option<u32>,
        id: Option<u32>,
    },
    /// An error reply.
    Error { destination: Option<String>, reply_serial: Option<u32> },
    /// The bus's `NameOwnerChanged` signal: name, old owner and new owner, or
    /// `None` when the body is not three strings.
    NameOwnerChanged(Option<(String, String, String)>),
    /// The daemon's `NotificationClosed` signal: ID and reason, or `None`
    /// when the body is not two `u32`s.
    NotificationClosed { sender: Option<String>, closed: Option<(u32, u32)> },
    /// Anything else.
    Other,
}

/// A message whose body does not have the types its kind calls for.
#[derive(Debug, Clone, Copy, PartialEq, Eq, Structural)]
pub struct BodyMismatch;

/// A `Notify` call that waits for the daemon's reply.
#[derive(Debug, Clone, PartialEq, Eq)]
pub struct PendingNotification {
    pub app_name: String,
    pub summary: String,
    pub body: String,
    pub timestamp: u64,
    pub activation_action: Option<String>,
    pub file_transfer: Option<FileTransfer>,
}

/// The key of the `j`-th action of an action list.
pub open spec fn action_key(actions: Seq<String>, j: int) -> Seq<char> {
    actions[j + j]@
}

/// Whether one of the action identifiers (the even entries of a complete
/// pair) is `default`.
pub open spec fn offers_default(actions: Seq<String>) -> bool {
    exists|j: int| 0 <= j && j + j + 1 < actions.len() && #[trigger] action_key(actions, j) == "default"@
}

/// What is held of a `Notify` call captured at `timestamp`.
pub open spec fn held_call(p: PendingNotification, call: NotifyCall, timestamp: u64) -> bool {
    &&& p.app_name@ == (if call.app_name@.len() == 0 {
        "System"@
    } else {
        call.app_name@
    })
    &&& p.summary@ == call.summary@
    &&& p.body@ == call.body@
    &&& p.timestamp == timestamp
    &&& opt_view(p.activation_action) == (if from_discord(call.app_name@, opt_view(call.hints.desktop_entry))
        && offers_default(call.actions@) {
        Some("default"@)
    } else {
        None
    })
    &&& p.file_transfer == transfer_of(call.app_name@, call.hints)
}

/// The notification that the daemon's reply makes of a held call.
pub open spec fn replied(n: Notification, p: PendingNotification, id: u32, server: Option<String>, sender: Seq<char>) -> bool {
    &&& n.id == Some(id)
    &&& opt_view(n.server_owner) == opt_view(server)
    &&& opt_view(n.sender_owner) == Some(sender)
    &&& n.app_name == p.app_name
    &&& n.summary == p.summary
    &&& n.body == p.body
    &&& n.timestamp == p.timestamp
    &&& n.open_folder is None
    &&& n.activation_action == p.activation_action
    &&& n.file_transfer == p.file_transfer
}

/// The call that a reply answers: its destination and reply serial.
pub open spec fn reply_key(destination: Option<String>, reply_serial: Option<u32>) -> Option<(Seq<char>, u32)> {
    match (destination, reply_serial) {
        (Some(d), Some(s)) => Some((d@, s)),
        _ => None,
    }
}

/// A unique bus name that its owner released: the connection left the bus.
pub open spec fn departed(name: Seq<char>, old_owner: Seq<char>, new_owner: Seq<char>) -> bool {
    name.len() > 0 && name[0] == ':' && old_owner == name && new_owner.len() == 0
}

/// The held calls of every sender but `name`.
pub open spec fn without_sender(
    m: Map<(Seq<char>, u32), PendingNotification>,
    name: Seq<char>,
) -> Map<(Seq<char>, u32), PendingNotification> {
    m.restrict(Set::new(|k: (Seq<char>, u32)| k.0 != name))
}

/// What `push_message` does with a message: the held calls afterwards and
/// the result.
pub open spec fn parsed(
    before: Map<(Seq<char>, u32), PendingNotification>,
    after: Map<(Seq<char>, u32), PendingNotification>,
    message: BusMessage,
    timestamp: u64,
    r: Result<Option<NotificationBusEvent>, BodyMismatch>,
) -> bool {
    match message {
        BusMessage::Notify { sender, serial, call } => match sender {
            None => r matches Ok(None) && after == before,
            Some(s) => match call {
                None => r is Err && after == before,
                Some(c) => r matches Ok(None) && if c.summary@.len() == 0 {
                    after == before
                } else {
                    let k = (s@, serial);
                    &&& after.contains_key(k)
                    &&& after.remove(k) == before.remove(k)
                    &&& held_call(after[k], c, timestamp)
                },
            },
        },
        BusMessage::MethodReturn { sender, destination, reply_serial, id } => match reply_key(destination, reply_serial) {
            None => r matches Ok(None) && after == before,
            Some(k) => if !before.contains_key(k) {
                r matches Ok(None) && after == before
            } else {
                &&& after == before.remove(k)
                &&& match id {
                    None => r is Err,
                    Some(id) => r matches Ok(Some(NotificationBusEvent::Upsert(n))) && replied(
                        n,
                        before[k],
                        id,
                        sender,
                        k.0,
                    ),
                }
            },
        },
        BusMessage::Error { destination, reply_serial } => r matches Ok(None) && after == match reply_key(
            destination,
            reply_serial,
        ) {
            Some(k) => before.remove(k),
            None => before,
        },
        BusMessage::NameOwnerChanged(body) => match body {
            None => r is Err && after == before,
            Some((name, old_owner, new_owner)) => if departed(name@, old_owner@, new_owner@) {
                &&& r matches Ok(Some(NotificationBusEvent::SenderGone(g))) && g@ == name@
                &&& after == without_sender(before, name@)
            } else {
                r matches Ok(None) && after == before
            },
        },
        BusMessage::NotificationClosed { sender, closed } => after == before && match sender {
            None => r matches Ok(None),
            Some(s) => match closed {
                None => r is Err,
                Some((id, reason)) => r matches Ok(Some(NotificationBusEvent::Closed { id: i, server_owner: o, reason: why }))
                    && i == id && o@ == s@ && why == reason,
            },
        },
        BusMessage::Other => r matches Ok(None) && after == before,
    }
}

/// The `Notify` calls seen on the bus that wait for the daemon's reply,
/// grouped by sender and keyed by the call's serial number.
pub struct NotificationMessageParser {
    pending: KeyedStore<HashMap<u32, PendingNotification>>,
}

impl View for NotificationMessageParser {
    type V = Map<(Seq<char>, u32), PendingNotification>;

    closed spec fn view(&self) -> Map<(Seq<char>, u32), PendingNotification> {
        Map::new(
            |k: (Seq<char>, u32)| self.pending@.contains_key(k.0) && self.pending@[k.0]@.contains_key(k.1),
            |k: (Seq<char>, u32)| self.pending@[k.0]@[k.1],
        )
    }
}

impl NotificationMessageParser {
    pub fn new() -> (r: Self)
        ensures
            r@ == Map::<(Seq<char>, u32), PendingNotification>::empty(),
    {
        let r = NotificationMessageParser { pending: KeyedStore::new() };
        assert(r@ =~= Map::<(Seq<char>, u32), PendingNotification>::empty());
        r
    }

    /// Whether the call with this sender and serial waits for its reply.
    pub fn is_pending(&self, sender: &str, serial: u32) -> (r: bool)
        ensures
            r == self@.contains_key((sender@, serial)),
    {
        match self.pending.get(sender) {
            Some(calls) => calls.contains_key(&serial),
            None => false,
        }
    }

    /// Whether any call waits for its reply.
    pub fn has_pending(&self) -> (r: bool)
        ensures
            r == !self@.is_empty(),
    {
        let groups = self.pending.values();
        let mut i: usize = 0;
        while i < groups.len()
            invariant
                i <= groups@.len(),
                groups@.len() == self.pending.key_order().len(),
                forall|k: Seq<char>| #[trigger] self.pending@.contains_key(k) <==> self.pending.key_order().contains(k),
                forall|j: int| 0 <= j < groups@.len() ==> *groups@[j] == self.pending@[#[trigger] self.pending.key_order()[j]],
                forall|j: int| 0 <= j < i ==> (*groups@[j])@.is_empty(),
            decreases groups@.len() - i,
        {
            if !groups[i].is_empty() {
                proof {
                    let g = *groups@[i as int];
                    let s = self.pending.key_order()[i as int];
                    assert(self.pending.key_order().contains(s));
                    assert(self.pending@.contains_key(s));
                    let n = choose|n: u32| g@.contains_key(n);
                    assert(self@.contains_key((s, n)));
                }
                return true;
            }
            i += 1;
        }
        proof {
            assert forall|k: (Seq<char>, u32)| !#[trigger] self@.contains_key(k) by {
                if self.pending@.contains_key(k.0) {
                    let j = choose|j: int| 0 <= j < self.pending.key_order().len() && self.pending.key_order()[j] == k.0;
                    assert(*groups@[j] == self.pending@[self.pending.key_order()[j]]);
                    assert((*groups@[j])@.is_empty());
                    assert(!(*groups@[j])@.dom().contains(k.1));
                }
            }
            assert(self@.dom() =~= Set::<(Seq<char>, u32)>::empty());
        }
        false
    }

    fn hold(&mut self, sender: String, serial: u32, call: PendingNotification)
        ensures
            final(self)@ == old(self)@.insert((sender@, serial), call),
    {
        let ghost before = self@;
        let ghost s = sender@;
        let ghost group_before = self.pending@;
        let mut calls = match self.pending.remove(sender.as_str()) {
            Some(calls) => calls,
            None => HashMap::new(),
        };
        let ghost calls_before = calls@;
        calls.insert(serial, call);
        let ghost calls_now = calls;
        self.pending.insert(sender, calls);
        proof {
            assert(self.pending@ == group_before.remove(s).insert(s, calls_now));
            assert(calls_now@ == calls_before.insert(serial, call));
            assert forall|k: (Seq<char>, u32)| #[trigger] self@.contains_key(k) <==> before.insert((s, serial), call).contains_key(k) by {
                if k.0 == s {
                    assert(group_before.contains_key(s) ==> calls_before == group_before[s]@);
                }
            }
            assert forall|k: (Seq<char>, u32)| #[trigger] self@.contains_key(k) implies self@[k] == before.insert((s, serial), call)[k] by {
                if k.0 == s {
                    assert(group_before.contains_key(s) ==> calls_before == group_before[s]@);
                }
            }
            assert(self@ =~= before.insert((s, serial), call));
        }
    }

    fn take(&mut self, sender: &str, serial: u32) -> (r: Option<PendingNotification>)
        ensures
            final(self)@ == old(self)@.remove((sender@, serial)),
            r is Some == old(self)@.contains_key((sender@, serial)),
            r matches Some(p) ==> p == old(self)@[(sender@, serial)],
    {
        let ghost before = self@;
        let ghost group_before = self.pending@;
        let ghost s = sender@;
        match self.pending.remove(sender) {
            None => {
                proof {
                    assert(self@ =~= before.remove((s, serial)));
                }
                None
            },
            Some(mut calls) => {
                let ghost calls_before = calls@;
                let r = calls.remove(&serial);
                if !calls.is_empty() {
                    self.pending.insert(owned(sender), calls);
                }
                proof {
                    assert(calls_before == group_before[s]@);
                    assert forall|k: (Seq<char>, u32)| #[trigger] self@.contains_key(k) <==> before.remove((s, serial)).contains_key(k) by {
                    }
                    assert forall|k: (Seq<char>, u32)| #[trigger] self@.contains_key(k) implies self@[k] == before.remove((s, serial))[k] by {
                    }
                    assert(self@ =~= before.remove((s, serial)));
                }
                r
            },
        }
    }

    fn forget_sender(&mut self, name: &str)
        ensures
            final(self)@ == without_sender(old(self)@, name@),
    {
        let ghost before = self@;
        let ghost group_before = self.pending@;
        let _ = self.pending.remove(name);
        proof {
            assert(self.pending@ == group_before.remove(name@));
            assert(self@ =~= without_sender(before, name@));
        }
    }

    /// Reads one message: holds a `Notify` call until the reply with the
    /// assigned ID, which becomes an `Upsert`; drops a call that got an error
    /// or whose sender left the bus; reports closed notifications.
    pub fn push_message(&mut self, message: BusMessage, timestamp: u64) -> (r: Result<
        Option<NotificationBusEvent>,
        BodyMismatch,
    >)
        ensures
            parsed(old(self)@, final(self)@, message, timestamp, r),
    {
        match message {
            BusMessage::Notify { sender, serial, call } => {
                let sender = match sender {
                    Some(sender) => sender,
                    None => return Ok(None),
                };
                let call = match call {
                    Some(call) => call,
                    None => return Err(BodyMismatch),
                };
                if call.summary.as_str().unicode_len() == 0 {
                    return Ok(None);
                }
                let pending = held(call, timestamp);
                let ghost before = self@;
                let ghost key = (sender@, serial);
                self.hold(sender, serial, pending);
                assert(self@.remove(key) =~= before.remove(key));
                Ok(None)
            },
            BusMessage::MethodReturn { sender, destination, reply_serial, id } => {
                let (destination, reply_serial) = match (destination, reply_serial) {
                    (Some(d), Some(s)) => (d, s),
                    _ => return Ok(None),
                };
                let ghost before = self@;
                let pending = match self.take(destination.as_str(), reply_serial) {
                    Some(pending) => pending,
                    None => {
                        assert(self@ =~= before);
                        return Ok(None);
                    },
                };
                let id = match id {
                    Some(id) => id,
                    None => return Err(BodyMismatch),
                };
                Ok(
                    Some(
                        NotificationBusEvent::Upsert(
                            Notification {
                                id: Some(id),
                                server_owner: sender,
                                sender_owner: Some(destination),
                                app_name: pending.app_name,
                                summary: pending.summary,
                                body: pending.body,
                                timestamp: pending.timestamp,
                                open_folder: None,
                                activation_action: pending.activation_action,
                                file_transfer: pending.file_transfer,
                            },
                        ),
                    ),
                )
            },
            BusMessage::Error { destination, reply_serial } => {
                let ghost before = self@;
                if let (Some(d), Some(s)) = (destination, reply_serial) {
                    let _ = self.take(d.as_str(), s);
                }
                Ok(None)
            },
            BusMessage::NameOwnerChanged(body) => {
                let (name, old_owner, new_owner) = match body {
                    Some(body) => body,
                    None => return Err(BodyMismatch),
                };
                if starts_with_colon(name.as_str()) && str_eq(old_owner.as_str(), name.as_str())
                    && new_owner.as_str().unicode_len() == 0 {
                    self.forget_sender(name.as_str());
                    Ok(Some(NotificationBusEvent::SenderGone(name)))
                } else {
                    Ok(None)
                }
            },
            BusMessage::NotificationClosed { sender, closed } => {
                let server_owner = match sender {
                    Some(sender) => sender,
                    None => return Ok(None),
                };
                match closed {
                    Some((id, reason)) => Ok(Some(NotificationBusEvent::Closed { id, server_owner, reason })),
                    None => Err(BodyMismatch),
                }
            },
            BusMessage::Other => Ok(None),
        }
    }
}

fn starts_with_colon(name: &str) -> (r: bool)
    ensures
        r == (name@.len() > 0 && name@[0] == ':'),
{
    name.unicode_len() > 0 && name.get_char(0) == ':'
}

/// The identifiers of the complete action pairs, in order.
fn action_keys(actions: &Vec<String>) -> (keys: Vec<String>)
    ensures
        has_default_action(keys@) == offers_default(actions@),
{
    let mut keys: Vec<String> = Vec::new();
    let mut i: usize = 0;
    while i + 1 < actions.len()
        invariant
            i == keys@.len() + keys@.len(),
            i <= actions@.len(),
            forall|j: int| 0 <= j < keys@.len() ==> keys@[j]@ == #[trigger] action_key(actions@, j),
        decreases actions@.len() - i,
    {
        keys.push(actions[i].clone());
        assert(keys@[keys@.len() - 1]@ == action_key(actions@, keys@.len() - 1));
        i += 2;
    }
    proof {
        if has_default_action(keys@) {
            let j = choose|j: int| 0 <= j < keys@.len() && keys@[j]@ == "default"@;
            assert(action_key(actions@, j) == "default"@);
        }
        if offers_default(actions@) {
            let j = choose|j: int| 0 <= j && j + j + 1 < actions@.len() && #[trigger] action_key(actions@, j) == "default"@;
            assert(j < keys@.len());
            assert(keys@[j]@ == "default"@);
        }
    }
    keys
}

/// What is held of a `Notify` call until the daemon replies.
fn held(call: NotifyCall, timestamp: u64) -> (p: PendingNotification)
    ensures
        held_call(p, call, timestamp),
{
    let keys = action_keys(&call.actions);
    let desktop_entry: Option<&str> = match &call.hints.desktop_entry {
        Some(entry) => Some(entry.as_str()),
        None => None,
    };
    let activation_action = discord_activation_action(call.app_name.as_str(), desktop_entry, keys.as_slice());
    let file_transfer = from_hints(call.app_name.as_str(), &call.hints);
    let app_name = if call.app_name.as_str().unicode_len() == 0 {
        owned("System")
    } else {
        call.app_name
    };
    proof {
        reveal_strlit("System");
        reveal_strlit("default");
    }
    PendingNotification {
        app_name,
        summary: call.summary,
        body: call.body,
        timestamp,
        activation_action,
        file_transfer,
    }
}

/// A `Notify` call and the daemon's reply to it make one notification: the
/// call's text and capture time under the ID that the reply assigned, and
/// the call no longer waits.
pub proof fn law_reply_completes_the_held_call(
    before: Map<(Seq<char>, u32), PendingNotification>,
    held_calls: Map<(Seq<char>, u32), PendingNotification>,
    after: Map<(Seq<char>, u32), PendingNotification>,
    sender: String,
    serial: u32,
    call: NotifyCall,
    captured: u64,
    server: Option<String>,
    destination: String,
    id: u32,
    replied_at: u64,
    first: Result<Option<NotificationBusEvent>, BodyMismatch>,
    second: Result<Option<NotificationBusEvent>, BodyMismatch>,
)
    requires
        call.summary@.len() > 0,
        destination@ == sender@,
        parsed(
            before,
            held_calls,
            BusMessage::Notify { sender: Some(sender), serial, call: Some(call) },
            captured,
            first,
        ),
        parsed(
            held_calls,
            after,
            BusMessage::MethodReturn {
                sender: server,
                destination: Some(destination),
                reply_serial: Some(serial),
                id: Some(id),
            },
            replied_at,
            second,
        ),
    ensures
        first matches Ok(None),
        second matches Ok(Some(NotificationBusEvent::Upsert(n))) && {
            &&& n.id == Some(id)
            &&& opt_view(n.server_owner) == opt_view(server)
            &&& opt_view(n.sender_owner) == Some(sender@)
            &&& n.summary@ == call.summary@
            &&& n.body@ == call.body@
            &&& n.timestamp == captured
            &&& n.file_transfer == transfer_of(call.app_name@, call.hints)
        },
        after == before.remove((sender@, serial)),
{
    let k = (sender@, serial);
    assert(held_calls.remove(k) =~= before.remove(k));
}

} // verus!
