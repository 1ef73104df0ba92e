//! Copy and move progress that COSMIC Files attaches to its notifications.
//! Other applications, and other Files operations, stay ordinary notifications.

use vstd::prelude::*;
use crate::text::{str_eq, strip_all_suffix, strip_all_suffix_chars, chars_of};

verus! {

#[derive(Debug, Clone, Copy, PartialEq, Eq, Structural)]
pub enum FileTransferState {
    Running,
    Paused,
    Completed,
    Cancelled,
    Failed,
}

#[derive(Debug, Clone, Copy, PartialEq, Eq, Structural)]
pub struct FileTransfer {
    pub progress: u8,
    pub state: FileTransferState,
}

pub open spec fn transfer_active(t: FileTransfer) -> bool {
    t.state == FileTransferState::Running || t.state == FileTransferState::Paused
}

pub open spec fn opt_transfer_active(t: Option<FileTransfer>) -> bool {
    t matches Some(t) && transfer_active(t)
}

impl FileTransfer {
    /// Whether the transfer is still under way (running or paused).
    pub fn is_active(&self) -> (r: bool)
        ensures
            r == transfer_active(*self),
    {
        match self.state {
            FileTransferState::Running | FileTransferState::Paused => true,
            _ => false,
        }
    }
}

pub fn opt_is_active(t: &Option<FileTransfer>) -> (r: bool)
    ensures
        r == opt_transfer_active(*t),
{
    match t {
        Some(t) => t.is_active(),
        None => false,
    }
}

/// The string hints of a Notify call that describe a transfer, and its
/// `value` hint when that is an `i32`.
#[derive(Debug, Clone, PartialEq, Eq)]
pub struct TransferHints {
    pub desktop_entry: Option<String>,
    pub operation: Option<String>,
    pub state: Option<String>,
    pub value: Option<i32>,
}

pub open spec fn state_named(name: Seq<char>) -> Option<FileTransferState> {
    if name == "running"@ {
        Some(FileTransferState::Running)
    } else if name == "paused"@ {
        Some(FileTransferState::Paused)
    } else if name == "completed"@ {
        Some(FileTransferState::Completed)
    } else if name == "cancelled"@ {
        Some(FileTransferState::Cancelled)
    } else if name == "failed"@ {
        Some(FileTransferState::Failed)
    } else {
        None
    }
}

/// The transfer that a notification describes: only COSMIC Files, only copy
/// and move, a known state and a progress in `0..=100`.
pub open spec fn transfer_of(app_name: Seq<char>, hints: TransferHints) -> Option<FileTransfer> {
    if app_name == "COSMIC Files"@ && hints.desktop_entry is Some && strip_all_suffix(
        hints.desktop_entry->0@,
        ".desktop"@,
    ) == "com.system76.CosmicFiles"@ && hints.operation is Some && (hints.operation->0@ == "copy"@
        || hints.operation->0@ == "move"@) && hints.state is Some && state_named(hints.state->0@) is Some
        && hints.value is Some && 0 <= hints.value->0 <= 100 {
        Some(FileTransfer { progress: hints.value->0 as u8, state: state_named(hints.state->0@)->0 })
    } else {
        None
    }
}

fn state_from_name(name: &str) -> (r: Option<FileTransferState>)
    ensures
        r == state_named(name@),
{
    if str_eq(name, "running") {
        Some(FileTransferState::Running)
    } else if str_eq(name, "paused") {
        Some(FileTransferState::Paused)
    } else if str_eq(name, "completed") {
        Some(FileTransferState::Completed)
    } else if str_eq(name, "cancelled") {
        Some(FileTransferState::Cancelled)
    } else if str_eq(name, "failed") {
        Some(FileTransferState::Failed)
    } else {
        None
    }
}

/// The COSMIC Files transfer that a notification's hints describe, if any.
pub fn from_hints(app_name: &str, hints: &TransferHints) -> (r: Option<FileTransfer>)
    ensures
        r == transfer_of(app_name@, *hints),
{
    let entry = match &hints.desktop_entry {
        Some(entry) => entry,
        None => return None,
    };
    if !str_eq(app_name, "COSMIC Files") {
        return None;
    }
    let stripped = strip_all_suffix_chars(&chars_of(entry.as_str()), &chars_of(".desktop"));
    if !crate::text::seq_eq(&stripped, &chars_of("com.system76.CosmicFiles")) {
        return None;
    }
    let operation = match &hints.operation {
        Some(operation) => operation,
        None => return None,
    };
    if !(str_eq(operation.as_str(), "copy") || str_eq(operation.as_str(), "move")) {
        return None;
    }
    let state = match &hints.state {
        Some(state) => match state_from_name(state.as_str()) {
            Some(state) => state,
            None => return None,
        },
        None => return None,
    };
    match hints.value {
        Some(value) => if 0 <= value && value <= 100 {
            Some(FileTransfer { progress: value as u8, state })
        } else {
            None
        },
        None => None,
    }
}

} // verus!
