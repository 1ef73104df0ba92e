//! Account quota reports of AI applications, as the widget presents them.
//!
//! A remaining percentage is a floating-point number in the widget; the types
//! here carry it as a type parameter `P` and never compute with it.

pub mod claude;
pub mod codex;

use vstd::prelude::*;

verus! {

/// How far a quota report can be trusted.
#[derive(Debug, Clone, Copy, PartialEq, Eq, Structural)]
pub enum UsageStatus {
    Loading,
    Available,
    Stale,
    SignInRequired,
    Unavailable,
}

impl Default for UsageStatus {
    fn default() -> (r: Self)
        ensures
            r == UsageStatus::Unavailable,
    {
        UsageStatus::Unavailable
    }
}

/// One quota window of an account.
#[derive(Debug)]
pub struct UsageWindow<P> {
    /// Separate quota buckets keep their identity.
    pub limit_id: String,
    pub label: String,
    pub remaining_percent: P,
    /// Unix seconds supplied by the provider.
    pub resets_at: Option<i64>,
    /// Time of the report that supplied this window, in Unix seconds.
    pub updated_at: i64,
    pub is_stale: bool,
}

/// The quota windows of an account.
#[derive(Debug)]
pub struct UsageSnapshot<P> {
    pub windows: Vec<UsageWindow<P>>,
    /// The latest report represented here; each window keeps its own age.
    pub updated_at: Option<i64>,
    pub status: UsageStatus,
}

impl<P> View for UsageSnapshot<P> {
    type V = (Seq<UsageWindow<P>>, Option<i64>, UsageStatus);

    open spec fn view(&self) -> (Seq<UsageWindow<P>>, Option<i64>, UsageStatus) {
        (self.windows@, self.updated_at, self.status)
    }
}

/// Whether some window is stale.
pub open spec fn any_stale<P>(windows: Seq<UsageWindow<P>>) -> bool {
    exists|i: int| 0 <= i < windows.len() && (#[trigger] windows[i]).is_stale
}

/// A snapshot with no windows and the given status.
pub open spec fn empty_snapshot<P>(status: UsageStatus) -> (Seq<UsageWindow<P>>, Option<i64>, UsageStatus) {
    (Seq::empty(), None, status)
}

impl<P> Default for UsageSnapshot<P> {
    fn default() -> (r: Self)
        ensures
            r@ == empty_snapshot::<P>(UsageStatus::Unavailable),
    {
        UsageSnapshot { windows: Vec::new(), updated_at: None, status: UsageStatus::Unavailable }
    }
}

impl<P: Copy> UsageWindow<P> {
    pub fn copy(&self) -> (r: Self)
        ensures
            r == *self,
    {
        UsageWindow {
            limit_id: crate::text::copy_string(&self.limit_id),
            label: crate::text::copy_string(&self.label),
            remaining_percent: self.remaining_percent,
            resets_at: self.resets_at,
            updated_at: self.updated_at,
            is_stale: self.is_stale,
        }
    }
}

impl<P: Copy> UsageSnapshot<P> {
    pub fn copy(&self) -> (r: Self)
        ensures
            r@ == self@,
    {
        let mut windows: Vec<UsageWindow<P>> = Vec::new();
        let mut i: usize = 0;
        while i < self.windows.len()
            invariant
                i <= self.windows@.len(),
                windows@ == self.windows@.subrange(0, i as int),
            decreases self.windows@.len() - i,
        {
            windows.push(self.windows[i].copy());
            i += 1;
            assert(windows@ =~= self.windows@.subrange(0, i as int));
        }
        assert(self.windows@.subrange(0, i as int) =~= self.windows@);
        UsageSnapshot { windows, updated_at: self.updated_at, status: self.status }
    }
}

/// Whether some window of `windows` is stale.
pub fn has_stale_window<P>(windows: &Vec<UsageWindow<P>>) -> (r: bool)
    ensures
        r == any_stale(windows@),
{
    let mut i: usize = 0;
    while i < windows.len()
        invariant
            i <= windows@.len(),
            forall|j: int| 0 <= j < i ==> !(#[trigger] windows@[j]).is_stale,
        decreases windows@.len() - i,
    {
        if windows[i].is_stale {
            return true;
        }
        i += 1;
    }
    false
}

} // verus!
