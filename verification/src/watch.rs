//! The change watcher's decision logic.
//!
//! The file-system notification subsystem delivers events on its own
//! thread; the embedding binary maps each to an [`WatchEvent`] and asks
//! [`step`] what to do. Only create, modify and remove events trigger a
//! rebuild; every qualifying event triggers its own full rebuild, with no
//! debouncing or coalescing, and a failed rebuild only logs a warning.

use vstd::prelude::*;

verus! {

/// A file-system notification, abstracted to what the watcher decides on.
#[derive(Clone, Copy, Debug, PartialEq, Eq, Structural)]
pub enum WatchEvent {
    /// A file or directory was created.
    Create,
    /// A file or directory was modified.
    Modify,
    /// A file or directory was removed.
    Remove,
    /// Any other event kind (metadata, access, ...).
    Other,
    /// The notification subsystem reported an error instead of an event.
    Error,
}

/// What the watcher does in reaction to one delivered event.
#[derive(Clone, Copy, Debug, PartialEq, Eq, Structural)]
pub enum WatchAction {
    /// Run one full rebuild (collect then build) from scratch.
    Rebuild,
    /// Log the notification error and keep watching.
    LogError,
    /// Ignore the event.
    Ignore,
}

/// Whether an event kind triggers a rebuild.
pub open spec fn is_qualifying(ev: WatchEvent) -> bool {
    ev == WatchEvent::Create || ev == WatchEvent::Modify || ev == WatchEvent::Remove
}

/// The action taken on one delivered event: a rebuild for each qualifying
/// event, an error log for a notification error, nothing otherwise.
pub open spec fn spec_step(ev: WatchEvent) -> WatchAction {
    if is_qualifying(ev) {
        WatchAction::Rebuild
    } else if ev == WatchEvent::Error {
        WatchAction::LogError
    } else {
        WatchAction::Ignore
    }
}

/// Decide what to do with one delivered event.
pub fn step(ev: WatchEvent) -> (action: WatchAction)
    ensures
        action == spec_step(ev),
{
    match ev {
        WatchEvent::Create | WatchEvent::Modify | WatchEvent::Remove => WatchAction::Rebuild,
        WatchEvent::Error => WatchAction::LogError,
        WatchEvent::Other => WatchAction::Ignore,
    }
}

/// The watcher's phase. The whole `Rebuilding` → `NotifyPending` →
/// `Idle` stretch runs synchronously inside one notification callback,
/// which is the single serialization point: no two rebuilds overlap.
#[derive(Clone, Copy, Debug, PartialEq, Eq, Structural)]
pub enum WatchState {
    /// Waiting for a qualifying event.
    Idle,
    /// Collecting and rendering the tree from scratch.
    Rebuilding,
    /// The rebuild succeeded; the broadcaster drains and notifies.
    NotifyPending,
}

/// What moves the watcher's machine: a delivered event, the end of a
/// rebuild attempt, or the end of notification.
#[derive(Clone, Copy, Debug, PartialEq, Eq, Structural)]
pub enum WatchSignal {
    Delivered(WatchEvent),
    RebuildDone(bool),
    NotifyDone,
}

/// The watcher's transitions: in `Idle` a qualifying event starts a
/// rebuild and every other event is ignored; a finished rebuild moves
/// to `NotifyPending` on success and, with a logged warning, back to
/// `Idle` on failure; notifying returns to `Idle`. A signal that does
/// not belong to the state changes nothing.
pub open spec fn spec_advance(s: WatchState, signal: WatchSignal) -> WatchState {
    match (s, signal) {
        (WatchState::Idle, WatchSignal::Delivered(ev)) => if is_qualifying(ev) {
            WatchState::Rebuilding
        } else {
            WatchState::Idle
        },
        (WatchState::Rebuilding, WatchSignal::RebuildDone(success)) => if success {
            WatchState::NotifyPending
        } else {
            WatchState::Idle
        },
        (WatchState::NotifyPending, WatchSignal::NotifyDone) => WatchState::Idle,
        (_, _) => s,
    }
}

/// Advance the watcher's machine by one signal.
pub fn advance(s: WatchState, signal: WatchSignal) -> (next: WatchState)
    ensures
        next == spec_advance(s, signal),
{
    match (s, signal) {
        (WatchState::Idle, WatchSignal::Delivered(ev)) => {
            if matches!(step(ev), WatchAction::Rebuild) {
                WatchState::Rebuilding
            } else {
                WatchState::Idle
            }
        },
        (WatchState::Rebuilding, WatchSignal::RebuildDone(success)) => {
            if success {
                WatchState::NotifyPending
            } else {
                WatchState::Idle
            }
        },
        (WatchState::NotifyPending, WatchSignal::NotifyDone) => WatchState::Idle,
        (_, _) => s,
    }
}

/// A full cycle returns to `Idle`: a qualifying event starts the one
/// rebuild, success passes through notification, failure skips it; a
/// non-qualifying event never leaves `Idle` at all.
pub proof fn lemma_watch_cycle(ev: WatchEvent, success: bool)
    ensures
        is_qualifying(ev) ==> spec_advance(WatchState::Idle, WatchSignal::Delivered(ev))
            == WatchState::Rebuilding,
        !is_qualifying(ev) ==> spec_advance(WatchState::Idle, WatchSignal::Delivered(ev))
            == WatchState::Idle,
        spec_advance(WatchState::Rebuilding, WatchSignal::RebuildDone(success)) == if success {
            WatchState::NotifyPending
        } else {
            WatchState::Idle
        },
        spec_advance(WatchState::NotifyPending, WatchSignal::NotifyDone) == WatchState::Idle,
{
}

/// How many rebuild attempts a sequence of delivered events produces.
pub open spec fn spec_rebuild_count(evs: Seq<WatchEvent>) -> int
    decreases evs.len(),
{
    if evs.len() == 0 {
        0
    } else {
        spec_rebuild_count(evs.drop_last()) + if is_qualifying(evs.last()) {
            1int
        } else {
            0int
        }
    }
}

/// A burst of events produces one independent rebuild attempt per
/// qualifying event: rebuilds are never merged, dropped or invented.
pub proof fn lemma_burst_rebuilds(evs: Seq<WatchEvent>)
    ensures
        spec_rebuild_count(evs) == Seq::new(evs.len(), |i: int| spec_step(evs[i])).filter(
            |a: WatchAction| a == WatchAction::Rebuild,
        ).len(),
    decreases evs.len(),
{
    let actions = Seq::new(evs.len(), |i: int| spec_step(evs[i]));
    let is_rb = |a: WatchAction| a == WatchAction::Rebuild;
    if evs.len() == 0 {
        assert(actions =~= Seq::<WatchAction>::empty());
        reveal_with_fuel(Seq::filter, 2);
    } else {
        lemma_burst_rebuilds(evs.drop_last());
        let prev = Seq::new(evs.drop_last().len(), |i: int| spec_step(evs.drop_last()[i]));
        assert(actions.drop_last() =~= prev);
        actions.drop_last().lemma_filter_push(actions.last(), is_rb);
        assert(actions.drop_last().push(actions.last()) =~= actions);
    }
}

/// Count the rebuild attempts that a burst of delivered events produces.
pub fn count_rebuilds(evs: &Vec<WatchEvent>) -> (n: usize)
    ensures
        n == spec_rebuild_count(evs@),
{
    let mut n: usize = 0;
    let mut i: usize = 0;
    while i < evs.len()
        invariant
            0 <= i <= evs.len(),
            n == spec_rebuild_count(evs@.subrange(0, i as int)),
            n <= i,
        decreases evs.len() - i,
    {
        let a = step(evs[i]);
        if matches!(a, WatchAction::Rebuild) {
            n = n + 1;
        }
        proof {
            assert(evs@.subrange(0, i + 1int).drop_last() =~= evs@.subrange(0, i as int));
        }
        i = i + 1;
    }
    proof {
        assert(evs@.subrange(0, evs@.len() as int) =~= evs@);
    }
    n
}

} // verus!
