//! The connection relay and the reload broadcaster's share of it.
//!
//! The acceptor thread queues every accepted, not-yet-upgraded
//! connection; the watcher callback, after a successful rebuild, drains
//! the queue in one non-blocking snapshot and pushes a single reload
//! message to each drained connection. The queue is unordered and
//! unbounded; a connection is owned by exactly one side at a time, and
//! one that arrives after a drain begins waits for the drain that
//! follows the next successful rebuild.

use vstd::multiset::Multiset;
use vstd::prelude::*;

verus! {

/// The queue of accepted connections waiting for the next successful
/// rebuild. The embedding binary keeps one behind its own
/// synchronization, the acceptor thread producing and the watcher
/// callback consuming.
pub struct Relay<T> {
    pending: Vec<T>,
}

impl<T> View for Relay<T> {
    type V = Seq<T>;

    closed spec fn view(&self) -> Seq<T> {
        self.pending@
    }
}

impl<T> Relay<T> {
    /// An empty queue.
    pub fn new() -> (q: Relay<T>)
        ensures
            q@ == Seq::<T>::empty(),
    {
        Relay { pending: Vec::new() }
    }

    /// How many connections wait.
    pub fn len(&self) -> (n: usize)
        ensures
            n == self@.len(),
    {
        self.pending.len()
    }

    /// Queue one accepted connection, transferring its ownership to
    /// the relay.
    pub fn push(&mut self, conn: T)
        ensures
            final(self)@ == old(self)@.push(conn),
    {
        self.pending.push(conn);
    }

    /// Drain the queue: a non-blocking snapshot that hands every
    /// connection pending at the call to the broadcaster and leaves the
    /// queue empty. A connection queued after the call waits for the
    /// next drain.
    pub fn drain(&mut self) -> (batch: Vec<T>)
        ensures
            batch@ == old(self)@,
            final(self)@ == Seq::<T>::empty(),
    {
        let mut batch: Vec<T> = Vec::new();
        core::mem::swap(&mut self.pending, &mut batch);
        batch
    }
}

/// The one message the broadcaster pushes to each drained connection
/// before letting it close.
pub fn reload_message() -> (m: String)
    ensures
        m@ == "reload"@,
{
    String::from_str("reload")
}

/// One rebuild cycle's effect on the pending queue: a successful
/// rebuild drains everything pending and notifies exactly that batch; a
/// failed one notifies nobody and leaves the queue as it is. The first
/// component is the queue afterwards, the second who is notified.
pub open spec fn spec_notify_step<T>(pending: Seq<T>, success: bool) -> (Seq<T>, Seq<T>) {
    if success {
        (Seq::empty(), pending)
    } else {
        (pending, Seq::empty())
    }
}

/// A connection pending when a successful rebuild finishes is notified
/// by that cycle exactly as often as it was queued — queued once,
/// notified once — and by no later cycle; a connection accepted after
/// the drain is notified nothing by it and exactly once by the next
/// successful cycle.
pub proof fn lemma_notification_boundary<T>(pending: Seq<T>, late: T, c: T)
    ensures
        ({
            let cycle1 = spec_notify_step(pending, true);
            let cycle2 = spec_notify_step(cycle1.0.push(late), true);
            &&& cycle1.1 == pending
            &&& cycle1.1.to_multiset().count(c) == pending.to_multiset().count(c)
            &&& cycle2.1 == Seq::<T>::empty().push(late)
            &&& cycle2.1.to_multiset().count(late) == 1
            &&& c != late ==> cycle2.1.to_multiset().count(c) == 0
        }),
{
    broadcast use vstd::seq_lib::group_to_multiset_ensures;

    let single = Seq::<T>::empty().push(late);
    assert(single.to_multiset() =~= Seq::<T>::empty().to_multiset().insert(late));
    assert(Seq::<T>::empty().to_multiset() =~= Multiset::<T>::empty());
}

/// A failed rebuild notifies nobody and loses no connection: everybody
/// pending stays pending for the next successful cycle.
pub proof fn lemma_failure_keeps_pending<T>(pending: Seq<T>)
    ensures
        spec_notify_step(pending, false).0 == pending,
        spec_notify_step(pending, false).1 == Seq::<T>::empty(),
{
}

} // verus!
