//! Requests for an extra advertisement, as a bounded queue in which a burst
//! of requests is answered by one broadcast.

use crate::error::{ChatError, ChatErrorView};
use vstd::prelude::*;

verus! {

/// The capacity the engine gives its queue of re-advertisement requests.
pub const ADVERTISE_CAPACITY: usize = 32;

/// The queue of requests for an extra advertisement. A request carries
/// nothing: only their number is kept.
#[derive(Debug)]
pub struct AdvertiseQueue {
    pending: usize,
    capacity: usize,
    open: bool,
}

/// Mathematical value of an [`AdvertiseQueue`].
pub struct AdvertiseQueueView {
    /// Requests not yet answered by a broadcast.
    pub pending: nat,
    /// The most requests the queue holds; more are dropped.
    pub capacity: nat,
    /// Whether the advertiser still listens.
    pub open: bool,
}

impl View for AdvertiseQueue {
    type V = AdvertiseQueueView;

    closed spec fn view(&self) -> AdvertiseQueueView {
        AdvertiseQueueView {
            pending: self.pending as nat,
            capacity: self.capacity as nat,
            open: self.open,
        }
    }
}

/// The queue after one request: one more is pending, unless the queue is
/// closed or full.
pub open spec fn requested(q: AdvertiseQueueView) -> AdvertiseQueueView {
    if q.open && q.pending < q.capacity {
        AdvertiseQueueView { pending: q.pending + 1, ..q }
    } else {
        q
    }
}

/// The queue after `n` requests.
pub open spec fn requested_times(q: AdvertiseQueueView, n: nat) -> AdvertiseQueueView
    decreases n,
{
    if n == 0 {
        q
    } else {
        requested_times(requested(q), (n - 1) as nat)
    }
}

/// The queue after the advertiser has taken what was pending.
pub open spec fn taken(q: AdvertiseQueueView) -> AdvertiseQueueView {
    AdvertiseQueueView { pending: 0, ..q }
}

/// However many requests arrive before the advertiser looks, it finds
/// something pending, broadcasts once, and finds nothing pending when it
/// looks again.
pub proof fn law_requests_coalesce(q: AdvertiseQueueView, n: nat)
    requires
        q.open,
        q.capacity > 0,
        n > 0,
    ensures
        requested_times(q, n).pending > 0,
        requested_times(q, n).pending <= if q.pending > q.capacity {
            q.pending
        } else {
            q.capacity
        },
        taken(requested_times(q, n)).pending == 0,
    decreases n,
{
    if n > 1 {
        law_requests_coalesce(requested(q), (n - 1) as nat);
    } else {
        assert(requested_times(requested(q), 0) == requested(q));
    }
}

impl AdvertiseQueue {
    /// An open queue with nothing pending.
    pub fn new(capacity: usize) -> (r: Self)
        ensures
            r@ == (AdvertiseQueueView { pending: 0, capacity: capacity as nat, open: true }),
    {
        AdvertiseQueue { pending: 0, capacity, open: true }
    }

    /// Asks for an extra advertisement. Fails with `AdvertiserGone` if the
    /// queue is closed. Otherwise the result says whether the request was
    /// queued; one that finds the queue full is dropped, which loses nothing:
    /// the broadcast that answers those before it carries the current
    /// identity.
    pub fn request(&mut self) -> (r: Result<bool, ChatError>)
        ensures
            final(self)@ == requested(old(self)@),
            match r {
                Ok(queued) => old(self)@.open && queued == (old(self)@.pending
                    < old(self)@.capacity),
                Err(e) => !old(self)@.open && e@ == ChatErrorView::AdvertiserGone,
            },
    {
        if !self.open {
            return Err(ChatError::AdvertiserGone);
        }
        if self.pending < self.capacity {
            self.pending = self.pending + 1;
            Ok(true)
        } else {
            Ok(false)
        }
    }

    /// Takes all pending requests at once and says whether there was any: one
    /// broadcast answers them all.
    pub fn take(&mut self) -> (due: bool)
        ensures
            final(self)@ == taken(old(self)@),
            due == (old(self)@.pending > 0),
    {
        let due = self.pending > 0;
        self.pending = 0;
        due
    }

    /// Closes the queue: the advertiser has stopped, and requests fail from
    /// now on.
    pub fn close(&mut self)
        ensures
            final(self)@ == (AdvertiseQueueView { open: false, ..old(self)@ }),
    {
        self.open = false;
    }

    /// Number of requests not yet answered.
    pub fn pending(&self) -> (r: usize)
        ensures
            r == self@.pending,
    {
        self.pending
    }
}

} // verus!
