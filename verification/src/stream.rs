//! Call-shape adapter state: bounded buffering and the per-call lifecycle.
//!
//! The codec layers are pure and stateless; the concurrency of the
//! streaming call shapes lives here. A [`BoundedQueue`] is the
//! finite-capacity producer/consumer handoff between the business-logic
//! side and the transport side of one call: its contracts give
//! per-direction ordering (the consumer observes envelopes exactly in
//! emission order) and backpressure (a full buffer admits nothing and
//! drops nothing, so a fast producer must wait rather than grow the buffer
//! without bound). The surrounding event loop owns the actual suspension
//! and wakeups; it consults this state to decide when to suspend. Each
//! call owns its own buffers end to end; nothing here is shared across
//! calls.

use vstd::prelude::*;

verus! {

/// The phases a call passes through, for every call shape.
#[derive(Debug, Clone, Copy, PartialEq, Eq, Structural)]
pub enum CallPhase {
    Open,
    Active,
    Completed,
    Failed,
    Cancelled,
}

/// The transitions the per-call state machine allows: a call opens, becomes
/// active, and ends completed, failed or cancelled; terminal phases are
/// final.
pub open spec fn phase_step_allowed(from: CallPhase, to: CallPhase) -> bool {
    ||| (from == CallPhase::Open && to == CallPhase::Active)
    ||| (from == CallPhase::Active && (to == CallPhase::Completed || to == CallPhase::Failed
        || to == CallPhase::Cancelled))
}

/// A phase from which no further transition is allowed.
pub open spec fn phase_is_terminal(p: CallPhase) -> bool {
    p == CallPhase::Completed || p == CallPhase::Failed || p == CallPhase::Cancelled
}

/// No transition leaves a terminal phase.
pub proof fn lemma_terminal_phases_final(from: CallPhase, to: CallPhase)
    requires
        phase_is_terminal(from),
    ensures
        !phase_step_allowed(from, to),
{
}

/// The lifecycle of one call, any shape. Every transition method steps the
/// machine along an allowed edge only.
pub struct CallLifecycle {
    state: CallPhase,
}

impl CallLifecycle {
    /// The call's current phase.
    pub closed spec fn phase(self) -> CallPhase {
        self.state
    }

    /// A newly opened call.
    pub fn new() -> (r: CallLifecycle)
        ensures
            r.phase() == CallPhase::Open,
    {
        CallLifecycle { state: CallPhase::Open }
    }

    /// The call begins exchanging envelopes.
    pub fn activate(&mut self)
        requires
            old(self).phase() == CallPhase::Open,
        ensures
            final(self).phase() == CallPhase::Active,
            phase_step_allowed(old(self).phase(), final(self).phase()),
    {
        self.state = CallPhase::Active;
    }

    /// The call ends normally.
    pub fn complete(&mut self)
        requires
            old(self).phase() == CallPhase::Active,
        ensures
            final(self).phase() == CallPhase::Completed,
            phase_step_allowed(old(self).phase(), final(self).phase()),
    {
        self.state = CallPhase::Completed;
    }

    /// The call ends in failure: this is how a decode failure terminates
    /// the one call it occurred on, without touching sibling calls.
    pub fn fail(&mut self)
        requires
            old(self).phase() == CallPhase::Active,
        ensures
            final(self).phase() == CallPhase::Failed,
            phase_step_allowed(old(self).phase(), final(self).phase()),
    {
        self.state = CallPhase::Failed;
    }

    /// Either peer cancels the active call.
    pub fn cancel(&mut self)
        requires
            old(self).phase() == CallPhase::Active,
        ensures
            final(self).phase() == CallPhase::Cancelled,
            phase_step_allowed(old(self).phase(), final(self).phase()),
    {
        self.state = CallPhase::Cancelled;
    }

    /// Whether the call has reached a terminal phase; a pending send or
    /// receive must then unblock rather than keep waiting.
    pub fn is_finished(&self) -> (r: bool)
        ensures
            r == phase_is_terminal(self.phase()),
    {
        match self.state {
            CallPhase::Open => false,
            CallPhase::Active => false,
            CallPhase::Completed => true,
            CallPhase::Failed => true,
            CallPhase::Cancelled => true,
        }
    }
}

/// A finite-capacity FIFO buffer between the producing and the consuming
/// side of one streaming call, with its full ghost history: everything the
/// producer ever emitted and everything the consumer has observed.
pub struct BoundedQueue<T> {
    items: Vec<T>,
    capacity: usize,
    emitted: Ghost<Seq<T>>,
    observed: Ghost<Seq<T>>,
}

impl<T> BoundedQueue<T> {
    /// The buffer's invariant: positive finite capacity, never more pending
    /// than the capacity, and the history accounts for every element — what
    /// was observed, then what still waits, is exactly what was emitted.
    pub closed spec fn wf(self) -> bool {
        &&& self.capacity > 0
        &&& self.items@.len() <= self.capacity
        &&& self.observed@ + self.items@ == self.emitted@
    }

    /// The fixed capacity the buffer was created with.
    pub closed spec fn capacity_spec(self) -> usize {
        self.capacity
    }

    /// The elements emitted but not yet observed, in emission order.
    pub closed spec fn pending(self) -> Seq<T> {
        self.items@
    }

    /// Everything the producer ever emitted, in order.
    pub closed spec fn emitted(self) -> Seq<T> {
        self.emitted@
    }

    /// Everything the consumer has observed, in order.
    pub closed spec fn observed(self) -> Seq<T> {
        self.observed@
    }

    /// An empty buffer of the given capacity.
    pub fn new(capacity: usize) -> (r: BoundedQueue<T>)
        requires
            capacity >= 1,
        ensures
            r.wf(),
            r.capacity_spec() == capacity,
            r.pending() == Seq::<T>::empty(),
            r.emitted() == Seq::<T>::empty(),
            r.observed() == Seq::<T>::empty(),
    {
        BoundedQueue {
            items: Vec::new(),
            capacity,
            emitted: Ghost(Seq::empty()),
            observed: Ghost(Seq::empty()),
        }
    }

    /// How many elements wait in the buffer.
    pub fn len(&self) -> (r: usize)
        ensures
            r == self.pending().len(),
    {
        self.items.len()
    }

    /// Whether a producer would have to wait before emitting.
    pub fn is_full(&self) -> (r: bool)
        ensures
            r == (self.pending().len() >= self.capacity_spec()),
    {
        self.items.len() >= self.capacity
    }

    /// The producer emits one element. With room, it is appended behind
    /// every earlier emission. With the buffer full it is handed back
    /// unchanged and nothing else moves: the element is neither dropped nor
    /// buffered beyond capacity, so the producer must wait and retry.
    pub fn push(&mut self, x: T) -> (r: Result<(), T>)
        requires
            old(self).wf(),
        ensures
            final(self).wf(),
            final(self).capacity_spec() == old(self).capacity_spec(),
            final(self).observed() == old(self).observed(),
            old(self).pending().len() < old(self).capacity_spec() ==> {
                &&& r is Ok
                &&& final(self).pending() == old(self).pending().push(x)
                &&& final(self).emitted() == old(self).emitted().push(x)
            },
            old(self).pending().len() >= old(self).capacity_spec() ==> {
                &&& (r matches Err(y) && y == x)
                &&& *final(self) == *old(self)
            },
    {
        if self.items.len() < self.capacity {
            self.items.push(x);
            proof {
                self.emitted@ = self.emitted@.push(x);
                assert(self.observed@ + self.items@ =~= self.emitted@);
            }
            Ok(())
        } else {
            Err(x)
        }
    }

    /// The consumer takes the oldest pending element, or nothing when the
    /// buffer is empty and it must wait for the producer.
    pub fn pop(&mut self) -> (r: Option<T>)
        requires
            old(self).wf(),
        ensures
            final(self).wf(),
            final(self).capacity_spec() == old(self).capacity_spec(),
            final(self).emitted() == old(self).emitted(),
            old(self).pending().len() > 0 ==> {
                &&& (r matches Some(y) && y == old(self).pending()[0])
                &&& final(self).pending() == old(self).pending().drop_first()
                &&& final(self).observed() == old(self).observed().push(old(self).pending()[0])
            },
            old(self).pending().len() == 0 ==> r is None && *final(self) == *old(self),
    {
        if self.items.len() > 0 {
            let x = self.items.remove(0);
            proof {
                self.observed@ = self.observed@.push(x);
                assert(old(self).items@.remove(0) =~= old(self).items@.drop_first());
                assert(self.observed@ + self.items@ =~= self.emitted@);
            }
            Some(x)
        } else {
            None
        }
    }
}

/// Streaming order: at every reachable state, what the consumer has
/// observed followed by what still waits is exactly the producer's emission
/// sequence — per direction, envelopes are observed in emission order,
/// never reordered and never dropped.
pub proof fn lemma_streaming_order<T>(q: &BoundedQueue<T>)
    requires
        q.wf(),
    ensures
        q.observed() + q.pending() == q.emitted(),
        q.observed().is_prefix_of(q.emitted()),
{
    assert(q.observed() =~= q.emitted().subrange(0, q.observed().len() as int));
}

/// Backpressure: at every reachable state the buffer holds at most its
/// fixed capacity; together with the push contract, a producer that is
/// ahead of the consumer waits instead of dropping or growing the buffer.
pub proof fn lemma_bounded_buffering<T>(q: &BoundedQueue<T>)
    requires
        q.wf(),
    ensures
        q.pending().len() <= q.capacity_spec(),
{
}

} // verus!
