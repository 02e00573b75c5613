//! The closure registry behind every callback registration.
//!
//! The native engine takes a bare function pointer and an opaque data
//! pointer, stores both, and calls the pointer at its own discretion with
//! the data pointer re-supplied. Handing out a raw address makes a stale
//! registration undefined behavior; this registry makes it a checked
//! failure instead. The captured closure is kept in a stable slot and the
//! engine is given the slot's integer handle as its opaque data; when a
//! callback fires, the driver looks the handle up and finds the closure,
//! or `None` for a handle whose registration is gone. A handle is never
//! reused: a slot that is unregistered stays empty.
//!
//! Notifications that arrive before the driver pumps them wait in a
//! first-in, first-out queue, so callbacks run exactly once each and in
//! arrival order.

use vstd::prelude::*;

verus! {

/// Registered callbacks, held in stable slots and found by handle.
pub struct CallbackRegistry<T> {
    /// The registered closures; a handle is an index into this vector.
    pub slots: Vec<Option<T>>,
}

impl<T> View for CallbackRegistry<T> {
    type V = Seq<Option<T>>;

    open spec fn view(&self) -> Seq<Option<T>> {
        self.slots@
    }
}

impl<T> CallbackRegistry<T> {
    /// Creates a registry with nothing registered.
    pub fn new() -> (r: Self)
        ensures
            r@ == Seq::<Option<T>>::empty(),
    {
        CallbackRegistry { slots: Vec::new() }
    }

    /// Registers a captured closure and returns its handle, the next
    /// unused one; no earlier registration is disturbed.
    pub fn register(&mut self, payload: T) -> (handle: u64)
        ensures
            final(self)@ == old(self)@.push(Some(payload)),
            handle == old(self)@.len(),
    {
        let handle = self.slots.len() as u64;
        self.slots.push(Some(payload));
        handle
    }

    /// Finds the closure registered under a handle.
    ///
    /// A handle that was never handed out, or whose registration has been
    /// removed, yields `None` rather than touching freed state.
    pub fn lookup(&self, handle: u64) -> (r: Option<&T>)
        ensures
            r is Some <==> (handle < self@.len() && self@[handle as int] is Some),
            r matches Some(p) ==> self@[handle as int] == Some(*p),
    {
        if handle < self.slots.len() as u64 {
            match &self.slots[handle as usize] {
                Some(p) => Some(p),
                None => None,
            }
        } else {
            None
        }
    }

    /// Removes the registration behind a handle, telling whether one was
    /// there. The slot stays empty, so the handle is never reused.
    pub fn unregister(&mut self, handle: u64) -> (removed: bool)
        ensures
            handle < old(self)@.len() ==> (final(self)@ == old(self)@.update(handle as int, None)
                && removed == (old(self)@[handle as int] is Some)),
            handle >= old(self)@.len() ==> (final(self)@ == old(self)@ && !removed),
    {
        if handle < self.slots.len() as u64 {
            let removed = matches!(&self.slots[handle as usize], Some(_));
            self.slots[handle as usize] = None;
            removed
        } else {
            false
        }
    }

    /// How many handles have been handed out so far.
    pub fn handles_used(&self) -> (n: usize)
        ensures
            n == self@.len(),
    {
        self.slots.len()
    }
}

/// One pending notification: the handle of the callback it is for and the
/// two unsigned integers the engine reported (for a resize, the new width
/// and height; a notification with fewer arguments leaves them zero).
#[derive(Clone, Copy, PartialEq, Eq, Structural, Debug)]
pub struct Notification {
    /// Handle of the registered callback to run.
    pub handle: u64,
    /// The notification's first argument.
    pub a: u32,
    /// The notification's second argument.
    pub b: u32,
}

/// Notifications waiting to be delivered, first in first out.
pub struct NotificationQueue {
    /// The waiting notifications, oldest first.
    pub pending: Vec<Notification>,
}

impl View for NotificationQueue {
    type V = Seq<Notification>;

    open spec fn view(&self) -> Seq<Notification> {
        self.pending@
    }
}

impl NotificationQueue {
    /// Creates an empty queue.
    pub fn new() -> (r: Self)
        ensures
            r@ == Seq::<Notification>::empty(),
    {
        NotificationQueue { pending: Vec::new() }
    }

    /// Records an arrived notification behind every earlier one.
    pub fn push(&mut self, n: Notification)
        ensures
            final(self)@ == old(self)@.push(n),
    {
        self.pending.push(n);
    }

    /// Takes the notification that arrived first, removing it, so each is
    /// delivered exactly once and in arrival order.
    pub fn take_next(&mut self) -> (r: Option<Notification>)
        ensures
            old(self)@.len() > 0 ==> (r == Some(old(self)@[0]) && final(self)@ == old(self)@
                .subrange(1, old(self)@.len() as int)),
            old(self)@.len() == 0 ==> (r is None && final(self)@ == old(self)@),
    {
        if self.pending.len() > 0 {
            let n = self.pending.remove(0);
            proof {
                assert(old(self)@.remove(0) =~= old(self)@.subrange(1, old(self)@.len() as int));
            }
            Some(n)
        } else {
            None
        }
    }

    /// How many notifications are waiting.
    pub fn len(&self) -> (n: usize)
        ensures
            n == self@.len(),
    {
        self.pending.len()
    }
}

/// Taking a notification removes exactly the oldest one: every other
/// notification stays, in its old order, one place closer to the front.
/// With [`NotificationQueue::take_next`]'s contract this says delivery
/// follows arrival order, once per notification.
pub proof fn lemma_delivery_order(q: Seq<Notification>)
    requires
        q.len() > 0,
    ensures
        q.subrange(1, q.len() as int).len() == q.len() - 1,
        forall|k: int|
            0 <= k < q.len() - 1 ==> q.subrange(1, q.len() as int)[k] == q[k + 1],
{
}

} // verus!
