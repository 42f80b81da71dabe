//! The resource pool and its borrow guard.

use vstd::prelude::*;

verus! {

/// A collection for reserving a resource from a pool, one at a time.
///
/// The available resources form a FIFO queue: `rsvp` removes the front
/// element, while `add` and a guard's `release` push onto the back. The
/// view of a pool is the sequence of its available resources, front
/// first; a resource currently checked out through a guard is not in
/// this sequence.
pub struct AsyncPool<T> {
    available: Vec<T>,
}

/// The guard on a resource's borrow.
///
/// A guard is created only by a successful reservation and holds the one
/// resource that was dequeued for it. `release` hands that resource back
/// to a pool's queue; afterwards the guard is inactive, holds nothing,
/// and a further `release` has no effect, so a resource is never
/// returned twice for the same guard. The view of a guard is
/// `Some(resource)` while it is active and `None` once released.
pub struct AsyncPoolGuard<T> {
    inner: Option<T>,
}

impl<T> View for AsyncPool<T> {
    type V = Seq<T>;

    closed spec fn view(&self) -> Seq<T> {
        self.available@
    }
}

impl<T> View for AsyncPoolGuard<T> {
    type V = Option<T>;

    closed spec fn view(&self) -> Option<T> {
        self.inner
    }
}

impl<T> AsyncPool<T> {
    /// Create a new `AsyncPool` with no available resources.
    pub fn new() -> (pool: Self)
        ensures
            pool@ == Seq::<T>::empty(),
    {
        AsyncPool { available: Vec::new() }
    }

    /// Create a new `AsyncPool` from an initial set of resources,
    /// queued in the order given.
    pub fn new_with(initial_resources: Vec<T>) -> (pool: Self)
        ensures
            pool@ == initial_resources@,
    {
        AsyncPool { available: initial_resources }
    }

    /// Add `item` to the back of the pool's available queue.
    ///
    /// Adding always succeeds: the queue is unbounded, so no caller ever
    /// has to wait to hand a resource in.
    pub fn add(&mut self, item: T)
        ensures
            final(self)@ == old(self)@.push(item),
    {
        self.available.push(item);
    }

    /// Reserve the next available resource.
    ///
    /// When a resource is available, the front of the queue is removed
    /// and returned wrapped in a new, active guard; no other reservation
    /// can ever observe or remove the same queued element again. When
    /// none is available, the pool is left unchanged and `None` is
    /// returned: the caller must wait until a resource is added or
    /// released and ask again (an async front end suspends its task at
    /// this point rather than polling).
    pub fn rsvp(&mut self) -> (guard: Option<AsyncPoolGuard<T>>)
        ensures
            old(self)@.len() == 0 ==> guard is None && final(self)@ == old(self)@,
            old(self)@.len() > 0 ==> {
                &&& guard is Some
                &&& guard.unwrap()@ == Some(old(self)@.first())
                &&& final(self)@ == old(self)@.drop_first()
            },
    {
        if self.available.len() == 0 {
            None
        } else {
            let item = self.available.remove(0);
            proof {
                assert(old(self)@.remove(0) =~= old(self)@.drop_first());
            }
            Some(AsyncPoolGuard { inner: Some(item) })
        }
    }

    /// The number of resources currently available.
    pub fn available_len(&self) -> (n: usize)
        ensures
            n == self@.len(),
    {
        self.available.len()
    }
}

impl<T> AsyncPoolGuard<T> {
    /// Whether the guard still holds its resource, i.e. has not yet
    /// released it.
    pub open spec fn is_active(&self) -> bool {
        self@ is Some
    }

    /// Whether the guard still holds its resource.
    pub fn holds_resource(&self) -> (active: bool)
        ensures
            active == self.is_active(),
    {
        self.inner.is_some()
    }

    /// Read access to the held resource.
    ///
    /// Asking an inactive guard for its resource is a usage error, not a
    /// runtime state: a guard loses its resource only on release.
    pub fn resource(&self) -> (resource: &T)
        requires
            self.is_active(),
        ensures
            *resource == self@.unwrap(),
    {
        self.inner.as_ref().unwrap()
    }

    /// Write access to the held resource.
    pub fn resource_mut(&mut self) -> (resource: &mut T)
        requires
            old(self).is_active(),
        ensures
            *resource == old(self)@.unwrap(),
            final(self)@ == Some(*final(resource)),
    {
        self.inner.as_mut().unwrap()
    }

    /// Release the held resource back to `pool`.
    ///
    /// An active guard pushes its resource onto the back of the pool's
    /// queue, where the next reservation can find it, and becomes
    /// inactive. An inactive guard leaves the pool untouched: however
    /// often release is attempted, a guard's resource enters the queue
    /// at most once.
    pub fn release(&mut self, pool: &mut AsyncPool<T>)
        ensures
            !final(self).is_active(),
            old(self).is_active() ==> final(pool)@ == old(pool)@.push(old(self)@.unwrap()),
            !old(self).is_active() ==> final(pool)@ == old(pool)@,
    {
        match self.inner.take() {
            Some(item) => pool.add(item),
            None => {},
        }
    }
}

} // verus!
