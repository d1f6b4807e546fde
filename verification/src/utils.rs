//! Generic change-tracking containers: `Pristine` remembers whether its value
//! was touched since last observed, and `Ratchet` holds a queued new value
//! beside the current one until a consumer latches it.

use std::rc::Rc;
use vstd::prelude::*;

verus! {

/// A container that keeps track of when its contained value has been mutated.
#[derive(Clone, Debug)]
pub struct Pristine<T> {
    pub inner: T,
    pub dirty: bool,
}

impl<T> Pristine<T> {
    /// Wrap the given value in a new container. The value is initially dirty.
    pub fn new(inner: T) -> (p: Self)
        ensures
            p.inner == inner,
            p.dirty == true,
    {
        Pristine { inner, dirty: true }
    }

    /// Access the contained value, without making it dirty.
    pub fn get(&self) -> (inner: &T)
        ensures
            inner == &self.inner,
    {
        &self.inner
    }

    /// Access the contained value only if it is already dirty, and then make
    /// it clean. Returns the value exactly once per dirtying.
    pub fn get_dirty(&mut self) -> (r: Option<&T>)
        ensures
            final (self).inner == old(self).inner,
            final (self).dirty == false,
            r is Some <==> old(self).dirty,
            r matches Some(inner) ==> inner == &old(self).inner,
    {
        if self.dirty {
            self.dirty = false;
            Some(&self.inner)
        } else {
            None
        }
    }

    /// Access the contained value mutably, and make it dirty.
    pub fn get_mut(&mut self) -> (inner: &mut T)
        ensures
            *inner == old(self).inner,
            final (self).inner == *final (inner),
            final (self).dirty == true,
    {
        self.dirty = true;
        &mut self.inner
    }
}

/// A container that holds changes to a value until a consumer is ready to
/// receive them, then presents both the previous value and the new value when
/// the consumer requests them.
#[derive(Clone, Debug)]
pub struct Ratchet<T> {
    pub current: T,
    pub next: Option<T>,
}

impl<T> Ratchet<T> {
    /// The value a newly queued change starts from: the queued value if one
    /// is waiting, else the current value.
    pub open spec fn effective(self) -> T {
        match self.next {
            Some(v) => v,
            None => self.current,
        }
    }

    /// Wrap the given value in a new container, with no change queued.
    pub fn new(value: T) -> (r: Self)
        ensures
            r.current == value,
            r.next is None,
    {
        Self { current: value, next: None }
    }

    /// Access the current value.
    pub fn current(&self) -> (v: &T)
        ensures
            v == &self.current,
    {
        &self.current
    }

    /// Queue a new value, overwriting the currently queued one if any.
    pub fn set(&mut self, next: T)
        ensures
            final (self).current == old(self).current,
            final (self).next == Some(next),
    {
        self.next = Some(next);
    }
}

impl<T: Copy> Ratchet<T> {
    /// If a new value is queued, make it current and return the pair of the
    /// old and the new current value; return nothing when no change is
    /// queued. A change is queued exactly when `set` (or `update`) was called
    /// since the last `latch`.
    pub fn latch(&mut self) -> (r: Option<(T, T)>)
        ensures
            final (self).next is None,
            r is Some <==> old(self).next is Some,
            r matches Some((prev, cur)) ==> {
                &&& prev == old(self).current
                &&& cur == final (self).current
                &&& final (self).current == old(self).next->0
            },
            r is None ==> final (self).current == old(self).current,
    {
        match self.next {
            Some(next) => {
                let old_current = self.current;
                self.current = next;
                self.next = None;
                Some((old_current, next))
            },
            None => None,
        }
    }

    /// Queue a new value computed from the queued value, or from the current
    /// value if none is queued yet.
    pub fn update<F: Fn(T) -> T>(&mut self, f: F)
        requires
            call_requires(f, (old(self).effective(),)),
        ensures
            final (self).current == old(self).current,
            final (self).next matches Some(v) && call_ensures(
                f,
                (old(self).effective(),),
                v,
            ),
    {
        let base = match &self.next {
            Some(v) => *v,
            None => self.current,
        };
        let v = f(base);
        self.set(v);
    }
}

/// A position on the canvas, in signed pixel coordinates.
#[derive(Clone, Copy, Debug, PartialEq, Eq, Structural)]
pub struct Pos {
    pub x: i32,
    pub y: i32,
}

impl Pos {
    /// Unpack into an `(x, y)` pair.
    pub fn unwrap(self) -> (r: (i32, i32))
        ensures
            r.0 == self.x,
            r.1 == self.y,
    {
        (self.x, self.y)
    }
}

/// A reference-counted handle compared by pointer identity rather than by
/// value.
#[derive(Debug)]
pub struct PtrEq<T>(pub Rc<T>);

impl<T> PtrEq<T> {
    /// Wrap a shared handle.
    pub fn new(v: Rc<T>) -> (r: Self)
        ensures
            r.0 == v,
    {
        Self(v)
    }
}

} // verus!
