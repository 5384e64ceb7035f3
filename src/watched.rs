use vstd::prelude::*;
use vstd::laws_eq::obeys_concrete_eq;

use crate::trigger::{WatchArg, WatchRef};
use crate::watched_core::{notified, notified_external, observed, WatchedCellCore, WatchedCore};

verus! {

/// A reactive value used through the tracker wherever it stands: reads
/// subscribe the running watch if there is one, writes notify from the
/// running watch or, outside any watch, every subscriber.
///
/// Dropping a value does not notify its subscribers: end its life with
/// `into_inner`, which does.
pub struct Watched<T> {
    inner: WatchedCore<T>,
}

impl<T> Watched<T> {
    /// The wrapped value.
    pub closed spec fn value(&self) -> T {
        self.inner.value()
    }

    /// The subscriber slots.
    pub closed spec fn subscribers(&self) -> Seq<Option<WatchRef>> {
        self.inner.subscribers()
    }

    /// Wraps `value`, with no subscriber.
    pub fn new(value: T) -> (r: Self)
        ensures
            r.value() == value,
            r.subscribers() == Seq::<Option<WatchRef>>::empty(),
    {
        Watched { inner: WatchedCore::new(value) }
    }

    /// Ends the life of the value and returns it; every subscriber is
    /// notified, as when a value is destroyed.
    pub fn into_inner(this: Self, ctx: &mut WatchArg) -> (r: T)
        ensures
            r == this.value(),
            notified_external(*old(ctx), *final(ctx), this.subscribers()),
    {
        this.inner.into_inner(ctx)
    }

    /// Reads the value, subscribing the running watch if there is one.
    pub fn get(&mut self, ctx: &WatchArg) -> (r: &T)
        ensures
            *r == old(self).value(),
            final(self).value() == old(self).value(),
            observed(old(self).subscribers(), final(self).subscribers(), *ctx),
    {
        self.inner.get_auto(ctx)
    }

    /// Grants write access; the subscribers are notified.
    pub fn get_mut(&mut self, ctx: &mut WatchArg) -> (r: &mut T)
        ensures
            *r == old(self).value(),
            final(self).value() == *final(r),
            notified(*old(ctx), *final(ctx), old(self).subscribers()),
            observed(Seq::<Option<WatchRef>>::empty(), final(self).subscribers(), *final(ctx)),
    {
        self.inner.get_mut_auto(ctx)
    }

    /// Puts `value` in place and returns the old value, as a write.
    pub fn replace(this: &mut Self, value: T, ctx: &mut WatchArg) -> (r: T)
        ensures
            r == old(this).value(),
            final(this).value() == value,
            notified(*old(ctx), *final(ctx), old(this).subscribers()),
            observed(Seq::<Option<WatchRef>>::empty(), final(this).subscribers(), *final(ctx)),
    {
        this.inner.replace_auto(value, ctx)
    }

    /// Takes the value out, leaving `T::default()`, as a write.
    pub fn take(this: &mut Self, ctx: &mut WatchArg) -> (r: T)
        where
            T: Default,
        ensures
            r == old(this).value(),
            call_ensures(T::default, (), final(this).value()),
            notified(*old(ctx), *final(ctx), old(this).subscribers()),
            observed(Seq::<Option<WatchRef>>::empty(), final(this).subscribers(), *final(ctx)),
    {
        this.inner.take_auto(ctx)
    }

    /// Stores `value` and notifies only when it differs from the current
    /// value: the way to keep two values equal without an endless cycle.
    pub fn set_if_neq(wrapper: &mut Self, value: T, ctx: &mut WatchArg)
        where
            T: PartialEq,
        ensures
            obeys_concrete_eq::<T>() ==> final(wrapper).value() == value,
            obeys_concrete_eq::<T>() && old(wrapper).value() == value ==> {
                &&& *final(wrapper) == *old(wrapper)
                &&& *final(ctx) == *old(ctx)
            },
            obeys_concrete_eq::<T>() && old(wrapper).value() != value ==> {
                &&& notified(*old(ctx), *final(ctx), old(wrapper).subscribers())
                &&& final(wrapper).subscribers() == Seq::<Option<WatchRef>>::empty()
            },
    {
        wrapper.inner.set_if_neq_auto(value, ctx);
    }

    /// Reads the value without subscribing anything.
    pub fn get_unwatched(this: &Self) -> (r: &T)
        ensures
            *r == this.value(),
    {
        this.inner.get_unwatched()
    }
}

/// A reactive `Copy` value used through the tracker wherever it stands.
///
/// Dropping a value does not notify its subscribers: end its life with
/// `into_inner`, which does.
pub struct WatchedCell<T> {
    inner: WatchedCellCore<T>,
}

impl<T> WatchedCell<T> {
    /// The wrapped value.
    pub closed spec fn value(&self) -> T {
        self.inner.value()
    }

    /// The subscriber slots.
    pub closed spec fn subscribers(&self) -> Seq<Option<WatchRef>> {
        self.inner.subscribers()
    }

    /// Wraps `value`, with no subscriber.
    pub fn new(value: T) -> (r: Self)
        ensures
            r.value() == value,
            r.subscribers() == Seq::<Option<WatchRef>>::empty(),
    {
        WatchedCell { inner: WatchedCellCore::new(value) }
    }

    /// Ends the life of the value and returns it; every subscriber is
    /// notified, as when a value is destroyed.
    pub fn into_inner(self, ctx: &mut WatchArg) -> (r: T)
        ensures
            r == self.value(),
            notified_external(*old(ctx), *final(ctx), self.subscribers()),
    {
        self.inner.into_inner(ctx)
    }

    /// Grants write access; the subscribers are notified and the running
    /// watch is subscribed.
    pub fn get_mut(&mut self, ctx: &mut WatchArg) -> (r: &mut T)
        ensures
            *r == old(self).value(),
            final(self).value() == *final(r),
            notified(*old(ctx), *final(ctx), old(self).subscribers()),
            observed(Seq::<Option<WatchRef>>::empty(), final(self).subscribers(), *final(ctx)),
    {
        self.inner.get_mut_auto(ctx)
    }

    /// Subscribes the running watch without reading the value.
    pub fn watched(&mut self, ctx: &WatchArg)
        ensures
            final(self).value() == old(self).value(),
            observed(old(self).subscribers(), final(self).subscribers(), *ctx),
    {
        self.inner.watched_auto(ctx);
    }

    /// Stores `value` and notifies the subscribers.
    pub fn set(&mut self, value: T, ctx: &mut WatchArg)
        ensures
            final(self).value() == value,
            final(self).subscribers() == Seq::<Option<WatchRef>>::empty(),
            notified(*old(ctx), *final(ctx), old(self).subscribers()),
    {
        self.inner.set_auto(value, ctx);
    }

    /// Puts `value` in place and returns the old value.
    pub fn replace(&mut self, value: T, ctx: &mut WatchArg) -> (r: T)
        ensures
            r == old(self).value(),
            final(self).value() == value,
            notified(*old(ctx), *final(ctx), old(self).subscribers()),
            observed(Seq::<Option<WatchRef>>::empty(), final(self).subscribers(), *final(ctx)),
    {
        self.inner.replace_auto(value, ctx)
    }

    /// Takes the value out, leaving `T::default()`.
    pub fn take(&mut self, ctx: &mut WatchArg) -> (r: T)
        where
            T: Default,
        ensures
            r == old(self).value(),
            call_ensures(T::default, (), final(self).value()),
            notified(*old(ctx), *final(ctx), old(self).subscribers()),
            observed(Seq::<Option<WatchRef>>::empty(), final(self).subscribers(), *final(ctx)),
    {
        self.inner.take_auto(ctx)
    }
}

impl<T: Copy> WatchedCell<T> {
    /// A copy of the value; the running watch, if any, is subscribed.
    pub fn get(&mut self, ctx: &WatchArg) -> (r: T)
        ensures
            r == old(self).value(),
            final(self).value() == old(self).value(),
            observed(old(self).subscribers(), final(self).subscribers(), *ctx),
    {
        self.inner.get_auto(ctx)
    }
}

/// A reactive value that can be read by value from wherever the tracker
/// stands.
pub trait WatchedValue {
    type Value;

    /// Reads the value, subscribing the running watch if there is one.
    fn get_auto(&mut self, ctx: &WatchArg) -> Self::Value;
}

impl<T: Copy> WatchedValue for WatchedCell<T> {
    type Value = T;

    fn get_auto(&mut self, ctx: &WatchArg) -> T {
        self.get(ctx)
    }
}

} // verus!
