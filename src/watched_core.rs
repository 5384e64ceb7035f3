use vstd::prelude::*;
use vstd::laws_eq::obeys_concrete_eq;

use crate::trigger::{
    bounded, reason_of, same_but_pending, skip_of, subscribed, triggered, WatchArg, WatchRef,
    WatchSet,
};

verus! {

/// The subscriber set after the running watch (if any) observed a value
/// whose subscribers were `before`: the observing watch is subscribed and
/// every other watch keeps its state.
pub open spec fn observed(
    before: Seq<Option<WatchRef>>,
    after: Seq<Option<WatchRef>>,
    arg: WatchArg,
) -> bool {
    match arg.running() {
        None => after == before,
        Some(cur) => {
            &&& (cur.watch < arg.gens().len() && arg.gens()[cur.watch as int] == cur.cycle
                ==> subscribed(after, arg.gens(), cur.watch))
            &&& (cur.watch < arg.gens().len() && arg.gens()[cur.watch as int] == cur.cycle
                && bounded(before, arg.gens()) ==> bounded(after, arg.gens()))
            &&& forall|w: usize|
                w != cur.watch ==> #[trigger] subscribed(after, arg.gens(), w) == subscribed(
                    before,
                    arg.gens(),
                    w,
                )
        },
    }
}

/// The tracker after a notification of a value whose subscribers were
/// `subs`, made from wherever `before` stood.
pub open spec fn notified(before: WatchArg, after: WatchArg, subs: Seq<Option<WatchRef>>) -> bool {
    &&& same_but_pending(before, after)
    &&& after.pending() == before.pending() + triggered(
        subs,
        skip_of(before.running()),
        reason_of(before.running()),
    )
}

/// The tracker after a notification that leaves no watch out.
pub open spec fn notified_external(
    before: WatchArg,
    after: WatchArg,
    subs: Seq<Option<WatchRef>>,
) -> bool {
    &&& same_but_pending(before, after)
    &&& after.pending() == before.pending() + triggered(subs, None, reason_of(None))
}

/// The basic reactive value: a set of subscribers, without data. Watches
/// that observe it are re-run when it is notified.
///
/// Dropping a value does not notify its subscribers: end its life with
/// `retire`, which does.
pub struct WatchedMeta {
    watchers: WatchSet,
}

impl WatchedMeta {
    /// The subscriber slots.
    pub closed spec fn subscribers(&self) -> Seq<Option<WatchRef>> {
        self.watchers@
    }

    /// A value with no subscriber.
    pub fn new() -> (r: Self)
        ensures
            r.subscribers() == Seq::<Option<WatchRef>>::empty(),
    {
        WatchedMeta { watchers: WatchSet::new() }
    }

    /// Subscribes the running watch, if there is one.
    pub fn watched(&mut self, ctx: &WatchArg)
        ensures
            observed(old(self).subscribers(), final(self).subscribers(), *ctx),
    {
        ctx.observe(&mut self.watchers);
    }

    /// Notifies the subscribers: all of them but the running watch, or all
    /// of them when no watch is running. The set is emptied.
    pub fn trigger(&mut self, ctx: &mut WatchArg)
        ensures
            final(self).subscribers() == Seq::<Option<WatchRef>>::empty(),
            notified(*old(ctx), *final(ctx), old(self).subscribers()),
    {
        ctx.notify(&mut self.watchers);
    }

    /// Notifies every subscriber, the running watch included.
    pub fn trigger_external(&mut self, ctx: &mut WatchArg)
        ensures
            final(self).subscribers() == Seq::<Option<WatchRef>>::empty(),
            notified_external(*old(ctx), *final(ctx), old(self).subscribers()),
    {
        ctx.notify_external(&mut self.watchers);
    }

    /// Ends the life of the value: every subscriber is notified, so that
    /// the watches that read it run again without it.
    pub fn retire(self, ctx: &mut WatchArg)
        ensures
            notified_external(*old(ctx), *final(ctx), self.subscribers()),
    {
        let mut this = self;
        this.trigger_external(ctx);
    }

    /// Subscribes the running watch if one is running; otherwise nothing.
    pub fn watched_auto(&mut self, ctx: &WatchArg)
        ensures
            observed(old(self).subscribers(), final(self).subscribers(), *ctx),
    {
        self.watched(ctx);
    }

    /// Notifies from the running watch if there is one, from outside
    /// otherwise.
    pub fn trigger_auto(&mut self, ctx: &mut WatchArg)
        ensures
            final(self).subscribers() == Seq::<Option<WatchRef>>::empty(),
            notified(*old(ctx), *final(ctx), old(self).subscribers()),
    {
        self.trigger(ctx);
    }
}


/// A value whose reads are tracked and whose writes notify the watches that
/// read it. Writing through it always notifies, whatever is written.
///
/// Dropping a value does not notify its subscribers: end its life with
/// `into_inner`, which does.
pub struct WatchedCore<T> {
    meta: WatchedMeta,
    value: T,
}

impl<T> WatchedCore<T> {
    /// The wrapped value.
    pub closed spec fn value(&self) -> T {
        self.value
    }

    /// The subscriber slots.
    pub closed spec fn subscribers(&self) -> Seq<Option<WatchRef>> {
        self.meta.subscribers()
    }

    /// Wraps `value`, with no subscriber.
    pub fn new(value: T) -> (r: Self)
        ensures
            r.value() == value,
            r.subscribers() == Seq::<Option<WatchRef>>::empty(),
    {
        WatchedCore { meta: WatchedMeta::new(), value }
    }

    /// Ends the life of the value and returns it; every subscriber is
    /// notified, as when a value is destroyed.
    pub fn into_inner(self, ctx: &mut WatchArg) -> (r: T)
        ensures
            r == self.value(),
            notified_external(*old(ctx), *final(ctx), self.subscribers()),
    {
        self.meta.retire(ctx);
        self.value
    }

    /// Reads the value and subscribes the running watch to it.
    pub fn get(&mut self, ctx: &WatchArg) -> (r: &T)
        ensures
            *r == old(self).value(),
            final(self).value() == old(self).value(),
            observed(old(self).subscribers(), final(self).subscribers(), *ctx),
    {
        self.meta.watched(ctx);
        &self.value
    }

    /// Reads the value without subscribing anything.
    pub fn get_unwatched(&self) -> (r: &T)
        ensures
            *r == self.value(),
    {
        &self.value
    }

    /// Grants write access: the subscribers are notified (all but the
    /// running watch), then the running watch is subscribed.
    pub fn get_mut(&mut self, ctx: &mut WatchArg) -> (r: &mut T)
        ensures
            *r == old(self).value(),
            final(self).value() == *final(r),
            notified(*old(ctx), *final(ctx), old(self).subscribers()),
            observed(Seq::<Option<WatchRef>>::empty(), final(self).subscribers(), *final(ctx)),
    {
        self.meta.trigger(ctx);
        self.meta.watched(ctx);
        &mut self.value
    }

    /// Grants write access from outside any watch: every subscriber is
    /// notified and the set is emptied.
    pub fn get_mut_external(&mut self, ctx: &mut WatchArg) -> (r: &mut T)
        ensures
            *r == old(self).value(),
            final(self).value() == *final(r),
            notified_external(*old(ctx), *final(ctx), old(self).subscribers()),
            final(self).subscribers() == Seq::<Option<WatchRef>>::empty(),
    {
        self.meta.trigger_external(ctx);
        &mut self.value
    }

    /// Puts `value` in place and returns the old value, as a write.
    pub fn replace(&mut self, value: T, ctx: &mut WatchArg) -> (r: T)
        ensures
            r == old(self).value(),
            final(self).value() == value,
            notified(*old(ctx), *final(ctx), old(self).subscribers()),
            observed(Seq::<Option<WatchRef>>::empty(), final(self).subscribers(), *final(ctx)),
    {
        let mut v = value;
        core::mem::swap(self.get_mut(ctx), &mut v);
        v
    }

    /// Puts `value` in place and returns the old value, as a write from
    /// outside any watch.
    pub fn replace_external(&mut self, value: T, ctx: &mut WatchArg) -> (r: T)
        ensures
            r == old(self).value(),
            final(self).value() == value,
            notified_external(*old(ctx), *final(ctx), old(self).subscribers()),
            final(self).subscribers() == Seq::<Option<WatchRef>>::empty(),
    {
        let mut v = value;
        core::mem::swap(self.get_mut_external(ctx), &mut v);
        v
    }

    /// Takes the value out, leaving `T::default()`, as a write.
    pub fn take(&mut self, ctx: &mut WatchArg) -> (r: T)
        where
            T: Default,
        ensures
            r == old(self).value(),
            call_ensures(T::default, (), final(self).value()),
            notified(*old(ctx), *final(ctx), old(self).subscribers()),
            observed(Seq::<Option<WatchRef>>::empty(), final(self).subscribers(), *final(ctx)),
    {
        let d = T::default();
        self.replace(d, ctx)
    }

    /// Takes the value out, leaving `T::default()`, as a write from outside
    /// any watch.
    pub fn take_external(&mut self, ctx: &mut WatchArg) -> (r: T)
        where
            T: Default,
        ensures
            r == old(self).value(),
            call_ensures(T::default, (), final(self).value()),
            notified_external(*old(ctx), *final(ctx), old(self).subscribers()),
            final(self).subscribers() == Seq::<Option<WatchRef>>::empty(),
    {
        let d = T::default();
        self.replace_external(d, ctx)
    }

    /// Stores `value` and notifies, only when it differs from the current
    /// value; an equal value changes nothing.
    pub fn set_if_neq(&mut self, value: T, ctx: &mut WatchArg)
        where
            T: PartialEq,
        ensures
            obeys_concrete_eq::<T>() ==> final(self).value() == value,
            obeys_concrete_eq::<T>() && old(self).value() == value ==> {
                &&& *final(self) == *old(self)
                &&& *final(ctx) == *old(ctx)
            },
            obeys_concrete_eq::<T>() && old(self).value() != value ==> {
                &&& notified(*old(ctx), *final(ctx), old(self).subscribers())
                &&& final(self).subscribers() == Seq::<Option<WatchRef>>::empty()
            },
    {
        proof {
            reveal(obeys_concrete_eq);
        }
        if !self.value.eq(&value) {
            self.value = value;
            self.meta.trigger(ctx);
        }
    }

    /// Like `set_if_neq`, notifying every subscriber when the value changes.
    pub fn set_if_neq_external(&mut self, value: T, ctx: &mut WatchArg)
        where
            T: PartialEq,
        ensures
            obeys_concrete_eq::<T>() ==> final(self).value() == value,
            obeys_concrete_eq::<T>() && old(self).value() == value ==> {
                &&& *final(self) == *old(self)
                &&& *final(ctx) == *old(ctx)
            },
            obeys_concrete_eq::<T>() && old(self).value() != value ==> {
                &&& notified_external(*old(ctx), *final(ctx), old(self).subscribers())
                &&& final(self).subscribers() == Seq::<Option<WatchRef>>::empty()
            },
    {
        proof {
            reveal(obeys_concrete_eq);
        }
        if !self.value.eq(&value) {
            self.value = value;
            self.meta.trigger_external(ctx);
        }
    }

    /// Reads the value, subscribing the running watch if there is one.
    pub fn get_auto(&mut self, ctx: &WatchArg) -> (r: &T)
        ensures
            *r == old(self).value(),
            final(self).value() == old(self).value(),
            observed(old(self).subscribers(), final(self).subscribers(), *ctx),
    {
        self.get(ctx)
    }

    /// Grants write access, notifying from the running watch if there is
    /// one and from outside otherwise.
    pub fn get_mut_auto(&mut self, ctx: &mut WatchArg) -> (r: &mut T)
        ensures
            *r == old(self).value(),
            final(self).value() == *final(r),
            notified(*old(ctx), *final(ctx), old(self).subscribers()),
            observed(Seq::<Option<WatchRef>>::empty(), final(self).subscribers(), *final(ctx)),
    {
        self.get_mut(ctx)
    }

    /// `replace`, from wherever the tracker stands.
    pub fn replace_auto(&mut self, value: T, ctx: &mut WatchArg) -> (r: T)
        ensures
            r == old(self).value(),
            final(self).value() == value,
            notified(*old(ctx), *final(ctx), old(self).subscribers()),
            observed(Seq::<Option<WatchRef>>::empty(), final(self).subscribers(), *final(ctx)),
    {
        self.replace(value, ctx)
    }

    /// `take`, from wherever the tracker stands.
    pub fn take_auto(&mut self, ctx: &mut WatchArg) -> (r: T)
        where
            T: Default,
        ensures
            r == old(self).value(),
            call_ensures(T::default, (), final(self).value()),
            notified(*old(ctx), *final(ctx), old(self).subscribers()),
            observed(Seq::<Option<WatchRef>>::empty(), final(self).subscribers(), *final(ctx)),
    {
        self.take(ctx)
    }

    /// `set_if_neq`, from wherever the tracker stands.
    pub fn set_if_neq_auto(&mut self, value: T, ctx: &mut WatchArg)
        where
            T: PartialEq,
        ensures
            obeys_concrete_eq::<T>() ==> final(self).value() == value,
            obeys_concrete_eq::<T>() && old(self).value() == value ==> {
                &&& *final(self) == *old(self)
                &&& *final(ctx) == *old(ctx)
            },
            obeys_concrete_eq::<T>() && old(self).value() != value ==> {
                &&& notified(*old(ctx), *final(ctx), old(self).subscribers())
                &&& final(self).subscribers() == Seq::<Option<WatchRef>>::empty()
            },
    {
        self.set_if_neq(value, ctx)
    }
}

/// A reactive value of a `Copy` type, read by copy. Setting it notifies
/// without subscribing the writer.
///
/// Dropping a value does not notify its subscribers: end its life with
/// `into_inner`, which does.
pub struct WatchedCellCore<T> {
    meta: WatchedMeta,
    value: T,
}

impl<T> WatchedCellCore<T> {
    /// The wrapped value.
    pub closed spec fn value(&self) -> T {
        self.value
    }

    /// The subscriber slots.
    pub closed spec fn subscribers(&self) -> Seq<Option<WatchRef>> {
        self.meta.subscribers()
    }

    /// Wraps `value`, with no subscriber.
    pub fn new(value: T) -> (r: Self)
        ensures
            r.value() == value,
            r.subscribers() == Seq::<Option<WatchRef>>::empty(),
    {
        WatchedCellCore { meta: WatchedMeta::new(), value }
    }

    /// Ends the life of the value and returns it; every subscriber is
    /// notified, as when a value is destroyed.
    pub fn into_inner(self, ctx: &mut WatchArg) -> (r: T)
        ensures
            r == self.value(),
            notified_external(*old(ctx), *final(ctx), self.subscribers()),
    {
        self.meta.retire(ctx);
        self.value
    }

    /// Subscribes the running watch without reading the value.
    pub fn watched(&mut self, ctx: &WatchArg)
        ensures
            final(self).value() == old(self).value(),
            observed(old(self).subscribers(), final(self).subscribers(), *ctx),
    {
        self.meta.watched(ctx);
    }

    /// `watched`, from wherever the tracker stands.
    pub fn watched_auto(&mut self, ctx: &WatchArg)
        ensures
            final(self).value() == old(self).value(),
            observed(old(self).subscribers(), final(self).subscribers(), *ctx),
    {
        self.watched(ctx);
    }

    /// Grants write access: the subscribers are notified (all but the
    /// running watch), then the running watch is subscribed.
    pub fn get_mut(&mut self, ctx: &mut WatchArg) -> (r: &mut T)
        ensures
            *r == old(self).value(),
            final(self).value() == *final(r),
            notified(*old(ctx), *final(ctx), old(self).subscribers()),
            observed(Seq::<Option<WatchRef>>::empty(), final(self).subscribers(), *final(ctx)),
    {
        self.meta.trigger(ctx);
        self.meta.watched(ctx);
        &mut self.value
    }

    /// `get_mut`, from wherever the tracker stands.
    pub fn get_mut_auto(&mut self, ctx: &mut WatchArg) -> (r: &mut T)
        ensures
            *r == old(self).value(),
            final(self).value() == *final(r),
            notified(*old(ctx), *final(ctx), old(self).subscribers()),
            observed(Seq::<Option<WatchRef>>::empty(), final(self).subscribers(), *final(ctx)),
    {
        self.get_mut(ctx)
    }

    /// Grants write access from outside any watch: every subscriber is
    /// notified and the set is emptied.
    pub fn get_mut_external(&mut self, ctx: &mut WatchArg) -> (r: &mut T)
        ensures
            *r == old(self).value(),
            final(self).value() == *final(r),
            notified_external(*old(ctx), *final(ctx), old(self).subscribers()),
            final(self).subscribers() == Seq::<Option<WatchRef>>::empty(),
    {
        self.meta.trigger_external(ctx);
        &mut self.value
    }

    /// Stores `value` and notifies the subscribers (all but the running
    /// watch). The writer is not subscribed.
    pub fn set(&mut self, value: T, ctx: &mut WatchArg)
        ensures
            final(self).value() == value,
            final(self).subscribers() == Seq::<Option<WatchRef>>::empty(),
            notified(*old(ctx), *final(ctx), old(self).subscribers()),
    {
        self.meta.trigger(ctx);
        self.value = value;
    }

    /// `set`, from wherever the tracker stands.
    pub fn set_auto(&mut self, value: T, ctx: &mut WatchArg)
        ensures
            final(self).value() == value,
            final(self).subscribers() == Seq::<Option<WatchRef>>::empty(),
            notified(*old(ctx), *final(ctx), old(self).subscribers()),
    {
        self.set(value, ctx);
    }

    /// Stores `value` and notifies every subscriber.
    pub fn set_external(&mut self, value: T, ctx: &mut WatchArg)
        ensures
            final(self).value() == value,
            final(self).subscribers() == Seq::<Option<WatchRef>>::empty(),
            notified_external(*old(ctx), *final(ctx), old(self).subscribers()),
    {
        self.meta.trigger_external(ctx);
        self.value = value;
    }

    /// Puts `value` in place and returns the old value; the subscribers are
    /// notified and the running watch is subscribed.
    pub fn replace(&mut self, value: T, ctx: &mut WatchArg) -> (r: T)
        ensures
            r == old(self).value(),
            final(self).value() == value,
            notified(*old(ctx), *final(ctx), old(self).subscribers()),
            observed(Seq::<Option<WatchRef>>::empty(), final(self).subscribers(), *final(ctx)),
    {
        let mut v = value;
        core::mem::swap(self.get_mut(ctx), &mut v);
        v
    }

    /// `replace`, from wherever the tracker stands.
    pub fn replace_auto(&mut self, value: T, ctx: &mut WatchArg) -> (r: T)
        ensures
            r == old(self).value(),
            final(self).value() == value,
            notified(*old(ctx), *final(ctx), old(self).subscribers()),
            observed(Seq::<Option<WatchRef>>::empty(), final(self).subscribers(), *final(ctx)),
    {
        self.replace(value, ctx)
    }

    /// Puts `value` in place and returns the old value, notifying every
    /// subscriber.
    pub fn replace_external(&mut self, value: T, ctx: &mut WatchArg) -> (r: T)
        ensures
            r == old(self).value(),
            final(self).value() == value,
            notified_external(*old(ctx), *final(ctx), old(self).subscribers()),
            final(self).subscribers() == Seq::<Option<WatchRef>>::empty(),
    {
        let mut v = value;
        core::mem::swap(self.get_mut_external(ctx), &mut v);
        v
    }

    /// Takes the value out, leaving `T::default()`; the subscribers are
    /// notified and the running watch is subscribed.
    pub fn take(&mut self, ctx: &mut WatchArg) -> (r: T)
        where
            T: Default,
        ensures
            r == old(self).value(),
            call_ensures(T::default, (), final(self).value()),
            notified(*old(ctx), *final(ctx), old(self).subscribers()),
            observed(Seq::<Option<WatchRef>>::empty(), final(self).subscribers(), *final(ctx)),
    {
        let d = T::default();
        self.replace(d, ctx)
    }

    /// `take`, from wherever the tracker stands.
    pub fn take_auto(&mut self, ctx: &mut WatchArg) -> (r: T)
        where
            T: Default,
        ensures
            r == old(self).value(),
            call_ensures(T::default, (), final(self).value()),
            notified(*old(ctx), *final(ctx), old(self).subscribers()),
            observed(Seq::<Option<WatchRef>>::empty(), final(self).subscribers(), *final(ctx)),
    {
        self.take(ctx)
    }

    /// Takes the value out, leaving `T::default()`, notifying every
    /// subscriber.
    pub fn take_external(&mut self, ctx: &mut WatchArg) -> (r: T)
        where
            T: Default,
        ensures
            r == old(self).value(),
            call_ensures(T::default, (), final(self).value()),
            notified_external(*old(ctx), *final(ctx), old(self).subscribers()),
            final(self).subscribers() == Seq::<Option<WatchRef>>::empty(),
    {
        let d = T::default();
        self.replace_external(d, ctx)
    }
}

impl<T: Copy> WatchedCellCore<T> {
    /// A copy of the value; the running watch is subscribed.
    pub fn get(&mut self, ctx: &WatchArg) -> (r: T)
        ensures
            r == old(self).value(),
            final(self).value() == old(self).value(),
            observed(old(self).subscribers(), final(self).subscribers(), *ctx),
    {
        self.meta.watched(ctx);
        self.value
    }

    /// `get`, from wherever the tracker stands.
    pub fn get_auto(&mut self, ctx: &WatchArg) -> (r: T)
        ensures
            r == old(self).value(),
            final(self).value() == old(self).value(),
            observed(old(self).subscribers(), final(self).subscribers(), *ctx),
    {
        self.get(ctx)
    }

    /// A copy of the value, without subscribing anything.
    pub fn get_unwatched(&self) -> (r: T)
        ensures
            r == self.value(),
    {
        self.value
    }
}

impl<T: Copy + PartialEq> WatchedCellCore<T> {
    /// Stores `value` with `set`, only when it differs from the current one.
    pub fn set_if_neq(&mut self, value: T, ctx: &mut WatchArg)
        ensures
            obeys_concrete_eq::<T>() ==> final(self).value() == value,
            obeys_concrete_eq::<T>() && old(self).value() == value ==> {
                &&& *final(self) == *old(self)
                &&& *final(ctx) == *old(ctx)
            },
            obeys_concrete_eq::<T>() && old(self).value() != value ==> {
                &&& notified(*old(ctx), *final(ctx), old(self).subscribers())
                &&& final(self).subscribers() == Seq::<Option<WatchRef>>::empty()
            },
    {
        proof {
            reveal(obeys_concrete_eq);
        }
        if !self.value.eq(&value) {
            self.set(value, ctx);
        }
    }

    /// `set_if_neq`, from wherever the tracker stands.
    pub fn set_if_neq_auto(&mut self, value: T, ctx: &mut WatchArg)
        ensures
            obeys_concrete_eq::<T>() ==> final(self).value() == value,
            obeys_concrete_eq::<T>() && old(self).value() == value ==> {
                &&& *final(self) == *old(self)
                &&& *final(ctx) == *old(ctx)
            },
            obeys_concrete_eq::<T>() && old(self).value() != value ==> {
                &&& notified(*old(ctx), *final(ctx), old(self).subscribers())
                &&& final(self).subscribers() == Seq::<Option<WatchRef>>::empty()
            },
    {
        self.set_if_neq(value, ctx);
    }

    /// Stores `value` with `set_external`, only when it differs from the
    /// current one.
    pub fn set_if_neq_external(&mut self, value: T, ctx: &mut WatchArg)
        ensures
            obeys_concrete_eq::<T>() ==> final(self).value() == value,
            obeys_concrete_eq::<T>() && old(self).value() == value ==> {
                &&& *final(self) == *old(self)
                &&& *final(ctx) == *old(ctx)
            },
            obeys_concrete_eq::<T>() && old(self).value() != value ==> {
                &&& notified_external(*old(ctx), *final(ctx), old(self).subscribers())
                &&& final(self).subscribers() == Seq::<Option<WatchRef>>::empty()
            },
    {
        proof {
            reveal(obeys_concrete_eq);
        }
        if !self.value.eq(&value) {
            self.set_external(value, ctx);
        }
    }
}

} // verus!
