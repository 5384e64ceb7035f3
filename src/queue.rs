use vstd::prelude::*;

use std::collections::VecDeque;

use crate::trigger::{WatchArg, WatchRef};
use crate::watched_core::{notified, notified_external, observed, WatchedMeta};

verus! {

/// A queue whose items are handed to a watch one per frame: the watch that
/// handles an item is re-run in the next frame to take the next one.
pub struct WatchedQueue<T> {
    queue: VecDeque<T>,
    current_data: Option<T>,
    current_meta: WatchedMeta,
    popped_frame_id: u8,
}

impl<T> WatchedQueue<T> {
    /// The items waiting, front first.
    pub closed spec fn items(&self) -> Seq<T> {
        self.queue@
    }

    /// The item being handled in the frame it was taken in.
    pub closed spec fn current(&self) -> Option<T> {
        self.current_data
    }

    /// The frame in which the current item was taken.
    pub closed spec fn popped_frame(&self) -> u8 {
        self.popped_frame_id
    }

    /// The subscriber slots.
    pub closed spec fn subscribers(&self) -> Seq<Option<WatchRef>> {
        self.current_meta.subscribers()
    }

    /// An empty queue.
    pub fn new() -> (r: Self)
        ensures
            r.items() == Seq::<T>::empty(),
            r.current() is None,
            r.popped_frame() == 0,
            r.subscribers() == Seq::<Option<WatchRef>>::empty(),
    {
        WatchedQueue {
            queue: VecDeque::new(),
            current_data: None,
            current_meta: WatchedMeta::new(),
            popped_frame_id: 0,
        }
    }

    /// Subscribes the running watch and hands it the current item, if
    /// any. An item is taken from the front of the queue when there is no
    /// current item or the current one was taken in an earlier frame; taking
    /// one notifies every subscriber, so that the next item is handled in
    /// the next frame. The handler `f` runs on the current item.
    pub fn handle_item<F: FnOnce(&T)>(&mut self, ctx: &mut WatchArg, f: F)
        requires
            forall|t: &T| f.requires((t,)),
        ensures
            ({
                let refresh = old(self).current() is None || old(self).popped_frame() != old(ctx).frame();
                &&& refresh ==> final(self).popped_frame() == old(ctx).frame()
                &&& refresh && old(self).items().len() > 0 ==> {
                    &&& final(self).current() == Some(old(self).items()[0])
                    &&& final(self).items() == old(self).items().subrange(1, old(self).items().len() as int)
                    &&& final(self).subscribers() == Seq::<Option<WatchRef>>::empty()
                }
                &&& refresh && old(self).items().len() == 0 ==> {
                    &&& final(self).current() is None
                    &&& final(self).items() == old(self).items()
                    &&& final(ctx).pending() == old(ctx).pending()
                }
                &&& !refresh ==> {
                    &&& final(self).current() == old(self).current()
                    &&& final(self).items() == old(self).items()
                    &&& final(self).popped_frame() == old(self).popped_frame()
                    &&& final(ctx).pending() == old(ctx).pending()
                }
            }),
            ({
                let refresh = old(self).current() is None || old(self).popped_frame() != old(ctx).frame();
                refresh && old(self).items().len() > 0 ==> exists|subs: Seq<Option<WatchRef>>|
                    observed(old(self).subscribers(), subs, *old(ctx)) && notified_external(
                        *old(ctx),
                        *final(ctx),
                        subs,
                    )
            }),
            ({
                let refresh = old(self).current() is None || old(self).popped_frame() != old(ctx).frame();
                !(refresh && old(self).items().len() > 0) ==> observed(
                    old(self).subscribers(),
                    final(self).subscribers(),
                    *old(ctx),
                )
            }),
            final(self).current() matches Some(item) ==> f.ensures((&item,), ()),
            final(ctx).running() == old(ctx).running(),
            final(ctx).frame() == old(ctx).frame(),
    {
        self.current_meta.watched(ctx);
        let ghost subs = self.current_meta.subscribers();
        let mut current_data: Option<T> = None;
        core::mem::swap(&mut current_data, &mut self.current_data);
        if current_data.is_none() || self.popped_frame_id != ctx.frame_id() {
            current_data = self.queue.pop_front();
            self.popped_frame_id = ctx.frame_id();
            if current_data.is_some() {
                self.current_meta.trigger_external(ctx);
                assert(observed(old(self).subscribers(), subs, *old(ctx)));
            }
        }
        if let Some(item) = &current_data {
            f(item);
        }
        self.current_data = current_data;
    }

    /// Adds `item` at the back and notifies the subscribers (all but the
    /// running watch).
    pub fn push(&mut self, ctx: &mut WatchArg, item: T)
        ensures
            final(self).items() == old(self).items().push(item),
            final(self).current() == old(self).current(),
            final(self).popped_frame() == old(self).popped_frame(),
            final(self).subscribers() == Seq::<Option<WatchRef>>::empty(),
            notified(*old(ctx), *final(ctx), old(self).subscribers()),
    {
        self.queue.push_back(item);
        self.current_meta.trigger(ctx);
    }

    /// Adds `item` at the back and notifies every subscriber.
    pub fn push_external(&mut self, ctx: &mut WatchArg, item: T)
        ensures
            final(self).items() == old(self).items().push(item),
            final(self).current() == old(self).current(),
            final(self).popped_frame() == old(self).popped_frame(),
            final(self).subscribers() == Seq::<Option<WatchRef>>::empty(),
            notified_external(*old(ctx), *final(ctx), old(self).subscribers()),
    {
        self.queue.push_back(item);
        self.current_meta.trigger_external(ctx);
    }

    /// `push`, from wherever the tracker stands.
    pub fn push_auto(&mut self, ctx: &mut WatchArg, item: T)
        ensures
            final(self).items() == old(self).items().push(item),
            final(self).current() == old(self).current(),
            final(self).popped_frame() == old(self).popped_frame(),
            final(self).subscribers() == Seq::<Option<WatchRef>>::empty(),
            notified(*old(ctx), *final(ctx), old(self).subscribers()),
    {
        self.push(ctx, item);
    }
}

} // verus!
