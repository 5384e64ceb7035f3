use vstd::prelude::*;

use crate::context::WatchFn;
use crate::trigger::WatchArg;

verus! {

/// Where watcher content lives: the context reaches it only through the
/// holder, so a holder whose content is gone makes the content's watches
/// skip their runs.
pub trait WatcherHolder<O> {
    type Content;

    /// Runs `f` on the content and the tracker if the content is still
    /// there, and returns what `f` returned; `None` when it is gone.
    fn get_mut<F, R>(&self, owner: &mut O, arg: &mut WatchArg, f: F) -> Option<R> where
        F: FnOnce(&mut Self::Content, &mut WatchArg) -> R,
    ;
}

/// Content that registers its own watches.
pub trait Watcher<O>: Sized {
    /// Registers the watches of this content through `init`.
    fn init<I: WatcherInit<O, Self>>(init: &mut I);
}

/// What `Watcher::init` registers the watches of its content through.
pub trait WatcherInit<O, T> {
    /// Registers `func` as a watch on the content: each run gets the
    /// content and the tracker.
    fn watch_explicit<F>(&mut self, func: F) where F: Fn(&mut T, &mut WatchArg) + 'static;
}

/// A watch on the content of a holder.
pub(crate) struct HolderWatch<H, F> {
    holder: H,
    func: F,
}

impl<O, H, F> WatchFn<O> for HolderWatch<H, F> where
    H: WatcherHolder<O>,
    F: Fn(&mut H::Content, &mut WatchArg),
 {
    fn run(&self, owner: &mut O, arg: &mut WatchArg) {
        let _ran = self.holder.get_mut(owner, arg, &self.func);
    }
}

/// The watches registered by one `Watcher::init`, to be added in order.
#[verifier::reject_recursive_types(O)]
pub(crate) struct PendingWatches<O, H> {
    pub(crate) holder: H,
    pub(crate) watches: Vec<Box<dyn WatchFn<O>>>,
}

impl<O: 'static, H: WatcherHolder<O> + Clone + 'static> WatcherInit<O, H::Content> for PendingWatches<
    O,
    H,
> {
    fn watch_explicit<F>(&mut self, func: F) where
        F: Fn(&mut H::Content, &mut WatchArg) + 'static,
     {
        let watch = HolderWatch { holder: self.holder.clone(), func };
        let boxed: Box<dyn WatchFn<O>> = Box::new(watch);
        self.watches.push(boxed);
    }
}

} // verus!
