use std::cell::RefCell;
use std::rc::{Rc, Weak};

use drying_paint::{
    DefaultOwner, WatchArg, WatchContext, Watched, WatchedCore, Watcher, WatcherHolder,
    WatcherInit,
};

/// Watcher content shared with the test through `Rc<RefCell<_>>`; the
/// context holds it weakly.
struct WeakHolder<T>(Weak<RefCell<T>>);

impl<T> Clone for WeakHolder<T> {
    fn clone(&self) -> Self {
        WeakHolder(self.0.clone())
    }
}

impl<T> WatcherHolder<DefaultOwner> for WeakHolder<T> {
    type Content = T;

    fn get_mut<F, R>(&self, _owner: &mut DefaultOwner, arg: &mut WatchArg, f: F) -> Option<R>
    where
        F: FnOnce(&mut T, &mut WatchArg) -> R,
    {
        self.0.upgrade().map(|strong| f(&mut strong.borrow_mut(), arg))
    }
}

struct CoreContent {
    dest: i32,
    source: WatchedCore<i32>,
}

impl Watcher<DefaultOwner> for CoreContent {
    fn init<I: WatcherInit<DefaultOwner, Self>>(init: &mut I) {
        init.watch_explicit(|root: &mut CoreContent, arg: &mut WatchArg| {
            root.dest = *root.source.get(arg);
        });
    }
}

#[test]
fn simple_propogate_core() {
    let content = Rc::new(RefCell::new(CoreContent {
        dest: 0,
        source: WatchedCore::new(37),
    }));
    let weak = Rc::downgrade(&content);

    let mut ctx: WatchContext<DefaultOwner> = WatchContext::new();
    assert_eq!(content.borrow().dest, 0);
    ctx.add_watcher(&WeakHolder(weak));
    assert_eq!(content.borrow().dest, 37);
    *content.borrow_mut().source.get_mut_external(ctx.tracker_mut()) = 43;
    assert_eq!(content.borrow().dest, 37);
    assert!(ctx.update().is_ok());
    assert_eq!(content.borrow().dest, 43);
    assert!(ctx.update().is_ok());
    assert_eq!(content.borrow().dest, 43);
}

struct Content {
    dest: i32,
    source: Watched<i32>,
}

impl Watcher<DefaultOwner> for Content {
    fn init<I: WatcherInit<DefaultOwner, Self>>(init: &mut I) {
        init.watch_explicit(|root: &mut Content, arg: &mut WatchArg| {
            root.dest = *root.source.get(arg);
        });
    }
}

#[test]
fn simple_propogate() {
    let content = Rc::new(RefCell::new(Content {
        dest: 0,
        source: Watched::new(37),
    }));
    let weak = Rc::downgrade(&content);

    let mut ctx: WatchContext<DefaultOwner> = WatchContext::new();
    assert_eq!(content.borrow().dest, 0);
    ctx.add_watcher(&WeakHolder(weak));
    assert_eq!(content.borrow().dest, 37);
    *content.borrow_mut().source.get_mut(ctx.tracker_mut()) = 43;
    assert_eq!(content.borrow().dest, 37);
    assert!(ctx.update().is_ok());
    assert_eq!(content.borrow().dest, 43);
    assert!(ctx.update().is_ok());
    assert_eq!(content.borrow().dest, 43);
}

struct MutsTwice {
    value: Watched<i32>,
}

impl Watcher<DefaultOwner> for MutsTwice {
    fn init<I: WatcherInit<DefaultOwner, Self>>(init: &mut I) {
        init.watch_explicit(|root: &mut MutsTwice, arg: &mut WatchArg| {
            *root.value.get_mut(arg) += 1;
            *root.value.get_mut(arg) += 1;
        });
    }
}

#[test]
fn double_mut_in_watch() {
    let content = Rc::new(RefCell::new(MutsTwice {
        value: Watched::new(0_i32),
    }));
    let weak = Rc::downgrade(&content);

    let mut ctx: WatchContext<DefaultOwner> = WatchContext::new();
    ctx.set_frame_limit(Some(100));
    ctx.add_watcher(&WeakHolder(weak));
    assert_eq!(*Watched::get_unwatched(&content.borrow().value), 2);
    assert!(ctx.update().is_ok());
    assert_eq!(*Watched::get_unwatched(&content.borrow().value), 2);
    *content.borrow_mut().value.get_mut(ctx.tracker_mut()) = 41;
    assert!(ctx.update().is_ok());
    assert_eq!(*Watched::get_unwatched(&content.borrow().value), 43);
}

#[test]
fn watched_reasonably_sized() {
    assert_eq!(
        std::mem::size_of::<Watched<usize>>(),
        2 * std::mem::size_of::<usize>(),
    );
}
