use std::cell::RefCell;
use std::rc::Rc;

use drying_paint::{DefaultOwner, WatchContext, Watched};

#[test]
fn watched_add() {
    let left = Watched::new(587);
    assert_eq!(Watched::get_unwatched(&left) + 13, 600);
}

struct Content {
    dest: u32,
    source: Watched<u32>,
}

#[test]
fn add_to_watched() {
    let content = Rc::new(RefCell::new(Content {
        dest: 0,
        source: Watched::new(587),
    }));
    let weak = Rc::downgrade(&content);
    let mut ctx: WatchContext<DefaultOwner> = WatchContext::new();
    ctx.add_watch(move |_owner, arg| {
        if let Some(strong) = weak.upgrade() {
            let mut root = strong.borrow_mut();
            let root = &mut *root;
            root.dest = *root.source.get(arg);
        }
    });
    assert_eq!(content.borrow().dest, 587);
    *content.borrow_mut().source.get_mut(ctx.tracker_mut()) += 13;
    assert!(ctx.update().is_ok());
    assert_eq!(content.borrow().dest, 600);
}

#[test]
fn watched_xor() {
    let content = Rc::new(RefCell::new(Content {
        dest: 0,
        source: Watched::new(0),
    }));
    let weak = Rc::downgrade(&content);
    let mut ctx: WatchContext<DefaultOwner> = WatchContext::new();
    ctx.add_watch(move |_owner, arg| {
        if let Some(strong) = weak.upgrade() {
            let mut root = strong.borrow_mut();
            let root = &mut *root;
            root.dest = *root.source.get(arg) ^ 0xffffffff;
        }
    });
    *content.borrow_mut().source.get_mut(ctx.tracker_mut()) = 960294194;
    assert!(ctx.update().is_ok());
    assert_eq!(content.borrow().dest, 3334673101);
}
