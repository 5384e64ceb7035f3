use std::cell::RefCell;
use std::rc::Rc;
use std::sync::mpsc::{channel, Receiver};

use drying_paint::{
    watched_channel, DefaultOwner, WatchContext, WatchName, Watched, WatchedCell,
    WatchedQueue, WatchedReceiver,
};

struct Balanced {
    left: Watched<i32>,
    right: Watched<i32>,
}

fn balanced_context(use_set_if_neq: bool) -> (Rc<RefCell<Balanced>>, WatchContext<DefaultOwner>) {
    let content = Rc::new(RefCell::new(Balanced {
        left: Watched::new(7),
        right: Watched::new(7),
    }));
    let mut ctx: WatchContext<DefaultOwner> = WatchContext::new();
    ctx.set_frame_limit(Some(100));
    let weak = Rc::downgrade(&content);
    ctx.add_watch_raw(WatchName::named("copy right to left"), move |_owner, arg| {
        if let Some(strong) = weak.upgrade() {
            let mut root = strong.borrow_mut();
            let root = &mut *root;
            let right = *root.right.get(arg);
            if use_set_if_neq {
                Watched::set_if_neq(&mut root.left, right, arg);
            } else {
                *root.left.get_mut(arg) = right;
            }
        }
    });
    let weak = Rc::downgrade(&content);
    ctx.add_watch_raw("copy left to right".into(), move |_owner, arg| {
        if let Some(strong) = weak.upgrade() {
            let mut root = strong.borrow_mut();
            let root = &mut *root;
            let left = *root.left.get(arg);
            if use_set_if_neq {
                Watched::set_if_neq(&mut root.right, left, arg);
            } else {
                *root.right.get_mut(arg) = left;
            }
        }
    });
    (content, ctx)
}

#[test]
fn mutual_balance_without_set_if_neq_reports_cycle() {
    let (content, mut ctx) = balanced_context(false);
    *content.borrow_mut().left.get_mut(ctx.tracker_mut()) = 68;
    let report = ctx.update().err().expect("the update must run out of frames");
    let names: Vec<&str> = report.names.iter().map(|n| n.label.unwrap()).collect();
    assert_eq!(report.watches.len(), 1);
    assert!(names.iter().all(|n| *n == "copy right to left" || *n == "copy left to right"));
    let mut cycle = report.cycle.clone();
    cycle.sort();
    assert_eq!(cycle, vec![0, 1]);
    let cycle_names: Vec<&str> =
        report.cycle.iter().map(|w| ctx.watch_name(*w).label.unwrap()).collect();
    assert!(cycle_names.contains(&"copy right to left"));
    assert!(cycle_names.contains(&"copy left to right"));
}

#[test]
fn mutual_balance_with_set_if_neq_converges() {
    let (content, mut ctx) = balanced_context(true);
    *content.borrow_mut().left.get_mut(ctx.tracker_mut()) = 68;
    assert!(ctx.update().is_ok());
    assert_eq!(*Watched::get_unwatched(&content.borrow().left), 68);
    assert_eq!(*Watched::get_unwatched(&content.borrow().right), 68);
    assert_eq!(ctx.tracker_mut().pending_count(), 0);
}

#[test]
fn set_if_neq_then_get_unwatched_round_trip() {
    let mut ctx: WatchContext<DefaultOwner> = WatchContext::new();
    let mut value = Watched::new(3);
    Watched::set_if_neq(&mut value, 9, ctx.tracker_mut());
    assert_eq!(*Watched::get_unwatched(&value), 9);
    Watched::set_if_neq(&mut value, 9, ctx.tracker_mut());
    assert_eq!(*value.get(ctx.tracker_mut()), 9);
}

#[test]
fn new_then_get_unwatched_keeps_no_subscriber() {
    let mut ctx: WatchContext<DefaultOwner> = WatchContext::new();
    let runs = Rc::new(RefCell::new(0));
    let cell = Rc::new(RefCell::new(WatchedCell::new(5u8)));
    let (runs2, cell2) = (runs.clone(), cell.clone());
    ctx.add_watch(move |_owner, _arg| {
        assert_eq!(cell2.borrow_mut().inner_copy(), 5);
        *runs2.borrow_mut() += 1;
    });
    cell.borrow_mut().set(6, ctx.tracker_mut());
    assert!(ctx.update().is_ok());
    assert_eq!(*runs.borrow(), 1);
}

trait InnerCopy {
    fn inner_copy(&mut self) -> u8;
}

impl InnerCopy for WatchedCell<u8> {
    fn inner_copy(&mut self) -> u8 {
        let mut ctx: WatchContext<DefaultOwner> = WatchContext::new();
        self.get(ctx.tracker_mut())
    }
}

#[test]
fn holder_dropped_mid_frame_is_skipped() {
    struct Holder {
        seen: i32,
    }
    let shared = Rc::new(RefCell::new(Watched::new(1)));
    let holder = Rc::new(RefCell::new(Holder { seen: 0 }));
    let mut ctx: WatchContext<DefaultOwner> = WatchContext::new();
    let (weak, shared2) = (Rc::downgrade(&holder), shared.clone());
    ctx.add_watch(move |_owner, arg| {
        let value = *shared2.borrow_mut().get(arg);
        if let Some(strong) = weak.upgrade() {
            strong.borrow_mut().seen = value;
        }
    });
    assert_eq!(holder.borrow().seen, 1);
    drop(holder);
    *shared.borrow_mut().get_mut(ctx.tracker_mut()) = 2;
    assert!(ctx.update().is_ok());
    *shared.borrow_mut().get_mut(ctx.tracker_mut()) = 3;
    assert!(ctx.update().is_ok());
    assert_eq!(ctx.tracker_mut().pending_count(), 0);
}

struct ChannelContent {
    dest: Option<i32>,
    source: WatchedReceiver<Receiver<i32>>,
}

#[test]
fn send_received_by_watch() {
    let (sender, receiver) = watched_channel(channel());
    let content = Rc::new(RefCell::new(ChannelContent {
        dest: None,
        source: receiver,
    }));
    let weak = Rc::downgrade(&content);
    let mut ctx: WatchContext<DefaultOwner> = WatchContext::new();
    ctx.add_watch(move |_owner, arg| {
        if let Some(strong) = weak.upgrade() {
            let mut root = strong.borrow_mut();
            let root = &mut *root;
            root.dest = root.source.get(arg).try_recv().ok();
        }
    });
    assert_eq!(content.borrow().dest, None);
    sender.send_with(|s| s.send(4812)).unwrap();
    assert!(ctx.update().is_ok());
    assert_eq!(content.borrow().dest, Some(4812));
}

#[test]
fn queue_hands_one_item_per_frame() {
    struct QueueContent {
        queue: WatchedQueue<u32>,
        handled: Vec<u32>,
    }
    let content = Rc::new(RefCell::new(QueueContent {
        queue: WatchedQueue::new(),
        handled: Vec::new(),
    }));
    let weak = Rc::downgrade(&content);
    let mut ctx: WatchContext<DefaultOwner> = WatchContext::new();
    ctx.add_watch(move |_owner, arg| {
        if let Some(strong) = weak.upgrade() {
            let mut root = strong.borrow_mut();
            let root = &mut *root;
            let mut got = None;
            root.queue.handle_item(arg, |item| got = Some(*item));
            if let Some(item) = got {
                root.handled.push(item);
            }
        }
    });
    content.borrow_mut().queue.push_external(ctx.tracker_mut(), 5);
    content.borrow_mut().queue.push_external(ctx.tracker_mut(), 8);
    content.borrow_mut().queue.push_external(ctx.tracker_mut(), 13);
    assert!(ctx.update().is_ok());
    assert_eq!(content.borrow().handled, vec![5, 8, 13]);
}
