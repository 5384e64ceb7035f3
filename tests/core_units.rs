use std::cell::RefCell;
use std::rc::Rc;

use drying_paint::trigger::{log2_floor_exec, node_limit};
use drying_paint::{
    CycleDiagnostic, DefaultOwner, SyncTrigger, SyncWatchedMeta, TriggerReason, TriggeredWatch,
    WatchArg, WatchContext, WatchRef, WatchSet, Watched, WatchedCellCore, WatchedCore,
    WatchedMeta, WatchedQueue, WatchName,
};

fn wref(watch: usize, cycle: usize) -> WatchRef {
    WatchRef { watch, cycle }
}

fn external() -> TriggerReason {
    TriggerReason::from_caller()
}

#[test]
fn watch_set_notifies_every_subscriber_once() {
    let gens = vec![0, 0, 0];
    let mut set = WatchSet::new();
    set.add(wref(0, 0), &gens, 3);
    set.add(wref(1, 0), &gens, 3);
    set.add(wref(2, 0), &gens, 3);
    let mut pending = Vec::new();
    set.trigger_external(external(), &mut pending);
    let mut watches: Vec<usize> = pending.iter().map(|t| t.watch.watch).collect();
    watches.sort();
    assert_eq!(watches, vec![0, 1, 2]);
    assert!(pending.iter().all(|t| t.reason.source_watch.is_none()));
    let mut again = Vec::new();
    set.trigger_external(external(), &mut again);
    assert!(again.is_empty());
}

#[test]
fn watch_set_merges_references_to_one_watch() {
    let gens = vec![1];
    let mut set = WatchSet::new();
    set.add(wref(0, 0), &gens, 1);
    set.add(wref(0, 1), &gens, 1);
    let mut pending = Vec::new();
    set.trigger_external(external(), &mut pending);
    assert_eq!(pending.len(), 1);
    assert_eq!(pending[0].watch, wref(0, 1));
}

#[test]
fn notification_from_a_watch_leaves_it_out() {
    let gens = vec![0, 0];
    let mut set = WatchSet::new();
    set.add(wref(0, 0), &gens, 2);
    set.add(wref(1, 0), &gens, 2);
    let mut pending = Vec::new();
    set.trigger_with_current(1, external().with_source(1), &mut pending);
    assert_eq!(pending.len(), 1);
    assert_eq!(pending[0].watch.watch, 0);
    assert_eq!(pending[0].reason.source_watch, Some(1));
}

#[test]
fn watch_set_grows_by_nodes_and_squash_drops_stale_references() {
    let gens = vec![0, 0, 0, 0, 0, 0];
    let mut set = WatchSet::new();
    assert_eq!(set.nodes(), 0);
    for w in 0..5 {
        set.add(wref(w, 0), &gens, 6);
    }
    assert_eq!(set.nodes(), 2);
    let later = vec![1, 1, 1, 0, 0, 0];
    set.squash(&later);
    assert_eq!(set.nodes(), 1);
    let mut pending = Vec::new();
    set.trigger_external(external(), &mut pending);
    let mut watches: Vec<usize> = pending.iter().map(|t| t.watch.watch).collect();
    watches.sort();
    assert_eq!(watches, vec![3, 4]);
}

#[test]
fn compaction_limit_follows_the_watch_count() {
    assert_eq!(node_limit(0), 1);
    assert_eq!(node_limit(1), 2);
    assert_eq!(node_limit(100), 101);
    assert_eq!(node_limit(1000), 640);
    assert_eq!(node_limit(usize::MAX), 64 * 64);
    assert_eq!(log2_floor_exec(1), 0);
    assert_eq!(log2_floor_exec(1000), 9);
    assert_eq!(log2_floor_exec(1024), 10);
}

#[test]
fn cycle_diagnostic_finds_a_trigger_cycle() {
    let mut debug = CycleDiagnostic::new();
    let frame = vec![
        TriggeredWatch { watch: wref(1, 4), reason: external().with_source(0) },
        TriggeredWatch { watch: wref(2, 4), reason: external() },
        TriggeredWatch { watch: wref(0, 4), reason: external().with_source(1) },
        TriggeredWatch { watch: wref(0, 5), reason: external().with_source(1) },
    ];
    debug.track_frame(&frame);
    let mut cycle = debug.find_cycle();
    cycle.sort();
    assert_eq!(cycle, vec![0, 1]);
}

#[test]
fn cycle_diagnostic_reports_nothing_for_a_chain() {
    let mut debug = CycleDiagnostic::new();
    let frame = vec![
        TriggeredWatch { watch: wref(1, 0), reason: external().with_source(0) },
        TriggeredWatch { watch: wref(2, 0), reason: external().with_source(1) },
    ];
    debug.track_frame(&frame);
    assert!(debug.find_cycle().is_empty());
}

#[test]
fn tracker_starts_empty() {
    let mut ctx: WatchContext<DefaultOwner> = WatchContext::new();
    let arg: &mut WatchArg = ctx.tracker_mut();
    assert_eq!(arg.current_watch(), None);
    assert_eq!(arg.frame_id(), 0);
    assert_eq!(arg.total_watch_count(), 0);
    assert_eq!(arg.pending_count(), 0);
    assert_eq!(arg.generation(0), None);
}

#[test]
fn each_run_advances_the_generation_and_frame() {
    let cell = Rc::new(RefCell::new(WatchedCore::new(1u32)));
    let cell2 = cell.clone();
    let mut ctx: WatchContext<DefaultOwner> = WatchContext::new();
    ctx.add_watch(move |_owner, arg| {
        let _ = *cell2.borrow_mut().get(arg);
    });
    assert_eq!(ctx.tracker_mut().generation(0), Some(1));
    assert_eq!(ctx.tracker_mut().total_watch_count(), 1);
    *cell.borrow_mut().get_mut_external(ctx.tracker_mut()) = 2;
    assert_eq!(ctx.tracker_mut().pending_count(), 1);
    assert!(ctx.update().is_ok());
    assert_eq!(ctx.tracker_mut().generation(0), Some(2));
    assert_eq!(ctx.tracker_mut().frame_id(), 1);
    assert_eq!(ctx.tracker_mut().pending_count(), 0);
}

#[test]
fn watch_with_two_changed_inputs_runs_once_per_frame() {
    let a = Rc::new(RefCell::new(WatchedCore::new(1)));
    let b = Rc::new(RefCell::new(WatchedCore::new(2)));
    let runs = Rc::new(RefCell::new(0));
    let (a2, b2, runs2) = (a.clone(), b.clone(), runs.clone());
    let mut ctx: WatchContext<DefaultOwner> = WatchContext::new();
    ctx.add_watch(move |_owner, arg| {
        let _sum = *a2.borrow_mut().get(arg) + *b2.borrow_mut().get(arg);
        *runs2.borrow_mut() += 1;
    });
    assert_eq!(*runs.borrow(), 1);
    a.borrow_mut().replace_external(10, ctx.tracker_mut());
    b.borrow_mut().replace_external(20, ctx.tracker_mut());
    assert_eq!(ctx.tracker_mut().pending_count(), 2);
    assert!(ctx.update().is_ok());
    assert_eq!(*runs.borrow(), 2);
}

#[test]
fn a_value_no_longer_read_no_longer_reruns_the_watch() {
    let switch = Rc::new(RefCell::new(WatchedCellCore::new(true)));
    let value = Rc::new(RefCell::new(WatchedCellCore::new(5)));
    let runs = Rc::new(RefCell::new(0));
    let (switch2, value2, runs2) = (switch.clone(), value.clone(), runs.clone());
    let mut ctx: WatchContext<DefaultOwner> = WatchContext::new();
    ctx.add_watch(move |_owner, arg| {
        if switch2.borrow_mut().get(arg) {
            let _ = value2.borrow_mut().get(arg);
        }
        *runs2.borrow_mut() += 1;
    });
    value.borrow_mut().set_external(6, ctx.tracker_mut());
    assert!(ctx.update().is_ok());
    assert_eq!(*runs.borrow(), 2);
    switch.borrow_mut().set_external(false, ctx.tracker_mut());
    assert!(ctx.update().is_ok());
    assert_eq!(*runs.borrow(), 3);
    value.borrow_mut().set_external(7, ctx.tracker_mut());
    assert!(ctx.update().is_ok());
    assert_eq!(*runs.borrow(), 3);
}

#[test]
fn cell_core_operations() {
    let mut ctx: WatchContext<DefaultOwner> = WatchContext::new();
    let arg = ctx.tracker_mut();
    let mut cell = WatchedCellCore::new(4i64);
    assert_eq!(cell.get_unwatched(), 4);
    assert_eq!(cell.replace(9, arg), 4);
    assert_eq!(cell.take(arg), 9);
    assert_eq!(cell.get(arg), 0);
    cell.set_if_neq(0, arg);
    assert_eq!(arg.pending_count(), 0);
    cell.set_auto(12, arg);
    *cell.get_mut_external(arg) += 1;
    assert_eq!(cell.take_external(arg), 13);
    assert_eq!(cell.replace_external(2, arg), 0);
    cell.set_if_neq_external(3, arg);
    assert_eq!(cell.into_inner(arg), 3);
}

#[test]
fn core_operations() {
    let mut ctx: WatchContext<DefaultOwner> = WatchContext::new();
    let arg = ctx.tracker_mut();
    let mut core = WatchedCore::new(String::from("a"));
    assert_eq!(core.replace(String::from("b"), arg), "a");
    assert_eq!(core.take(arg), "b");
    assert_eq!(core.get_unwatched(), "");
    core.set_if_neq(String::from("c"), arg);
    assert_eq!(core.get(arg), "c");
    core.set_if_neq_external(String::from("d"), arg);
    assert_eq!(core.take_external(arg), "d");
    assert_eq!(core.into_inner(arg), "");
}

#[test]
fn meta_trigger_from_outside_queues_every_subscriber() {
    let meta = Rc::new(RefCell::new(WatchedMeta::new()));
    let meta2 = meta.clone();
    let mut ctx: WatchContext<DefaultOwner> = WatchContext::new();
    ctx.add_watch(move |_owner, arg| meta2.borrow_mut().watched(arg));
    meta.borrow_mut().trigger_external(ctx.tracker_mut());
    assert_eq!(ctx.tracker_mut().pending_count(), 1);
    meta.borrow_mut().trigger(ctx.tracker_mut());
    assert_eq!(ctx.tracker_mut().pending_count(), 1);
    assert!(ctx.update().is_ok());
}

#[test]
fn two_triggers_before_an_update_run_the_watch_once() {
    let meta = Rc::new(RefCell::new(SyncWatchedMeta::new()));
    let trigger = meta.borrow().create_trigger();
    let runs = Rc::new(RefCell::new(0));
    let (meta2, runs2) = (meta.clone(), runs.clone());
    let mut ctx: WatchContext<DefaultOwner> = WatchContext::new();
    ctx.add_watch(move |_owner, arg| {
        meta2.borrow_mut().watched(arg);
        *runs2.borrow_mut() += 1;
    });
    trigger.trigger();
    trigger.clone().trigger();
    assert!(ctx.update().is_ok());
    assert_eq!(*runs.borrow(), 2);
    assert!(ctx.update().is_ok());
    assert_eq!(*runs.borrow(), 2);
    SyncTrigger::new_inert().trigger();
    assert!(ctx.update().is_ok());
    assert_eq!(*runs.borrow(), 2);
}

#[test]
fn bridge_bits_are_handed_out_in_turn() {
    let mut ctx: WatchContext<DefaultOwner> = WatchContext::new();
    let metas: Rc<RefCell<Vec<SyncWatchedMeta>>> =
        Rc::new(RefCell::new((0..3).map(|_| SyncWatchedMeta::new()).collect()));
    let metas2 = metas.clone();
    let runs = Rc::new(RefCell::new(0));
    let runs2 = runs.clone();
    ctx.add_watch(move |_owner, arg| {
        for meta in metas2.borrow_mut().iter_mut() {
            meta.watched(arg);
        }
        *runs2.borrow_mut() += 1;
    });
    let last = metas.borrow()[2].create_trigger();
    last.trigger();
    assert!(ctx.update().is_ok());
    assert_eq!(*runs.borrow(), 2);
}

#[test]
fn watched_take_and_replace() {
    let mut ctx: WatchContext<DefaultOwner> = WatchContext::new();
    let arg = ctx.tracker_mut();
    let mut value = Watched::new(vec![1, 2]);
    assert_eq!(Watched::replace(&mut value, vec![3], arg), vec![1, 2]);
    assert_eq!(Watched::take(&mut value, arg), vec![3]);
    assert_eq!(Watched::into_inner(value, arg), Vec::<i32>::new());
}

#[test]
fn current_watch_slot_is_scoped() {
    let mut ctx: WatchContext<DefaultOwner> = WatchContext::new();
    let arg = ctx.tracker_mut();
    assert_eq!(arg.try_with_current(|_w, _a| {}), None);
    let seen = arg.use_as_current(wref(3, 7), |inner| {
        let mut slot = None;
        let found = inner.try_with_current(|w, nested| {
            slot = Some(w);
            assert_eq!(nested.current_watch(), None);
        });
        assert_eq!(inner.current_watch(), Some(wref(3, 7)));
        (found, slot)
    });
    assert_eq!(seen, (Some(()), Some(wref(3, 7))));
    assert_eq!(arg.current_watch(), None);
}

#[test]
fn notification_inside_a_running_watch_names_its_source() {
    let gens = vec![0, 0];
    let mut ctx: WatchContext<DefaultOwner> = WatchContext::new();
    let arg = ctx.tracker_mut();
    let mut set = WatchSet::new();
    set.add(wref(0, 0), &gens, 2);
    set.add(wref(1, 0), &gens, 2);
    arg.use_as_current(wref(1, 0), |inner| inner.notify(&mut set));
    assert_eq!(arg.pending_count(), 1);
}

#[test]
fn queue_push_variants() {
    let mut ctx: WatchContext<DefaultOwner> = WatchContext::new();
    let arg = ctx.tracker_mut();
    let mut queue = WatchedQueue::new();
    queue.push(arg, 1u8);
    queue.push_auto(arg, 2u8);
    let mut handled = Vec::new();
    queue.handle_item(arg, |item| handled.push(*item));
    assert_eq!(handled, vec![1]);
}

#[test]
fn names_convert_from_labels() {
    let name: WatchName = "label".into();
    assert_eq!(name.label, Some("label"));
    assert_eq!(WatchName::from_caller().label, None);
}

#[test]
fn cycle_diagnostic_backtracks_past_dead_ends() {
    let (a, b, c, x) = (0, 1, 2, 3);
    let mut debug = CycleDiagnostic::new();
    let frame = vec![
        TriggeredWatch { watch: wref(x, 0), reason: external().with_source(a) },
        TriggeredWatch { watch: wref(x, 0), reason: external().with_source(b) },
        TriggeredWatch { watch: wref(b, 0), reason: external().with_source(a) },
        TriggeredWatch { watch: wref(c, 0), reason: external().with_source(b) },
        TriggeredWatch { watch: wref(a, 0), reason: external().with_source(c) },
    ];
    debug.track_frame(&frame);
    let mut cycle = debug.find_cycle();
    cycle.sort();
    assert_eq!(cycle, vec![a, b, c]);
}

#[test]
fn cycle_diagnostic_finds_a_self_loop() {
    let mut debug = CycleDiagnostic::new();
    let frame = vec![TriggeredWatch { watch: wref(4, 0), reason: external().with_source(4) }];
    debug.track_frame(&frame);
    assert_eq!(debug.find_cycle(), vec![4]);
}

#[test]
fn retiring_a_value_notifies_its_subscribers() {
    let cell = Rc::new(RefCell::new(Some(WatchedCellCore::new(3u8))));
    let cell2 = cell.clone();
    let runs = Rc::new(RefCell::new(0));
    let runs2 = runs.clone();
    let mut ctx: WatchContext<DefaultOwner> = WatchContext::new();
    ctx.add_watch(move |_owner, arg| {
        if let Some(c) = cell2.borrow_mut().as_mut() {
            let _ = c.get(arg);
        }
        *runs2.borrow_mut() += 1;
    });
    let taken = cell.borrow_mut().take().unwrap();
    assert_eq!(taken.into_inner(ctx.tracker_mut()), 3);
    assert_eq!(ctx.tracker_mut().pending_count(), 1);
    assert!(ctx.update().is_ok());
    assert_eq!(*runs.borrow(), 2);
    let mut w = Watched::new(5);
    assert_eq!(Watched::into_inner(w, ctx.tracker_mut()), 5);
    w = Watched::new(6);
    assert_eq!(*w.get(ctx.tracker_mut()), 6);
}

#[test]
fn frame_id_advances_once_per_frame() {
    let cell = Rc::new(RefCell::new(WatchedCore::new(0u32)));
    let cell2 = cell.clone();
    let mut ctx: WatchContext<DefaultOwner> = WatchContext::new();
    ctx.add_watch(move |_owner, arg| {
        let v = *cell2.borrow_mut().get(arg);
        if v < 3 {
            *cell2.borrow_mut().get_mut_external(arg) = v + 1;
        }
    });
    assert!(ctx.update().is_ok());
    assert_eq!(ctx.tracker_mut().frame_id(), 3);
    assert_eq!(*cell.borrow().get_unwatched(), 3);
}
