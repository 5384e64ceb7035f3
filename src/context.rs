use vstd::prelude::*;

use crate::cycle_debug::{has_edge, is_cycle, records_edge, CycleDiagnostic, CycleReport};
use crate::trigger::{fresh_in, TriggeredWatch, WatchArg, WatchName, WatchRef};
use crate::watcher::{PendingWatches, Watcher, WatcherHolder};

verus! {

/// The frame limit of a new context.
pub const DEFAULT_FRAME_LIMIT: usize = 1024;

/// Frames left to run when the context has no frame limit.
pub const UNLIMITED_FRAMES: usize = usize::MAX;

/// Frames left at or below which the frames are recorded for the cycle
/// diagnostic.
pub const TRACKED_FRAMES: usize = 5;

/// The code a watch runs: it gets the owner value and the tracker.
pub(crate) trait WatchFn<O> {
    fn run(&self, owner: &mut O, arg: &mut WatchArg);
}

/// A closure registered as a watch.
struct ClosureWatch<O, F: Fn(&mut O, &mut WatchArg)> {
    func: F,
    owner: core::marker::PhantomData<O>,
}

impl<O, F: Fn(&mut O, &mut WatchArg)> ClosureWatch<O, F> {
    #[verifier::type_invariant]
    spec fn callable(self) -> bool {
        forall|o: &mut O, a: &mut WatchArg| call_requires(self.func, (o, a))
    }
}

impl<O, F: Fn(&mut O, &mut WatchArg)> WatchFn<O> for ClosureWatch<O, F> {
    fn run(&self, owner: &mut O, arg: &mut WatchArg) {
        proof {
            use_type_invariant(self);
        }
        (self.func)(owner, arg)
    }
}

/// The watch `w` has a fresh entry in `frame`.
pub open spec fn is_due(frame: Seq<TriggeredWatch>, gens: Seq<usize>, w: usize) -> bool {
    exists|k: int| 0 <= k < frame.len() && frame[k].watch.watch == w && fresh_in(frame[k].watch, gens)
}

/// Each of `ws` has a fresh entry in `frame`.
pub open spec fn due_watches(frame: Seq<TriggeredWatch>, gens: Seq<usize>, ws: Seq<usize>) -> bool {
    forall|i: int| 0 <= i < ws.len() ==> #[trigger] is_due(frame, gens, ws[i])
}

/// Every watch with a fresh entry in `frame` is among `ws`.
pub open spec fn lists_due(frame: Seq<TriggeredWatch>, gens: Seq<usize>, ws: Seq<usize>) -> bool {
    forall|k: int|
        0 <= k < frame.len() && fresh_in(frame[k].watch, gens) ==> exists|i: int|
            0 <= i < ws.len() && ws[i] == (#[trigger] frame[k]).watch.watch
}

/// The watch references of the entries of a frame, in order.
pub open spec fn frame_refs(frame: Seq<TriggeredWatch>) -> Seq<WatchRef> {
    frame.map_values(|t: TriggeredWatch| t.watch)
}

/// A registered watch.
#[verifier::reject_recursive_types(O)]
struct Registered<O> {
    code: Box<dyn WatchFn<O>>,
}

/// One reference taken up to run: the reference, the tracker as it stood
/// when the reference was reached, and whether the watch ran.
pub type Step = (WatchRef, WatchArg, bool);

/// A reference is due to run: it is fresh and names a registered watch.
pub open spec fn due(r: WatchRef, arg: WatchArg, count: nat) -> bool {
    fresh_in(r, arg.gens()) && r.watch < count
}

/// From position `from` on, each step ran exactly when its reference was
/// due as the tracker then stood.
pub open spec fn ran_when_due(steps: Seq<Step>, from: int, count: nat) -> bool {
    forall|i: int| from <= i < steps.len() ==> (#[trigger] steps[i]).2 == due(steps[i].0, steps[i].1, count)
}

/// From position `from` on, `log` holds the references of `frame`, in order.
pub open spec fn logged_frame(log: Seq<WatchRef>, from: int, frame: Seq<TriggeredWatch>) -> bool {
    &&& log.len() >= from + frame.len()
    &&& log.subrange(from, from + frame.len()) == frame_refs(frame)
}

/// Some entry of `seen_frames` records the edge `a -> b`.
pub open spec fn recorded(seen_frames: Seq<TriggeredWatch>, a: usize, b: usize) -> bool {
    exists|k: int| 0 <= k < seen_frames.len() && records_edge(seen_frames[k], a, b)
}

/// `c` is a cycle of the edges that the entries of `seen_frames` record.
pub open spec fn recorded_cycle(seen_frames: Seq<TriggeredWatch>, c: Seq<usize>) -> bool {
    &&& c.len() > 0
    &&& forall|k: int| 0 <= k < c.len() - 1 ==> recorded(seen_frames, #[trigger] c[k], c[k + 1])
    &&& recorded(seen_frames, c.last(), c[0])
}

/// The edge set of `edges` is the set that `seen_frames` records.
pub open spec fn same_edges(edges: Seq<(usize, usize)>, seen_frames: Seq<TriggeredWatch>) -> bool {
    forall|a: usize, b: usize| #[trigger] has_edge(edges, a, b) <==> recorded(seen_frames, a, b)
}

/// `seen_frames` ends with `last`, and `cycle` is a cycle of the edges it
/// records; an empty `cycle` means those edges have none.
pub open spec fn cycle_from_frames(
    seen_frames: Seq<TriggeredWatch>,
    last: Seq<TriggeredWatch>,
    cycle: Seq<usize>,
) -> bool {
    &&& seen_frames.len() >= last.len()
    &&& seen_frames.subrange(seen_frames.len() - last.len(), seen_frames.len() as int) == last
    &&& (cycle.len() > 0 ==> recorded_cycle(seen_frames, cycle))
    &&& (cycle.len() == 0 ==> forall|c: Seq<usize>| !recorded_cycle(seen_frames, c))
}

/// With the same edges, cycles of one are cycles of the other.
proof fn lemma_same_cycles(edges: Seq<(usize, usize)>, seen_frames: Seq<TriggeredWatch>, c: Seq<usize>)
    requires
        same_edges(edges, seen_frames),
    ensures
        is_cycle(edges, c) <==> recorded_cycle(seen_frames, c),
{
    if is_cycle(edges, c) {
        assert forall|k: int| 0 <= k < c.len() - 1 implies recorded(seen_frames, #[trigger] c[k], c[k + 1]) by {
            assert(has_edge(edges, c[k], c[k + 1]));
        }
    }
    if recorded_cycle(seen_frames, c) {
        assert forall|k: int| 0 <= k < c.len() - 1 implies has_edge(edges, #[trigger] c[k], c[k + 1]) by {
            assert(recorded(seen_frames, c[k], c[k + 1]));
        }
    }
}

/// The owner value of a context that needs none.
#[derive(Clone, Copy, Debug, Default)]
pub struct DefaultOwner {}

/// The frame scheduler: it owns the registered watches, the owner value
/// handed to them, and the tracker; `update` re-runs triggered watches
/// frame by frame until nothing is pending.
#[verifier::reject_recursive_types(O)]
pub struct WatchContext<O> {
    watches: Vec<Registered<O>>,
    names: Vec<WatchName>,
    arg: WatchArg,
    other_frame: Vec<TriggeredWatch>,
    frame_limit: Option<usize>,
    owner: O,
    frame_id: u8,
    processed: Ghost<Seq<WatchRef>>,
    steps: Ghost<Seq<Step>>,
    frames: Ghost<nat>,
}

/// Appends a registered watch.
fn push_watch<O: 'static>(watches: &mut Vec<Registered<O>>, watch: Registered<O>)
    ensures
        final(watches)@.len() == old(watches)@.len() + 1,
{
    watches.push(watch);
}

/// `after` is `before` with one more watch, registered with generation 0
/// (the total count raised by one, saturating) and run once at once: the
/// last step is its reference, it ran, and the tracker it ran against had
/// the new watch at generation 0.
pub open spec fn added_and_ran<O: 'static>(before: WatchContext<O>, after: WatchContext<O>) -> bool {
    let w = before.watch_count();
    let last = after.steps().last();
    &&& after.watch_count() == w + 1
    &&& after.steps() == before.steps().push(last)
    &&& after.processed() == before.processed().push(WatchRef { watch: w as usize, cycle: 0 })
    &&& last.0 == WatchRef { watch: w as usize, cycle: 0 }
    &&& last.2
    &&& last.1.gens().len() > w
    &&& last.1.gens()[w as int] == 0
    &&& last.1.total() == (if before.tracker().total() == usize::MAX {
        usize::MAX as int
    } else {
        before.tracker().total() + 1
    })
    &&& last.1.running() == before.tracker().running()
    &&& after.limit() == before.limit()
    &&& after.frame() == before.frame()
    &&& after.frames_run() == before.frames_run()
}

impl<O: 'static> WatchContext<O> {
    /// The tracker.
    pub closed spec fn tracker(&self) -> WatchArg {
        self.arg
    }

    /// The number of watches registered.
    pub closed spec fn watch_count(&self) -> nat {
        self.names@.len()
    }

    /// The frame limit.
    pub closed spec fn limit(&self) -> Option<usize> {
        self.frame_limit
    }

    /// Every reference the context has taken up to run, in order, whether
    /// it was fresh and ran or stale and was skipped.
    pub closed spec fn processed(&self) -> Seq<WatchRef> {
        self.processed@
    }

    /// The context's own data agree: one name per watch, and one step per
    /// processed reference.
    pub closed spec fn wf(&self) -> bool {
        &&& self.watches@.len() == self.names@.len()
        &&& self.steps@.len() == self.processed@.len()
        &&& forall|i: int| 0 <= i < self.steps@.len() ==> (#[trigger] self.steps@[i]).0 == self.processed@[i]
    }

    /// Every reference taken up to run, in order, with the tracker as it
    /// stood then and whether the watch ran.
    pub closed spec fn steps(&self) -> Seq<Step> {
        self.steps@
    }

    /// Everything but the owner value and the tracker agrees with `other`:
    /// the watches, the frame limit, the frame id and the logs.
    pub open spec fn same_history(&self, other: Self) -> bool {
        &&& self.wf() == other.wf()
        &&& self.watch_count() == other.watch_count()
        &&& self.names() == other.names()
        &&& self.limit() == other.limit()
        &&& self.frame() == other.frame()
        &&& self.frames_run() == other.frames_run()
        &&& self.processed() == other.processed()
        &&& self.steps() == other.steps()
    }

    /// The number of frames the context has run.
    pub closed spec fn frames_run(&self) -> nat {
        self.frames@
    }

    /// The id of the current frame; it advances, wrapping, after each frame.
    pub closed spec fn frame(&self) -> u8 {
        self.frame_id
    }

    /// The frames one update may run before it gives up.
    pub open spec fn budget(&self) -> nat {
        match self.limit() {
            Some(n) => n as nat,
            None => UNLIMITED_FRAMES as nat,
        }
    }

    /// The name each watch was registered with.
    pub closed spec fn names(&self) -> Seq<WatchName> {
        self.names@
    }

    /// The owner value.
    pub closed spec fn owner_value(&self) -> O {
        self.owner
    }

    /// A context around `owner`, with no watch and the default frame
    /// limit.
    pub fn from_owner(owner: O) -> (r: Self)
        ensures
            r.owner_value() == owner,
            r.watch_count() == 0,
            r.limit() == Some(DEFAULT_FRAME_LIMIT),
            r.tracker().running() is None,
            r.tracker().pending() == Seq::<TriggeredWatch>::empty(),
            r.tracker().gens() == Seq::<usize>::empty(),
            r.tracker().frame() == 0,
            r.tracker().total() == 0,
            r.wf(),
            r.frame() == 0,
            r.frames_run() == 0,
            r.processed() == Seq::<WatchRef>::empty(),
            r.steps() == Seq::<Step>::empty(),
            r.names() == Seq::<WatchName>::empty(),
    {
        WatchContext {
            watches: Vec::new(),
            names: Vec::new(),
            arg: WatchArg::new(),
            other_frame: Vec::new(),
            frame_limit: Some(DEFAULT_FRAME_LIMIT),
            owner,
            frame_id: 0,
            processed: Ghost(Seq::empty()),
            steps: Ghost(Seq::empty()),
            frames: Ghost(0),
        }
    }

    /// A context around `O::default()`.
    pub fn new() -> (r: Self)
        where
            O: Default,
        ensures
            call_ensures(O::default, (), r.owner_value()),
            r.watch_count() == 0,
            r.limit() == Some(DEFAULT_FRAME_LIMIT),
            r.tracker().running() is None,
            r.tracker().pending() == Seq::<TriggeredWatch>::empty(),
            r.tracker().gens() == Seq::<usize>::empty(),
            r.tracker().frame() == 0,
            r.wf(),
            r.frame() == 0,
            r.frames_run() == 0,
            r.processed() == Seq::<WatchRef>::empty(),
            r.steps() == Seq::<Step>::empty(),
    {
        Self::from_owner(O::default())
    }

    /// The owner value, for changes made from outside any watch.
    pub fn owner(&mut self) -> (r: &mut O)
        ensures
            *r == old(self).owner_value(),
            final(self).owner_value() == *final(r),
            final(self).tracker() == old(self).tracker(),
            final(self).same_history(*old(self)),
    {
        &mut self.owner
    }

    /// The tracker, for changes made from outside any watch.
    pub fn tracker_mut(&mut self) -> (r: &mut WatchArg)
        ensures
            *r == old(self).tracker(),
            final(self).tracker() == *final(r),
            final(self).owner_value() == old(self).owner_value(),
            final(self).same_history(*old(self)),
    {
        &mut self.arg
    }

    /// The owner value and the tracker together.
    pub fn owner_and_tracker(&mut self) -> (r: (&mut O, &mut WatchArg))
        ensures
            *r.0 == old(self).owner_value(),
            *r.1 == old(self).tracker(),
            final(self).owner_value() == *final(r.0),
            final(self).tracker() == *final(r.1),
            final(self).same_history(*old(self)),
    {
        (&mut self.owner, &mut self.arg)
    }

    /// Sets how many frames one `update` may run before it gives up;
    /// `None` lifts the limit (an update then stops only after `usize::MAX`
    /// frames).
    pub fn set_frame_limit(&mut self, value: Option<usize>)
        ensures
            final(self).limit() == value,
            final(self).tracker() == old(self).tracker(),
            final(self).owner_value() == old(self).owner_value(),
            final(self).wf() == old(self).wf(),
            final(self).watch_count() == old(self).watch_count(),
            final(self).names() == old(self).names(),
            final(self).frame() == old(self).frame(),
            final(self).frames_run() == old(self).frames_run(),
            final(self).processed() == old(self).processed(),
            final(self).steps() == old(self).steps(),
    {
        self.frame_limit = value;
    }

    /// The name the watch `w` was registered with.
    pub fn watch_name(&self, w: usize) -> (r: WatchName)
        ensures
            w < self.names().len() ==> r == self.names()[w as int],
            w >= self.names().len() ==> r.label is None,
    {
        if w < self.names.len() {
            self.names[w]
        } else {
            WatchName::from_caller()
        }
    }

    /// Runs the watch that `r` refers to when `r` is fresh: its generation
    /// advances, it runs as the current watch, and the watch that was
    /// current before is restored. A stale reference changes nothing.
    fn execute(&mut self, r: WatchRef)
        requires
            old(self).wf(),
        ensures
            final(self).wf(),
            final(self).steps() == old(self).steps().push(
                (r, old(self).tracker(), due(r, old(self).tracker(), old(self).watch_count())),
            ),
            final(self).processed() == old(self).processed().push(r),
            final(self).names() == old(self).names(),
            final(self).frames_run() == old(self).frames_run(),
            final(self).frame() == old(self).frame(),
            !fresh_in(r, old(self).tracker().gens()) ==> final(self).tracker() == old(self).tracker()
                && final(self).owner_value() == old(self).owner_value(),
            final(self).tracker().running() == old(self).tracker().running(),
            final(self).watch_count() == old(self).watch_count(),
            final(self).limit() == old(self).limit(),
    {
        let ghost pre = self.arg;
        self.processed = Ghost(self.processed@.push(r));
        let mut ran = false;
        if r.watch < self.watches.len() {
            if let Some(prev) = self.arg.begin_run(r) {
                let f = &self.watches[r.watch].code;
                f.run(&mut self.owner, &mut self.arg);
                self.arg.finish_run(prev);
                ran = true;
            }
        }
        self.steps = Ghost(self.steps@.push((r, pre, ran)));
        assert(self.steps@.last().0 == self.processed@.last());
    }

    /// Registers `f` under `debug_name` and runs it once at once, which
    /// subscribes it to what it reads.
    pub fn add_watch_raw<F>(&mut self, debug_name: WatchName, f: F)
        where
            F: Fn(&mut O, &mut WatchArg) + 'static,
        requires
            old(self).wf(),
            forall|o: &mut O, a: &mut WatchArg| call_requires(f, (o, a)),
        ensures
            final(self).wf(),
            added_and_ran(*old(self), *final(self)),
            final(self).watch_count() == old(self).watch_count() + 1,
            final(self).names() == old(self).names().push(debug_name),
            final(self).processed() == old(self).processed().push(
                WatchRef { watch: old(self).watch_count() as usize, cycle: 0 },
            ),
            final(self).limit() == old(self).limit(),
            final(self).tracker().running() == old(self).tracker().running(),
    {
        let watch = ClosureWatch { func: f, owner: core::marker::PhantomData };
        let boxed: Box<dyn WatchFn<O>> = Box::new(watch);
        self.add_boxed(debug_name, boxed);
    }

    /// Registers a watch and runs it once at once.
    fn add_boxed(&mut self, debug_name: WatchName, watch: Box<dyn WatchFn<O>>)
        requires
            old(self).wf(),
        ensures
            final(self).wf(),
            added_and_ran(*old(self), *final(self)),
            final(self).watch_count() == old(self).watch_count() + 1,
            final(self).names() == old(self).names().push(debug_name),
            final(self).processed() == old(self).processed().push(
                WatchRef { watch: old(self).watch_count() as usize, cycle: 0 },
            ),
            final(self).limit() == old(self).limit(),
            final(self).tracker().running() == old(self).tracker().running(),
    {
        let w = self.names.len();
        let ghost n0 = self.names@.len();
        let mut watches: Vec<Registered<O>> = Vec::new();
        core::mem::swap(&mut watches, &mut self.watches);
        assert(watches@.len() == n0);
        push_watch(&mut watches, Registered { code: watch });
        assert(watches@.len() == n0 + 1);
        self.watches = watches;
        assert(self.watches@.len() == n0 + 1);
        self.names.push(debug_name);
        assert(self.names@.len() == n0 + 1);
        self.arg.register_at(w);
        self.execute(WatchRef { watch: w, cycle: 0 });
    }

    /// Registers the watches of the content of `holder`, as its
    /// `Watcher::init` declares them, and runs each once at once, in order.
    pub fn add_watcher<H>(&mut self, holder: &H)
        where
            H: WatcherHolder<O> + Clone + 'static,
            H::Content: Watcher<O>,
        requires
            old(self).wf(),
        ensures
            final(self).wf(),
            final(self).watch_count() >= old(self).watch_count(),
            final(self).steps().len() == old(self).steps().len() + (final(self).watch_count() - old(self).watch_count()),
            forall|i: int| old(self).steps().len() <= i < final(self).steps().len() ==> (#[trigger] final(self).steps()[i]).2,
            final(self).processed() == old(self).processed() + Seq::new(
                (final(self).watch_count() - old(self).watch_count()) as nat,
                |i: int| WatchRef { watch: (old(self).watch_count() + i) as usize, cycle: 0 },
            ),
            final(self).limit() == old(self).limit(),
            final(self).tracker().running() == old(self).tracker().running(),
    {
        let mut init = PendingWatches { holder: holder.clone(), watches: Vec::new() };
        H::Content::init(&mut init);
        let mut watches = init.watches;
        let ghost count = watches@.len();
        while watches.len() > 0
            invariant
                self.watch_count() + watches@.len() == old(self).watch_count() + count,
                self.watch_count() >= old(self).watch_count(),
                self.processed() == old(self).processed() + Seq::new(
                    (self.watch_count() - old(self).watch_count()) as nat,
                    |i: int| WatchRef { watch: (old(self).watch_count() + i) as usize, cycle: 0 },
                ),
                self.limit() == old(self).limit(),
                self.tracker().running() == old(self).tracker().running(),
                self.wf(),
                self.steps().len() == old(self).steps().len() + (self.watch_count() - old(self).watch_count()),
                forall|i: int|
                    old(self).steps().len() <= i < self.steps().len() ==> (#[trigger] self.steps()[i]).2,
            decreases watches@.len(),
        {
            let watch = watches.remove(0);
            let ghost before = self.steps();
            self.add_boxed(WatchName::from_caller(), watch);
            assert(forall|i: int| 0 <= i < before.len() ==> self.steps()[i] == before[i]);
            assert(self.processed() =~= old(self).processed() + Seq::new(
                (self.watch_count() - old(self).watch_count()) as nat,
                |i: int| WatchRef { watch: (old(self).watch_count() + i) as usize, cycle: 0 },
            ));
        }
    }

    /// Registers `f` as an unnamed watch and runs it once at once.
    pub fn add_watch<F>(&mut self, f: F)
        where
            F: Fn(&mut O, &mut WatchArg) + 'static,
        requires
            old(self).wf(),
            forall|o: &mut O, a: &mut WatchArg| call_requires(f, (o, a)),
        ensures
            final(self).wf(),
            added_and_ran(*old(self), *final(self)),
            final(self).watch_count() == old(self).watch_count() + 1,
            final(self).processed() == old(self).processed().push(
                WatchRef { watch: old(self).watch_count() as usize, cycle: 0 },
            ),
            final(self).limit() == old(self).limit(),
            final(self).tracker().running() == old(self).tracker().running(),
    {
        self.add_watch_raw(WatchName::from_caller(), f);
    }

    /// Runs the entries of `frame` in order.
    fn run_frame(&mut self, frame: &Vec<TriggeredWatch>)
        requires
            old(self).wf(),
        ensures
            final(self).wf(),
            final(self).steps().len() == old(self).steps().len() + frame@.len(),
            forall|i: int| 0 <= i < old(self).steps().len() ==> final(self).steps()[i] == old(self).steps()[i],
            ran_when_due(final(self).steps(), old(self).steps().len() as int, final(self).watch_count()),
            frame@.len() > 0 ==> final(self).steps()[old(self).steps().len() as int].1 == old(self).tracker(),
            final(self).processed() == old(self).processed() + frame_refs(frame@),
            final(self).frames_run() == old(self).frames_run(),
            final(self).frame() == old(self).frame(),
            final(self).tracker().running() == old(self).tracker().running(),
            final(self).watch_count() == old(self).watch_count(),
            final(self).limit() == old(self).limit(),
    {
        let mut i: usize = 0;
        while i < frame.len()
            invariant
                i <= frame@.len(),
                self.processed() == old(self).processed() + frame_refs(frame@.take(i as int)),
                self.wf(),
                self.steps().len() == old(self).steps().len() + i,
                forall|j: int| 0 <= j < old(self).steps().len() ==> self.steps()[j] == old(self).steps()[j],
                ran_when_due(self.steps(), old(self).steps().len() as int, self.watch_count()),
                i > 0 ==> self.steps()[old(self).steps().len() as int].1 == old(self).tracker(),
                i == 0 ==> self.tracker() == old(self).tracker(),
                self.frames_run() == old(self).frames_run(),
                self.frame() == old(self).frame(),
                self.tracker().running() == old(self).tracker().running(),
                self.watch_count() == old(self).watch_count(),
                self.limit() == old(self).limit(),
            decreases frame.len() - i,
        {
            self.execute(frame[i].watch);
            proof {
                assert(frame_refs(frame@.take(i + 1)) =~= frame_refs(frame@.take(i as int)).push(
                    frame@[i as int].watch,
                ));
            }
            i = i + 1;
        }
        assert(frame@.take(frame@.len() as int) =~= frame@);
    }

    /// The report for a frame that could not run: its fresh entries, each
    /// watch once in order of first appearance, with their names, and a
    /// cycle found among the recorded edges.
    fn report(&self, frame: &Vec<TriggeredWatch>, debug: &CycleDiagnostic) -> (r: CycleReport)
        ensures
            r.names@.len() == r.watches@.len(),
            forall|i: int, j: int| 0 <= i < j < r.watches@.len() ==> r.watches@[i] != r.watches@[j],
            due_watches(frame@, self.tracker().gens(), r.watches@),
            lists_due(frame@, self.tracker().gens(), r.watches@),
            r.cycle@.len() > 0 ==> is_cycle(debug@, r.cycle@),
            r.cycle@.len() == 0 ==> forall|c: Seq<usize>| !is_cycle(debug@, c),
            r.cycle@.no_duplicates(),
    {
        let mut watches: Vec<usize> = Vec::new();
        let mut names: Vec<WatchName> = Vec::new();
        let mut k: usize = 0;
        while k < frame.len()
            invariant
                k <= frame@.len(),
                names@.len() == watches@.len(),
                forall|i: int, j: int| 0 <= i < j < watches@.len() ==> watches@[i] != watches@[j],
                due_watches(frame@, self.tracker().gens(), watches@),
                lists_due(frame@.take(k as int), self.tracker().gens(), watches@),
            decreases frame.len() - k,
        {
            let item = frame[k].watch;
            let ghost w0 = watches@;
            let ghost mut listed = false;
            if item.is_fresh(&self.arg.generations) {
                let mut seen = false;
                let mut j: usize = 0;
                while j < watches.len()
                    invariant
                        j <= watches@.len(),
                        seen ==> exists|m: int| 0 <= m < watches@.len() && watches@[m] == item.watch,
                        !seen ==> forall|m: int| 0 <= m < j ==> watches@[m] != item.watch,
                    decreases watches.len() - j,
                {
                    if watches[j] == item.watch {
                        seen = true;
                    }
                    j = j + 1;
                }
                proof {
                    listed = seen;
                }
                if !seen {
                    let ghost before = watches@;
                    watches.push(item.watch);
                    names.push(self.watch_name(item.watch));
                    proof {
                        assert(is_due(frame@, self.tracker().gens(), item.watch));
                        assert forall|i: int| 0 <= i < watches@.len() implies #[trigger] is_due(
                            frame@,
                            self.tracker().gens(),
                            watches@[i],
                        ) by {
                            if i < before.len() {
                                assert(watches@[i] == before[i]);
                            }
                        }
                    }
                }
            }
            proof {
                let gens = self.tracker().gens();
                let fr = frame@.take(k + 1);
                assert(watches@.len() >= w0.len());
                assert(forall|i: int| 0 <= i < w0.len() ==> watches@[i] == w0[i]);
                assert forall|m: int|
                    0 <= m < fr.len() && fresh_in(fr[m].watch, gens) implies exists|i: int|
                        0 <= i < watches@.len() && watches@[i] == (#[trigger] fr[m]).watch.watch by {
                    if m < k {
                        assert(frame@.take(k as int)[m] == fr[m]);
                        let i = choose|i: int|
                            0 <= i < w0.len() && w0[i] == frame@.take(k as int)[m].watch.watch;
                        assert(watches@[i] == w0[i]);
                    } else {
                        assert(fr[m] == frame@[k as int]);
                        if !listed {
                            assert(watches@[watches@.len() - 1] == item.watch);
                        }
                    }
                }
            }
            k = k + 1;
        }
        assert(frame@.take(frame@.len() as int) =~= frame@);
        let cycle = debug.find_cycle();
        CycleReport { watches, names, cycle }
    }

    /// Runs triggered watches until none is pending. Each frame runs, in
    /// order, the entries queued during the previous one; what they trigger
    /// goes to the next frame. A watch runs at most once per frame: its
    /// first run makes its other queued references stale. When the frame
    /// limit is used up while entries remain, the update stops and returns
    /// what was due to run, with a cycle of watches if one was found in the
    /// last frames. With no limit the update stops after `usize::MAX` frames.
    pub fn update(&mut self) -> (r: Result<(), CycleReport>)
        requires
            old(self).wf(),
        ensures
            final(self).wf(),
            final(self).steps().len() == final(self).processed().len(),
            forall|i: int| 0 <= i < old(self).steps().len() ==> final(self).steps()[i] == old(self).steps()[i],
            ran_when_due(final(self).steps(), old(self).steps().len() as int, final(self).watch_count()),
            r is Ok && old(self).tracker().bridge_cells().len() == crate::sync::FLAG_COUNT ==> exists|
                bits: u64,
            |
                #[trigger] logged_frame(
                    final(self).processed(),
                    old(self).processed().len() as int,
                    old(self).tracker().pending() + crate::sync::bridge_triggered(
                        old(self).tracker().bridge_cells(),
                        bits,
                        crate::sync::FLAG_COUNT as nat,
                    ),
                ),
            r is Ok && old(self).tracker().pending().len() > 0 ==> final(self).steps()[old(
                self,
            ).steps().len() as int].1.gens() == old(self).tracker().gens(),
            r is Ok ==> final(self).tracker().pending().len() == 0,
            old(self).tracker().pending().len() == 0 && (forall|i: int|
                0 <= i < old(self).tracker().bridge_cells().len() ==> (#[trigger] old(
                    self,
                ).tracker().bridge_cells()[i]).len() == 0) ==> {
                &&& r is Ok
                &&& final(self).processed() == old(self).processed()
                &&& final(self).frames_run() == old(self).frames_run()
            },
            final(self).frames_run() >= old(self).frames_run(),
            final(self).frames_run() - old(self).frames_run() <= old(self).budget(),
            final(self).frame() as int == (old(self).frame() as int + (final(self).frames_run()
                - old(self).frames_run())) % 256,
            final(self).processed().len() >= old(self).processed().len() + (final(self).frames_run()
                - old(self).frames_run()),
            r matches Err(report) ==> {
                &&& final(self).frames_run() == old(self).frames_run() + old(self).budget()
                &&& final(self).tracker().pending().len() > 0
                &&& report.names@.len() == report.watches@.len()
                &&& forall|i: int, j: int|
                    0 <= i < j < report.watches@.len() ==> report.watches@[i] != report.watches@[j]
                &&& due_watches(
                    final(self).tracker().pending(),
                    final(self).tracker().gens(),
                    report.watches@,
                )
                &&& lists_due(
                    final(self).tracker().pending(),
                    final(self).tracker().gens(),
                    report.watches@,
                )
                &&& report.cycle@.no_duplicates()
                &&& exists|seen_frames: Seq<TriggeredWatch>| #[trigger] cycle_from_frames(
                    seen_frames,
                    final(self).tracker().pending(),
                    report.cycle@,
                )
            },
            final(self).processed().len() >= old(self).processed().len(),
            final(self).processed().subrange(0, old(self).processed().len() as int) == old(
                self,
            ).processed(),
            r is Ok ==> final(self).processed().len() >= old(self).processed().len() + old(
                self,
            ).tracker().pending().len(),
            r is Ok ==> final(self).processed().subrange(
                old(self).processed().len() as int,
                (old(self).processed().len() + old(self).tracker().pending().len()) as int,
            ) == frame_refs(old(self).tracker().pending()),
            final(self).tracker().running() == old(self).tracker().running(),
            final(self).watch_count() == old(self).watch_count(),
            final(self).limit() == old(self).limit(),
    {
        let ghost p0 = self.processed@;
        let ghost pend0 = self.arg.pending();
        let ghost quiet = pend0.len() == 0 && (forall|i: int|
            0 <= i < self.arg.bridge_cells().len() ==> (#[trigger] self.arg.bridge_cells()[i]).len() == 0);
        let ghost cells0 = self.arg.sync.cell_sets();
        assert(cells0 == self.arg.bridge_cells());
        self.arg.sync.check_for_updates(&mut self.arg.next_frame);
        let ghost pend1 = self.arg.next_frame@;
        assert(quiet ==> pend1 == pend0);
        let mut current: Vec<TriggeredWatch> = Vec::new();
        core::mem::swap(&mut current, &mut self.other_frame);
        current.clear();
        self.arg.swap_pending(&mut current);
        let ghost first = current@;
        let ghost gens1 = self.arg.gens();
        assert(first == pend1);
        let ghost mut ran_first = false;
        let mut budget: usize = match self.frame_limit {
            Some(limit) => limit,
            None => UNLIMITED_FRAMES,
        };
        let ghost f0 = self.frames@;
        let ghost id0 = self.frame_id;
        let mut debug = CycleDiagnostic::new();
        let ghost mut seen_frames: Seq<TriggeredWatch> = Seq::empty();
        while current.len() > 0
            invariant
                self.tracker().pending().len() == 0,
                self.tracker().running() == old(self).tracker().running(),
                self.watch_count() == old(self).watch_count(),
                self.limit() == old(self).limit(),
                p0 == old(self).processed(),
                pend0 == old(self).tracker().pending(),
                first.len() >= pend0.len(),
                first.subrange(0, pend0.len() as int) == pend0,
                self.processed().len() >= p0.len(),
                self.processed().subrange(0, p0.len() as int) == p0,
                !ran_first ==> self.processed() == p0 && current@ == first,
                ran_first ==> self.processed().len() >= p0.len() + first.len()
                    && self.processed().subrange(p0.len() as int, (p0.len() + first.len()) as int)
                    == frame_refs(first),
                f0 == old(self).frames_run(),
                id0 == old(self).frame(),
                self.frames_run() >= f0,
                same_edges(debug@, seen_frames),
                crate::cycle_debug::sorted_edges(debug@),
                self.wf(),
                forall|i: int| 0 <= i < old(self).steps().len() ==> self.steps()[i] == old(self).steps()[i],
                ran_when_due(self.steps(), old(self).steps().len() as int, self.watch_count()),
                self.steps().len() == self.processed().len(),
                old(self).steps().len() == p0.len(),
                ran_first ==> self.steps().len() > p0.len() && self.steps()[p0.len() as int].1.gens() == gens1,
                !ran_first ==> self.tracker().gens() == gens1,
                self.frames_run() - f0 + budget == old(self).budget(),
                self.frame() as int == (id0 as int + (self.frames_run() - f0)) % 256,
                self.processed().len() >= p0.len() + (self.frames_run() - f0),
                !ran_first ==> self.frames_run() == f0,
                quiet ==> first.len() == 0,
                quiet ==> !ran_first,
                quiet == (old(self).tracker().pending().len() == 0 && (forall|i: int|
                    0 <= i < old(self).tracker().bridge_cells().len() ==> (#[trigger] old(
                        self,
                    ).tracker().bridge_cells()[i]).len() == 0)),
            decreases budget,
        {
            if budget <= TRACKED_FRAMES {
                let ghost prev = seen_frames;
                debug.track_frame(&current);
                proof {
                    seen_frames = prev + current@;
                    assert forall|a: usize, b: usize| #[trigger] has_edge(debug@, a, b) <==> recorded(seen_frames, a, b) by {
                        if recorded(seen_frames, a, b) {
                            let k = choose|k: int| 0 <= k < seen_frames.len() && records_edge(seen_frames[k], a, b);
                            if k < prev.len() {
                                assert(records_edge(prev[k], a, b));
                            } else {
                                assert(records_edge(current@[k - prev.len()], a, b));
                            }
                        }
                        if has_edge(debug@, a, b) && !recorded(prev, a, b) {
                            let k = choose|k: int| 0 <= k < current@.len() && records_edge(current@[k], a, b);
                            assert(seen_frames[prev.len() + k] == current@[k]);
                        }
                        if recorded(prev, a, b) {
                            let k = choose|k: int| 0 <= k < prev.len() && records_edge(prev[k], a, b);
                            assert(seen_frames[k] == prev[k]);
                        }
                    }
                }
            }
            if budget == 0 {
                let ghost last = current@;
                let report = self.report(&current, &debug);
                proof {
                    assert forall|c: Seq<usize>| #[trigger] recorded_cycle(seen_frames, c) == is_cycle(debug@, c) by {
                        lemma_same_cycles(debug@, seen_frames, c);
                    }
                    assert(seen_frames.subrange(seen_frames.len() - current@.len(), seen_frames.len() as int) =~= current@);
                }
                self.arg.swap_pending(&mut current);
                proof {
                    assert(self.tracker().pending() == last);
                    assert(seen_frames.len() >= last.len());
                    assert(seen_frames.subrange(seen_frames.len() - last.len(), seen_frames.len() as int) == last);
                    if report.cycle@.len() == 0 {
                        assert forall|c: Seq<usize>| !recorded_cycle(seen_frames, c) by {
                            lemma_same_cycles(debug@, seen_frames, c);
                        }
                    } else {
                        lemma_same_cycles(debug@, seen_frames, report.cycle@);
                    }
                    assert(cycle_from_frames(seen_frames, self.tracker().pending(), report.cycle@));
                }
                return Err(report);
            }
            let ghost before = self.processed@;
            self.arg.frame_id = self.frame_id;
            self.run_frame(&current);
            proof {
                if !ran_first {
                    assert(self.processed().subrange(p0.len() as int, (p0.len() + first.len()) as int)
                        =~= frame_refs(first));
                    assert(self.processed().subrange(0, p0.len() as int) =~= p0);
                } else {
                    assert(self.processed().subrange(p0.len() as int, (p0.len() + first.len()) as int)
                        =~= before.subrange(p0.len() as int, (p0.len() + first.len()) as int));
                    assert(self.processed().subrange(0, p0.len() as int) =~= before.subrange(
                        0,
                        p0.len() as int,
                    ));
                }
                ran_first = true;
            }
            current.clear();
            self.arg.swap_pending(&mut current);
            self.frame_id = self.frame_id.wrapping_add(1);
            self.arg.frame_id = self.frame_id;
            self.frames = Ghost(self.frames@ + 1);
            budget = budget - 1;
        }
        self.other_frame = current;
        proof {
            if cells0.len() == crate::sync::FLAG_COUNT {
                let bits = choose|bits: u64| pend1 == pend0 + crate::sync::bridge_triggered(
                    cells0,
                    bits,
                    crate::sync::FLAG_COUNT as nat,
                );
                if ran_first {
                    assert(logged_frame(self.processed(), p0.len() as int, first));
                } else {
                    assert(first.len() == 0);
                    assert(self.processed().subrange(p0.len() as int, p0.len() as int) =~= frame_refs(first));
                }
                assert(logged_frame(
                    self.processed(),
                    p0.len() as int,
                    pend0 + crate::sync::bridge_triggered(cells0, bits, crate::sync::FLAG_COUNT as nat),
                ));
            }
            if pend0.len() > 0 {
                assert(ran_first);
                assert(self.processed().subrange(p0.len() as int, (p0.len() + pend0.len()) as int)
                    =~= self.processed().subrange(p0.len() as int, (p0.len() + first.len()) as int).subrange(
                    0,
                    pend0.len() as int,
                ));
                assert(frame_refs(first).subrange(0, pend0.len() as int) =~= frame_refs(pend0));
            } else {
                assert(self.processed().subrange(p0.len() as int, p0.len() as int) =~= frame_refs(pend0));
            }
        }
        Ok(())
    }
}

} // verus!


