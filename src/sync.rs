use vstd::prelude::*;

use std::sync::atomic::{AtomicU64, Ordering};
use std::sync::{Arc, OnceLock};

use crate::trigger::{fresh_in, reason_of, subscribed, triggered, TriggerReason, TriggeredWatch, WatchArg, WatchRef, WatchSet};

verus! {

/// The number of bits of the bridge word, and of bridge cells.
pub const FLAG_COUNT: usize = 64;

#[verifier::external_type_specification]
#[verifier::external_body]
#[verifier::reject_recursive_types(T)]
pub struct ExOnceLock<T>(OnceLock<T>);

/// Relies on `OnceLock::new`: an empty cell.
pub assume_specification<T>[ OnceLock::<T>::new ]() -> OnceLock<T>;

/// Relies on `OnceLock::set`: stores the value if the cell was empty, hands
/// it back otherwise.
pub assume_specification<T>[ OnceLock::<T>::set ](cell: &OnceLock<T>, value: T) -> Result<(), T>;

/// Relies on `OnceLock::get`: the stored value, if any.
pub assume_specification<T>[ OnceLock::<T>::get ](cell: &OnceLock<T>) -> Option<&T>;

/// Bit `i` of `bits` is set.
pub open spec fn bit_set(bits: u64, i: nat) -> bool {
    bits & (1u64 << (i as u64)) != 0
}

/// What draining the bridge word `bits` queues, bit by bit from bit 0 up to
/// bit `n - 1`: for each set bit, every subscriber of that bit's cell.
pub open spec fn bridge_triggered(cells: Seq<Seq<Option<WatchRef>>>, bits: u64, n: nat) -> Seq<
    TriggeredWatch,
>
    decreases n,
{
    if n == 0 {
        seq![]
    } else {
        bridge_triggered(cells, bits, (n - 1) as nat) + if bit_set(bits, (n - 1) as nat) {
            triggered(cells[n - 1], None, reason_of(None))
        } else {
            seq![]
        }
    }
}

/// The bridge cells after the running watch of `before` observed the value
/// whose bit is `bit`: that cell has the watch as a subscriber (when its
/// reference is fresh), every other watch keeps its state there, and the
/// other cells are unchanged.
pub open spec fn bridge_observed(before: WatchArg, after: WatchArg, bit: usize) -> bool {
    &&& after.bridge_cells().len() == before.bridge_cells().len()
    &&& forall|i: int|
        0 <= i < before.bridge_cells().len() && i != bit ==> #[trigger] after.bridge_cells()[i]
            == before.bridge_cells()[i]
    &&& match before.running() {
        Some(cur) => bit < before.bridge_cells().len() ==> {
            &&& (fresh_in(cur, before.gens()) ==> subscribed(
                after.bridge_cells()[bit as int],
                before.gens(),
                cur.watch,
            ))
            &&& forall|w: usize|
                w != cur.watch ==> #[trigger] subscribed(
                    after.bridge_cells()[bit as int],
                    before.gens(),
                    w,
                ) == subscribed(before.bridge_cells()[bit as int], before.gens(), w)
        },
        None => true,
    }
}

/// With every cell empty, draining any word queues nothing.
pub proof fn lemma_empty_bridge_queues_nothing(cells: Seq<Seq<Option<WatchRef>>>, bits: u64, n: nat)
    requires
        n <= cells.len(),
        forall|i: int| 0 <= i < cells.len() ==> (#[trigger] cells[i]).len() == 0,
    ensures
        bridge_triggered(cells, bits, n) == Seq::<TriggeredWatch>::empty(),
    decreases n,
{
    if n > 0 {
        lemma_empty_bridge_queues_nothing(cells, bits, (n - 1) as nat);
        assert(cells[n - 1].len() == 0);
        assert(triggered(cells[n - 1], None, reason_of(None)) == Seq::<TriggeredWatch>::empty());
        assert(bridge_triggered(cells, bits, n) =~= Seq::<TriggeredWatch>::empty());
    }
}

/// The bit of a value after the running watch of `before` observed it: a
/// value with no bit takes the next one, which then moves on, wrapping; a
/// value with a bit keeps it; with no watch running nothing changes.
pub open spec fn bit_taken(before: WatchArg, after: WatchArg, old_bit: usize, new_bit: usize) -> bool {
    &&& (before.running() is None ==> new_bit == old_bit && after.next_bit() == before.next_bit())
    &&& (before.running() is Some && old_bit == usize::MAX && before.next_bit() < FLAG_COUNT ==> {
        &&& new_bit == before.next_bit()
        &&& after.next_bit() == (before.next_bit() + 1) % (FLAG_COUNT as int)
    })
    &&& (old_bit != usize::MAX ==> new_bit == old_bit)
}

/// The bridge between other threads and the context: a word whose bits
/// other threads set, and one cell per bit that watches subscribe to.
pub struct SyncContext {
    pub(crate) flag: Arc<AtomicU64>,
    pub(crate) cells: Vec<WatchSet>,
    pub(crate) next_index: usize,
}

impl SyncContext {
    /// A bridge with every bit clear and no cell subscribed to.
    pub(crate) fn new() -> (r: Self)
        ensures
            r.cells@.len() == FLAG_COUNT,
            forall|i: int| 0 <= i < FLAG_COUNT ==> (#[trigger] r.cells@[i])@ == Seq::<Option<WatchRef>>::empty(),
            r.next_index == 0,
    {
        let mut cells: Vec<WatchSet> = Vec::new();
        let mut i: usize = 0;
        while i < FLAG_COUNT
            invariant
                i <= FLAG_COUNT,
                cells@.len() == i,
                forall|j: int| 0 <= j < i ==> (#[trigger] cells@[j])@ == Seq::<Option<WatchRef>>::empty(),
            decreases FLAG_COUNT - i,
        {
            cells.push(WatchSet::new());
            i = i + 1;
        }
        SyncContext { flag: Arc::new(AtomicU64::new(0)), cells, next_index: 0 }
    }

    /// The subscribers of each cell.
    pub closed spec fn cell_sets(&self) -> Seq<Seq<Option<WatchRef>>> {
        self.cells@.map_values(|c: WatchSet| c@)
    }

    /// Notifies, from outside any watch, the cell of each bit set in
    /// `bits`, from bit 0 up, pushing onto `pending`: each such cell once,
    /// whatever number of triggers set its bit.
    pub fn notify_set_bits(&mut self, bits: u64, pending: &mut Vec<TriggeredWatch>)
        requires
            old(self).cell_sets().len() == FLAG_COUNT,
        ensures
            final(pending)@ == old(pending)@ + bridge_triggered(
                old(self).cell_sets(),
                bits,
                FLAG_COUNT as nat,
            ),
            final(self).cell_sets().len() == FLAG_COUNT,
            forall|i: int|
                0 <= i < FLAG_COUNT ==> #[trigger] final(self).cell_sets()[i] == if bit_set(
                    bits,
                    i as nat,
                ) {
                    Seq::<Option<WatchRef>>::empty()
                } else {
                    old(self).cell_sets()[i]
                },
    {
        let ghost cells0 = old(self).cell_sets();
        let mut i: usize = 0;
        while i < FLAG_COUNT
            invariant
                i <= FLAG_COUNT,
                self.cells@.len() == FLAG_COUNT,
                cells0.len() == FLAG_COUNT,
                pending@ == old(pending)@ + bridge_triggered(cells0, bits, i as nat),
                forall|j: int|
                    0 <= j < FLAG_COUNT ==> #[trigger] self.cell_sets()[j] == if j < i && bit_set(
                        bits,
                        j as nat,
                    ) {
                        Seq::<Option<WatchRef>>::empty()
                    } else {
                        cells0[j]
                    },
            decreases FLAG_COUNT - i,
        {
            let ghost before = self.cell_sets();
            if bits & (1u64 << (i as u64)) != 0 {
                let reason = TriggerReason::from_caller();
                assert(self.cell_sets()[i as int] == self.cells@[i as int]@);
                let mut cell = WatchSet::new();
                core::mem::swap(&mut cell, &mut self.cells[i]);
                assert(cell@ == cells0[i as int]);
                cell.trigger_external(reason, pending);
                self.cells.set(i, cell);
                proof {
                    assert forall|j: int| 0 <= j < FLAG_COUNT implies #[trigger] self.cell_sets()[j]
                        == before[j] || j == i by {}
                }
            }
            proof {
                assert(pending@ == old(pending)@ + bridge_triggered(cells0, bits, (i + 1) as nat));
            }
            i = i + 1;
        }
    }

    /// Drains the bridge word, clearing it, and notifies the cells of the
    /// bits that were set, pushing onto `pending`.
    pub fn check_for_updates(&mut self, pending: &mut Vec<TriggeredWatch>)
        ensures
            final(pending)@.len() >= old(pending)@.len(),
            final(pending)@.subrange(0, old(pending)@.len() as int) == old(pending)@,
            (forall|i: int| 0 <= i < old(self).cell_sets().len() ==> (#[trigger] old(self).cell_sets()[i]).len() == 0)
                ==> final(pending)@ == old(pending)@,
            old(self).cell_sets().len() == FLAG_COUNT ==> exists|bits: u64|
                final(pending)@ == old(pending)@ + bridge_triggered(
                    old(self).cell_sets(),
                    bits,
                    FLAG_COUNT as nat,
                ),
    {
        if self.cells.len() == FLAG_COUNT {
            let bits = self.flag.swap(0, Ordering::Acquire);
            proof {
                if forall|i: int| 0 <= i < self.cell_sets().len() ==> (#[trigger] self.cell_sets()[i]).len() == 0 {
                    lemma_empty_bridge_queues_nothing(self.cell_sets(), bits, FLAG_COUNT as nat);
                }
            }
            self.notify_set_bits(bits, pending);
            assert(old(self).cell_sets().len() == FLAG_COUNT);
        }
        assert(pending@.subrange(0, old(pending)@.len() as int) =~= old(pending)@);
    }
}

impl WatchArg {
    /// The subscribers of each bridge cell.
    pub open(crate) spec fn bridge_cells(&self) -> Seq<Seq<Option<WatchRef>>> {
        self.sync.cell_sets()
    }

    /// The next bit to hand out.
    pub open(crate) spec fn next_bit(&self) -> usize {
        self.sync.next_index
    }

    /// Subscribes the running watch to the bridge cell of `meta`, giving
    /// `meta` the next bit first if it has none. Bits are handed out in
    /// turn and wrap around after the last, so two values may share one.
    pub fn observe_sync(&mut self, meta: &mut SyncWatchedMeta)
        ensures
            old(self).running() is None ==> *final(self) == *old(self) && *final(meta) == *old(meta),
            old(self).running() is Some && old(meta).bit() == usize::MAX && old(self).next_bit() < FLAG_COUNT ==> {
                &&& final(meta).bit() == old(self).next_bit()
                &&& final(self).next_bit() == (old(self).next_bit() + 1) % (FLAG_COUNT as int)
            },
            old(meta).bit() != usize::MAX ==> final(meta).bit() == old(meta).bit(),
            bit_taken(*old(self), *final(self), old(meta).bit(), final(meta).bit()),
            final(meta).id() == old(meta).id(),
            bridge_observed(*old(self), *final(self), final(meta).bit()),
            final(self).pending() == old(self).pending(),
            final(self).running() == old(self).running(),
            final(self).gens() == old(self).gens(),
            final(self).frame() == old(self).frame(),
            final(self).total() == old(self).total(),
    {
        if let Some(cur) = self.current {
            if meta.index == usize::MAX && self.sync.next_index < FLAG_COUNT {
                let index = self.sync.next_index;
                self.sync.next_index = (index + 1) % FLAG_COUNT;
                let mask: u64 = 1u64 << (index as u64);
                meta.data.mask.store(mask, Ordering::Relaxed);
                let _already = meta.data.flag_pole.set(self.sync.flag.clone());
                meta.index = index;
            }
            let i = meta.index;
            if i < self.sync.cells.len() {
                let ghost before = self.bridge_cells();
                assert(self.bridge_cells()[i as int] == self.sync.cells@[i as int]@);
                let mut cell = WatchSet::new();
                core::mem::swap(&mut cell, &mut self.sync.cells[i]);
                cell.add(cur, &self.generations, self.total_watch_count);
                self.sync.cells.set(i, cell);
                assert(self.bridge_cells()[i as int] == self.sync.cells@[i as int]@);
                assert forall|j: int| 0 <= j < before.len() && j != i implies #[trigger] self.bridge_cells()[j]
                    == before[j] by {}
            }
        }
    }
}

/// What a value and its triggers share: the bridge word, once the value
/// has been observed, and the mask of the value's bit.
struct SharedMeta {
    flag_pole: OnceLock<Arc<AtomicU64>>,
    mask: AtomicU64,
}

/// A value that other threads can mark as changed, through the triggers
/// it creates. Watches subscribe to it like to any reactive value.
pub struct SyncWatchedMeta {
    data: Arc<SharedMeta>,
    index: usize,
    id: Ghost<int>,
}

impl SyncWatchedMeta {
    /// The bridge bit of the value, or `usize::MAX` before it has one.
    pub closed spec fn bit(&self) -> usize {
        self.index
    }

    /// The identity of the value, which its triggers carry.
    pub closed spec fn id(&self) -> int {
        self.id@
    }

    /// A value with no bit yet.
    pub fn new() -> (r: Self)
        ensures
            r.bit() == usize::MAX,
    {
        let data = SharedMeta { flag_pole: OnceLock::new(), mask: AtomicU64::new(0) };
        SyncWatchedMeta { data: Arc::new(data), index: usize::MAX, id: Ghost(arbitrary()) }
    }

    /// Subscribes the running watch, as `WatchArg::observe_sync` does.
    pub fn watched(&mut self, ctx: &mut WatchArg)
        ensures
            old(ctx).running() is None ==> *final(ctx) == *old(ctx) && *final(self) == *old(self),
            old(ctx).running() is Some && old(self).bit() == usize::MAX && old(ctx).next_bit() < FLAG_COUNT ==> {
                &&& final(self).bit() == old(ctx).next_bit()
                &&& final(ctx).next_bit() == (old(ctx).next_bit() + 1) % (FLAG_COUNT as int)
            },
            old(self).bit() != usize::MAX ==> final(self).bit() == old(self).bit(),
            bit_taken(*old(ctx), *final(ctx), old(self).bit(), final(self).bit()),
            final(self).id() == old(self).id(),
            bridge_observed(*old(ctx), *final(ctx), final(self).bit()),
            final(ctx).pending() == old(ctx).pending(),
            final(ctx).running() == old(ctx).running(),
            final(ctx).gens() == old(ctx).gens(),
            final(ctx).frame() == old(ctx).frame(),
            final(ctx).total() == old(ctx).total(),
    {
        ctx.observe_sync(self);
    }

    /// A trigger for this value that may be sent to other threads.
    pub fn create_trigger(&self) -> (r: SyncTrigger)
        ensures
            r.is_live(),
            r.target() == Some(self.id()),
    {
        SyncTrigger { data: Some(self.data.clone()), target: Ghost(Some(self.id@)) }
    }
}

/// A handle that any thread can use to mark a `SyncWatchedMeta` changed.
#[derive(Clone)]
pub struct SyncTrigger {
    data: Option<Arc<SharedMeta>>,
    target: Ghost<Option<int>>,
}

impl SyncTrigger {
    /// The trigger belongs to a value.
    pub closed spec fn is_live(&self) -> bool {
        self.data is Some
    }

    /// The identity of the value the trigger belongs to.
    pub closed spec fn target(&self) -> Option<int> {
        self.target@
    }

    /// A trigger that belongs to no value; triggering it does nothing.
    pub fn new_inert() -> (r: Self)
        ensures
            !r.is_live(),
            r.target() is None,
    {
        SyncTrigger { data: None, target: Ghost(None) }
    }

    /// Sets the value's bit in the bridge word of the context that observed
    /// it; does nothing before any context has observed it. The context's
    /// next update notifies the value's subscribers.
    pub fn trigger(&self) {
        if let Some(data) = &self.data {
            if let Some(flag) = data.flag_pole.get() {
                let mask = data.mask.load(Ordering::Relaxed);
                let _previous = flag.fetch_or(mask, Ordering::Release);
            }
        }
    }
}

/// Binds the two halves of a channel to a new `SyncWatchedMeta`: the sender
/// triggers it, the receiver subscribes watches to it.
pub fn watched_channel<S, R>(pair: (S, R)) -> (r: (WatchedSender<S>, WatchedReceiver<R>))
    ensures
        r.0.is_live(),
        r.0.target() == Some(r.1.id()),
        r.1.bit() == usize::MAX,
        r.0.inner() == pair.0,
        r.1.inner() == pair.1,
{
    let (sender, receiver) = pair;
    let meta = SyncWatchedMeta::new();
    let trigger = meta.create_trigger();
    (WatchedSender { trigger, sender }, WatchedReceiver { meta, receiver })
}

/// The sending half of a watched channel.
pub struct WatchedSender<S> {
    trigger: SyncTrigger,
    sender: S,
}

impl<S> WatchedSender<S> {
    /// The underlying sender.
    pub closed spec fn inner(&self) -> S {
        self.sender
    }

    /// The trigger belongs to a value.
    pub closed spec fn is_live(&self) -> bool {
        self.trigger.is_live()
    }

    /// The identity of the value the sender's trigger belongs to.
    pub closed spec fn target(&self) -> Option<int> {
        self.trigger.target()
    }

    /// The underlying sender. Call `trigger_receiver` after sending, or use
    /// `send_with`, so that the receiving side wakes up.
    pub fn sender(&self) -> (r: &S)
        ensures
            *r == self.inner(),
    {
        &self.sender
    }

    /// Runs `f` on the underlying sender, then triggers the receiver.
    pub fn send_with<F, T>(&self, f: F) -> (r: T)
        where
            F: FnOnce(&S) -> T,
        requires
            forall|s: &S| f.requires((s,)),
        ensures
            f.ensures((&self.inner(),), r),
    {
        let r = f(&self.sender);
        self.trigger.trigger();
        r
    }

    /// Marks the receiving side as changed.
    pub fn trigger_receiver(&self) {
        self.trigger.trigger();
    }
}

/// The receiving half of a watched channel.
pub struct WatchedReceiver<R> {
    meta: SyncWatchedMeta,
    receiver: R,
}

impl<R> WatchedReceiver<R> {
    /// The underlying receiver.
    pub closed spec fn inner(&self) -> R {
        self.receiver
    }

    /// The bridge bit of the receiver's value.
    pub closed spec fn bit(&self) -> usize {
        self.meta.bit()
    }

    /// The identity of the receiver's value.
    pub closed spec fn id(&self) -> int {
        self.meta.id()
    }

    /// Subscribes the running watch, then gives the underlying receiver,
    /// to be read without blocking.
    pub fn get(&mut self, ctx: &mut WatchArg) -> (r: &R)
        ensures
            *r == old(self).inner(),
            final(self).inner() == old(self).inner(),
            bridge_observed(*old(ctx), *final(ctx), final(self).bit()),
            bit_taken(*old(ctx), *final(ctx), old(self).bit(), final(self).bit()),
            final(self).id() == old(self).id(),
            final(ctx).gens() == old(ctx).gens(),
            final(ctx).frame() == old(ctx).frame(),
            final(ctx).total() == old(ctx).total(),
            final(ctx).pending() == old(ctx).pending(),
            final(ctx).running() == old(ctx).running(),
    {
        self.meta.watched(ctx);
        &self.receiver
    }

    /// Subscribes the running watch, then gives the underlying receiver
    /// mutably.
    pub fn get_mut(&mut self, ctx: &mut WatchArg) -> (r: &mut R)
        ensures
            *r == old(self).inner(),
            final(self).inner() == *final(r),
            bridge_observed(*old(ctx), *final(ctx), final(self).bit()),
            bit_taken(*old(ctx), *final(ctx), old(self).bit(), final(self).bit()),
            final(self).id() == old(self).id(),
            final(ctx).gens() == old(ctx).gens(),
            final(ctx).frame() == old(ctx).frame(),
            final(ctx).total() == old(ctx).total(),
            final(ctx).pending() == old(ctx).pending(),
            final(ctx).running() == old(ctx).running(),
    {
        self.meta.watched(ctx);
        &mut self.receiver
    }
}

} // verus!
