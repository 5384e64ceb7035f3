use vstd::prelude::*;

use crate::sync::SyncContext;
use vstd::arithmetic::power2::{pow2, lemma2_to64, lemma_pow2_pos, lemma_pow2_unfold};

verus! {

/// Number of slots in one node of a [`WatchSet`].
pub const NODE_SIZE: usize = 4;

/// One registration of a watch: its index in the context's watch table and
/// the generation the watch had when the reference was taken.
#[derive(Clone, Copy, Debug, PartialEq, Eq, Structural)]
pub struct WatchRef {
    pub watch: usize,
    pub cycle: usize,
}

/// A debug name for a watch, used by the cycle diagnostic.
#[derive(Clone, Copy, Debug)]
pub struct WatchName {
    pub label: Option<&'static str>,
}

/// Why a watch was put in a pending frame: the watch whose notification
/// caused it, or `None` for a notification from outside any watch.
#[derive(Clone, Copy, Debug, PartialEq, Eq, Structural)]
pub struct TriggerReason {
    pub source_watch: Option<usize>,
}

/// A watch reference waiting in a pending frame, with its reason.
#[derive(Clone, Copy, Debug, PartialEq, Eq, Structural)]
pub struct TriggeredWatch {
    pub watch: WatchRef,
    pub reason: TriggerReason,
}

/// A reference is fresh when its generation is the watch's current one.
pub open spec fn fresh_in(r: WatchRef, gens: Seq<usize>) -> bool {
    r.watch < gens.len() && gens[r.watch as int] == r.cycle
}

/// The slot sequence holds the reference `r`.
pub open spec fn holds(s: Seq<Option<WatchRef>>, r: WatchRef) -> bool {
    exists|i: int| 0 <= i < s.len() && s[i] == Some(r)
}

/// Watch `w` is a live subscriber of the slot sequence: it holds a
/// reference to `w` with `w`'s current generation.
pub open spec fn subscribed(s: Seq<Option<WatchRef>>, gens: Seq<usize>, w: usize) -> bool {
    w < gens.len() && holds(s, WatchRef { watch: w, cycle: gens[w as int] })
}

/// What a notification pushes, slot by slot, leaving out the watch `skip`.
pub open spec fn triggered(
    s: Seq<Option<WatchRef>>,
    skip: Option<usize>,
    reason: TriggerReason,
) -> Seq<TriggeredWatch>
    decreases s.len(),
{
    if s.len() == 0 {
        seq![]
    } else {
        let rest = triggered(s.drop_last(), skip, reason);
        match s.last() {
            Some(r) => if skip == Some(r.watch) {
                rest
            } else {
                rest.push(TriggeredWatch { watch: r, reason })
            },
            None => rest,
        }
    }
}

/// Every reference in the slots names a registered watch and carries a
/// generation that watch has already reached.
pub open spec fn bounded(s: Seq<Option<WatchRef>>, gens: Seq<usize>) -> bool {
    forall|i: int|
        0 <= i < s.len() && (#[trigger] s[i]) is Some ==> s[i]->Some_0.watch < gens.len()
            && s[i]->Some_0.cycle <= gens[s[i]->Some_0.watch as int]
}

/// Advancing a watch's generation, without wrapping, keeps slots bounded.
pub proof fn lemma_bump_keeps_bounded(s: Seq<Option<WatchRef>>, gens: Seq<usize>, w: usize)
    requires
        bounded(s, gens),
        w < gens.len(),
        gens[w as int] < usize::MAX,
    ensures
        bounded(s, gens.update(w as int, (gens[w as int] + 1) as usize)),
{
}

/// The slots are packed: whole nodes, at least one, with every slot filled
/// but in the newest node, where the filled slots come first.
pub open spec fn packed(s: Seq<Option<WatchRef>>) -> bool {
    &&& s.len() % (NODE_SIZE as nat) == 0
    &&& s.len() >= NODE_SIZE
    &&& forall|i: int| 0 <= i < s.len() - NODE_SIZE ==> (#[trigger] s[i]) is Some
    &&& forall|i: int, j: int| 0 <= i < j < s.len() && (#[trigger] s[j]) is Some ==> (#[trigger] s[i]) is Some
}

/// Adding to the slots `s` of a context with `total` watches compacts
/// them: the newest node's first slot is empty and there are more nodes
/// than the limit.
pub open spec fn compaction_due(s: Seq<Option<WatchRef>>, total: nat) -> bool {
    &&& s.len() >= NODE_SIZE
    &&& s[s.len() - NODE_SIZE] is None
    &&& s.len() / (NODE_SIZE as nat) > node_limit_spec(total)
}

/// The watch whose references a notification leaves out: the running one.
pub open spec fn skip_of(running: Option<WatchRef>) -> Option<usize> {
    match running {
        Some(cur) => Some(cur.watch),
        None => None,
    }
}

/// The reason a notification carries: the running watch, if any.
pub open spec fn reason_of(running: Option<WatchRef>) -> TriggerReason {
    TriggerReason { source_watch: skip_of(running) }
}

/// `floor(log2(n))` for `n >= 1`.
pub open spec fn log2_floor(n: nat) -> nat
    decreases n,
{
    if n <= 1 {
        0
    } else {
        1 + log2_floor(n / 2)
    }
}

/// The number of nodes past which a watch set is compacted, for a context
/// with `total` registered watches: `min(total + 1, 64 * (log2(total) + 1))`.
pub open spec fn node_limit_spec(total: nat) -> nat {
    let small = total + 1;
    let big = 64 * (log2_floor(if total == 0 { 1 } else { total }) + 1);
    if small <= big {
        small
    } else {
        big
    }
}

impl WatchName {
    /// A name for a watch that was given none.
    pub fn from_caller() -> (r: Self)
        ensures
            r.label is None,
    {
        WatchName { label: None }
    }

    /// A name given by the caller.
    pub fn named(label: &'static str) -> (r: Self)
        ensures
            r.label == Some(label),
    {
        WatchName { label: Some(label) }
    }
}

impl From<&'static str> for WatchName {
    fn from(label: &'static str) -> (r: Self) {
        WatchName { label: Some(label) }
    }
}

impl vstd::std_specs::convert::FromSpecImpl<&'static str> for WatchName {
    open spec fn obeys_from_spec() -> bool {
        true
    }

    open spec fn from_spec(label: &'static str) -> WatchName {
        WatchName { label: Some(label) }
    }
}

impl TriggerReason {
    /// A reason for a notification made outside any watch.
    pub fn from_caller() -> (r: Self)
        ensures
            r.source_watch is None,
    {
        TriggerReason { source_watch: None }
    }

    /// The same reason, attributed to the watch `source_watch`.
    pub fn with_source(self, source_watch: usize) -> (r: Self)
        ensures
            r.source_watch == Some(source_watch),
    {
        TriggerReason { source_watch: Some(source_watch) }
    }
}

impl WatchRef {
    /// Whether this reference points at the watch `other`.
    pub fn watch_eq(&self, other: usize) -> (r: bool)
        ensures
            r == (self.watch == other),
    {
        self.watch == other
    }

    /// Whether the reference still carries its watch's current generation.
    pub fn is_fresh(&self, gens: &Vec<usize>) -> (r: bool)
        ensures
            r == fresh_in(*self, gens@),
    {
        self.watch < gens.len() && gens[self.watch] == self.cycle
    }
}

/// `floor(log2(n))`, for `n >= 1`.
pub fn log2_floor_exec(n: usize) -> (r: u32)
    requires
        n >= 1,
    ensures
        r as nat == log2_floor(n as nat),
        r < 64,
{
    proof {
        lemma2_to64();
        lemma_log2_bound(n as nat, 64);
    }
    let mut m: usize = n;
    let mut k: u32 = 0;
    while m > 1
        invariant
            1 <= m <= n,
            k as nat + log2_floor(m as nat) == log2_floor(n as nat),
            log2_floor(n as nat) < 64,
        decreases m,
    {
        m = m / 2;
        k = k + 1;
    }
    k
}

proof fn lemma_log2_bound(n: nat, k: nat)
    requires
        1 <= n,
        n < pow2(k),
    ensures
        log2_floor(n) < k,
    decreases n,
{
    lemma_pow2_pos(k);
    lemma2_to64();
    if n > 1 {
        if k > 0 {
            lemma_pow2_unfold(k);
            lemma_log2_bound(n / 2, (k - 1) as nat);
        }
    }
}

/// The compaction threshold of a watch set, in nodes.
pub fn node_limit(total_watch_count: usize) -> (r: usize)
    ensures
        r as nat == node_limit_spec(total_watch_count as nat),
{
    let small: usize = total_watch_count.saturating_add(1);
    let base: usize = if total_watch_count == 0 { 1 } else { total_watch_count };
    let lg = log2_floor_exec(base);
    let big: usize = 64 * (lg as usize + 1);
    if small <= big {
        small
    } else {
        big
    }
}

/// The slots of a watch set: nodes of `NODE_SIZE` slots laid out one after
/// another, the newest node last.
struct SlotList {
    slots: Vec<Option<WatchRef>>,
}

impl View for SlotList {
    type V = Seq<Option<WatchRef>>;

    closed spec fn view(&self) -> Seq<Option<WatchRef>> {
        self.slots@
    }
}

proof fn lemma_holds_push(s: Seq<Option<WatchRef>>, x: Option<WatchRef>, r: WatchRef)
    ensures
        holds(s.push(x), r) == (holds(s, r) || x == Some(r)),
{
    if holds(s, r) {
        let i = choose|i: int| 0 <= i < s.len() && s[i] == Some(r);
        assert(s.push(x)[i] == Some(r));
    }
    if x == Some(r) {
        assert(s.push(x)[s.len() as int] == Some(r));
    }
    if holds(s.push(x), r) {
        let i = choose|i: int| 0 <= i < s.push(x).len() && s.push(x)[i] == Some(r);
        if i < s.len() {
            assert(s[i] == Some(r));
        }
    }
}

/// Slots that changed now hold `watch` and held nothing or a reference to
/// the same watch before; slots added at the end hold nothing or `watch`.
proof fn lemma_slots_replaced(
    old_s: Seq<Option<WatchRef>>,
    new_s: Seq<Option<WatchRef>>,
    watch: WatchRef,
    gens: Seq<usize>,
)
    requires
        old_s.len() <= new_s.len(),
        forall|i: int|
            0 <= i < old_s.len() && new_s[i] != old_s[i] ==> new_s[i] == Some(watch) && (
            old_s[i] is None || old_s[i]->Some_0.watch == watch.watch),
        forall|i: int| old_s.len() <= i < new_s.len() ==> new_s[i] is None || new_s[i] == Some(watch),
    ensures
        forall|w: usize|
            w != watch.watch ==> subscribed(new_s, gens, w) == subscribed(old_s, gens, w),
        forall|x: WatchRef| holds(new_s, x) ==> x == watch || holds(old_s, x),
{
    assert forall|x: WatchRef| holds(new_s, x) implies x == watch || holds(old_s, x) by {
        let i = choose|i: int| 0 <= i < new_s.len() && new_s[i] == Some(x);
        if i < old_s.len() && new_s[i] == old_s[i] {
            assert(old_s[i] == Some(x));
        }
    }
    assert forall|w: usize| w != watch.watch implies subscribed(new_s, gens, w) == subscribed(
        old_s,
        gens,
        w,
    ) by {
        if w < gens.len() {
            let r = WatchRef { watch: w, cycle: gens[w as int] };
            if holds(old_s, r) {
                let i = choose|i: int| 0 <= i < old_s.len() && old_s[i] == Some(r);
                assert(new_s[i] == Some(r));
            }
        }
    }
}

impl SlotList {
    /// An empty list.
    fn new() -> (r: Self)
        ensures
            r@ == Seq::<Option<WatchRef>>::empty(),
    {
        SlotList { slots: Vec::new() }
    }

    /// The number of nodes in the set.
    fn nodes(&self) -> (r: usize)
        ensures
            r == self@.len() / (NODE_SIZE as nat),
    {
        self.slots.len() / NODE_SIZE
    }

    /// Merges `watch` into a slot of the newest node that refers to the same
    /// watch.
    fn merge_into_head(&mut self, watch: WatchRef) -> (placed: bool)
        requires
            old(self)@.len() >= NODE_SIZE,
        ensures
            final(self)@.len() == old(self)@.len(),
            placed ==> holds(final(self)@, watch),
            !placed ==> final(self)@ == old(self)@,
            forall|i: int|
                0 <= i < old(self)@.len() && final(self)@[i] != old(self)@[i] ==> final(self)@[i]
                    == Some(watch) && old(self)@[i] is Some && old(self)@[i]->Some_0.watch
                    == watch.watch,
    {
        let len = self.slots.len();
        let mut i: usize = len - NODE_SIZE;
        while i < len
            invariant
                len == self.slots@.len(),
                self.slots@ == old(self)@,
            decreases len - i,
        {
            if let Some(held) = self.slots[i] {
                if held.watch == watch.watch {
                    self.slots.set(i, Some(watch));
                    assert(self.slots@[i as int] == Some(watch));
                    return true;
                }
            }
            i = i + 1;
        }
        false
    }

    /// Puts `watch` in the last empty slot of the newest node.
    fn fill_head(&mut self, watch: WatchRef) -> (placed: bool)
        requires
            old(self)@.len() >= NODE_SIZE,
        ensures
            final(self)@.len() == old(self)@.len(),
            placed ==> holds(final(self)@, watch),
            !placed ==> final(self)@ == old(self)@,
            !placed ==> forall|i: int|
                old(self)@.len() - NODE_SIZE <= i < old(self)@.len() ==> (#[trigger] old(self)@[i]) is Some,
            forall|i: int|
                0 <= i < old(self)@.len() && final(self)@[i] != old(self)@[i] ==> final(self)@[i]
                    == Some(watch) && old(self)@[i] is None,
    {
        let len = self.slots.len();
        let head = len - NODE_SIZE;
        let mut i: usize = len;
        while i > head
            invariant
                head <= i <= len,
                len == self.slots@.len(),
                self.slots@ == old(self)@,
                forall|j: int| i <= j < len ==> (#[trigger] self.slots@[j]) is Some,
            decreases i,
        {
            i = i - 1;
            if self.slots[i].is_none() {
                self.slots.set(i, Some(watch));
                assert(self.slots@[i as int] == Some(watch));
                return true;
            }
        }
        false
    }

    /// Whether `refs` holds a reference to the watch `w`.
    fn has_watch(refs: &Vec<WatchRef>, w: usize) -> (r: bool)
        ensures
            r == exists|k: int| 0 <= k < refs@.len() && refs@[k].watch == w,
    {
        let mut k: usize = 0;
        while k < refs.len()
            invariant
                k <= refs@.len(),
                forall|j: int| 0 <= j < k ==> refs@[j].watch != w,
            decreases refs.len() - k,
        {
            if refs[k].watch == w {
                return true;
            }
            k = k + 1;
        }
        false
    }

    /// Records `watch` as a subscriber. A reference to the same watch in the
    /// newest node is replaced by `watch`; otherwise `watch` goes in the last
    /// empty slot of that node, or in a new node. When the newest node's first
    /// slot is empty and the set has grown past the limit for
    /// `total_watch_count` watches, the set is compacted.
    fn add(&mut self, watch: WatchRef, gens: &Vec<usize>, total_watch_count: usize)
        ensures
            fresh_in(watch, gens@) ==> subscribed(final(self)@, gens@, watch.watch),
            forall|w: usize|
                w != watch.watch ==> subscribed(final(self)@, gens@, w) == subscribed(
                    old(self)@,
                    gens@,
                    w,
                ),
            forall|x: WatchRef| #[trigger] holds(final(self)@, x) ==> x == watch || holds(old(self)@, x),
            compaction_due(old(self)@, total_watch_count as nat) ==> packed(final(self)@),
            !compaction_due(old(self)@, total_watch_count as nat) ==> {
                &&& holds(final(self)@, watch)
                &&& final(self)@.len() <= old(self)@.len() + NODE_SIZE
            },
    {
        let limit = node_limit(total_watch_count);
        while self.slots.len() < NODE_SIZE
            invariant
                self.slots@.len() >= old(self)@.len(),
                self.slots@.subrange(0, old(self)@.len() as int) == old(self)@,
                forall|i: int| old(self)@.len() <= i < self.slots@.len() ==> self.slots@[i] is None,
                old(self)@.len() >= NODE_SIZE ==> self.slots@.len() == old(self)@.len(),
                old(self)@.len() < NODE_SIZE ==> self.slots@.len() <= NODE_SIZE,
            decreases NODE_SIZE - self.slots@.len(),
        {
            self.slots.push(None);
        }
        let ghost start = self.slots@;
        proof {
            lemma_slots_replaced(old(self)@, start, watch, gens@);
        }
        let len = self.slots.len();
        let compact = self.slots[len - NODE_SIZE].is_none() && len / NODE_SIZE > limit;
        proof {
            if old(self)@.len() >= NODE_SIZE {
                assert(start =~= start.subrange(0, old(self)@.len() as int));
            } else {
                assert(start.len() == NODE_SIZE);
                assert(start[NODE_SIZE - 1] is None);
                assert(!compact);
            }
        }
        let placed = self.merge_into_head(watch);
        let placed = placed || self.fill_head(watch);
        if !placed {
            proof {
                if old(self)@.len() < NODE_SIZE {
                    assert(start[NODE_SIZE - 1] is None);
                }
            }
            self.slots.push(None);
            self.slots.push(None);
            self.slots.push(None);
            self.slots.push(Some(watch));
            assert(self.slots@[self.slots@.len() - 1] == Some(watch));
        }
        proof {
            lemma_slots_replaced(start, self.slots@, watch, gens@);
        }
        if compact {
            let ghost before = self@;
            self.squash(gens);
            assert forall|x: WatchRef| holds(self@, x) implies x == watch || holds(old(self)@, x) by {
                assert(holds(before, x));
            }
        }
    }

    /// Compacts the set: keeps one fresh reference per watch, drops the
    /// stale ones, and packs the rest into as few nodes as hold them.
    fn squash(&mut self, gens: &Vec<usize>)
        ensures
            packed(final(self)@),
            forall|w: usize| subscribed(final(self)@, gens@, w) == subscribed(old(self)@, gens@, w),
            forall|x: WatchRef| #[trigger] holds(final(self)@, x) ==> holds(old(self)@, x) && fresh_in(x, gens@),
            forall|i: int, j: int|
                0 <= i < j < final(self)@.len() && final(self)@[i] is Some && final(self)@[j] is Some
                    ==> final(self)@[i]->Some_0.watch != final(self)@[j]->Some_0.watch,
    {
        let ghost s = self.slots@;
        let mut kept: Vec<WatchRef> = Vec::new();
        let mut i: usize = 0;
        while i < self.slots.len()
            invariant
                self.slots@ == s,
                i <= s.len(),
                forall|k: int| 0 <= k < kept@.len() ==> holds(s, #[trigger] kept@[k]) && fresh_in(kept@[k], gens@),
                forall|k1: int, k2: int| 0 <= k1 < k2 < kept@.len() ==> kept@[k1].watch != kept@[k2].watch,
                forall|w: usize| subscribed(s.take(i as int), gens@, w) == exists|k: int| 0 <= k < kept@.len() && kept@[k].watch == w,
            decreases s.len() - i,
        {
            let slot = self.slots[i];
            let ghost before = kept@;
            proof {
                assert(s.take(i + 1) =~= s.take(i as int).push(s[i as int]));
                assert forall|r: WatchRef| holds(s.take(i + 1), r) == (holds(s.take(i as int), r) || s[i as int] == Some(r)) by {
                    lemma_holds_push(s.take(i as int), s[i as int], r);
                }
            }
            if let Some(r) = slot {
                if r.is_fresh(gens) && !Self::has_watch(&kept, r.watch) {
                    kept.push(r);
                    proof {
                        assert(s[i as int] == Some(r));
                        assert(holds(s, r));
                        assert(kept@[kept@.len() - 1] == r);
                    }
                }
            }
            proof {
                let ghost nxt = s.take(i + 1);
                assert forall|w: usize| #[trigger] subscribed(nxt, gens@, w) == exists|k: int| 0 <= k < kept@.len() && kept@[k].watch == w by {
                    if w < gens@.len() {
                        let rw = WatchRef { watch: w, cycle: gens@[w as int] };
                        assert(holds(nxt, rw) == (holds(s.take(i as int), rw) || s[i as int] == Some(rw)));
                        assert(subscribed(s.take(i as int), gens@, w) == exists|k: int| 0 <= k < before.len() && before[k].watch == w);
                        if exists|k: int| 0 <= k < before.len() && before[k].watch == w {
                            let k = choose|k: int| 0 <= k < before.len() && before[k].watch == w;
                            assert(kept@[k].watch == w);
                        }
                        if exists|k: int| 0 <= k < kept@.len() && kept@[k].watch == w {
                            let k = choose|k: int| 0 <= k < kept@.len() && kept@[k].watch == w;
                            assert(fresh_in(kept@[k], gens@));
                            if k < before.len() {
                                assert(before[k].watch == w);
                            } else {
                                assert(kept@[k] == rw);
                            }
                        }
                        if s[i as int] == Some(rw) && !subscribed(s.take(i as int), gens@, w) {
                            assert(fresh_in(rw, gens@));
                            assert(kept@.len() > before.len());
                            assert(kept@[before.len() as int] == rw);
                        }
                    } else {
                        if exists|k: int| 0 <= k < kept@.len() && kept@[k].watch == w {
                            let k = choose|k: int| 0 <= k < kept@.len() && kept@[k].watch == w;
                            assert(fresh_in(kept@[k], gens@));
                        }
                    }
                }
            }
            i = i + 1;
        }
        assert(s.take(s.len() as int) =~= s);
        let mut packed: Vec<Option<WatchRef>> = Vec::new();
        let mut k: usize = 0;
        while k < kept.len()
            invariant
                k <= kept@.len(),
                packed@.len() == k,
                forall|j: int| 0 <= j < k ==> packed@[j] == Some(kept@[j]),
            decreases kept.len() - k,
        {
            packed.push(Some(kept[k]));
            k = k + 1;
        }
        let rem = kept.len() % NODE_SIZE;
        let pad: usize = if kept.len() == 0 {
            NODE_SIZE
        } else if rem == 0 {
            0
        } else {
            NODE_SIZE - rem
        };
        let mut p: usize = 0;
        while p < pad
            invariant
                p <= pad,
                packed@.len() == kept@.len() + p,
                forall|j: int| 0 <= j < kept@.len() ==> packed@[j] == Some(kept@[j]),
                forall|j: int| kept@.len() <= j < packed@.len() ==> packed@[j] is None,
            decreases pad - p,
        {
            packed.push(None);
            p = p + 1;
        }
        self.slots = packed;
        proof {
            let p = self.slots@;
            assert forall|x: WatchRef| holds(p, x) implies (exists|k: int| 0 <= k < kept@.len() && kept@[k] == x) by {
                let j = choose|j: int| 0 <= j < p.len() && p[j] == Some(x);
                assert(j < kept@.len());
            }
            assert forall|x: WatchRef| (exists|k: int| 0 <= k < kept@.len() && kept@[k] == x) implies holds(p, x) by {
                let k = choose|k: int| 0 <= k < kept@.len() && kept@[k] == x;
                assert(p[k] == Some(x));
            }
            assert forall|x: WatchRef| holds(p, x) implies holds(s, x) && fresh_in(x, gens@) by {
                let k = choose|k: int| 0 <= k < kept@.len() && kept@[k] == x;
                assert(holds(s, kept@[k]));
            }
            assert forall|w: usize| subscribed(p, gens@, w) == subscribed(s, gens@, w) by {
                if subscribed(s, gens@, w) {
                    let k = choose|k: int| 0 <= k < kept@.len() && kept@[k].watch == w;
                    assert(fresh_in(kept@[k], gens@));
                    assert(kept@[k] == WatchRef { watch: w, cycle: gens@[w as int] });
                }
                if subscribed(p, gens@, w) {
                    let r = WatchRef { watch: w, cycle: gens@[w as int] };
                    let k = choose|k: int| 0 <= k < kept@.len() && kept@[k] == r;
                    assert(kept@[k].watch == w);
                }
            }
        }
    }

    /// Empties the set and pushes each of its references onto `pending`,
    /// oldest slot first, leaving out those of the watch `skip`.
    fn trigger_filtered(
        &mut self,
        skip: Option<usize>,
        reason: TriggerReason,
        pending: &mut Vec<TriggeredWatch>,
    )
        ensures
            final(self)@ == Seq::<Option<WatchRef>>::empty(),
            final(pending)@ == old(pending)@ + triggered(old(self)@, skip, reason),
    {
        let ghost s = self.slots@;
        let mut i: usize = 0;
        while i < self.slots.len()
            invariant
                self.slots@ == s,
                i <= s.len(),
                pending@ == old(pending)@ + triggered(s.take(i as int), skip, reason),
            decreases s.len() - i,
        {
            proof {
                assert(s.take(i + 1).drop_last() =~= s.take(i as int));
                assert(s.take(i + 1).last() == s[i as int]);
            }
            if let Some(r) = self.slots[i] {
                let keep = match skip {
                    Some(w) => w != r.watch,
                    None => true,
                };
                if keep {
                    pending.push(TriggeredWatch { watch: r, reason });
                    assert(pending@ =~= old(pending)@ + triggered(s.take(i + 1), skip, reason));
                }
            }
            i = i + 1;
        }
        assert(s.take(s.len() as int) =~= s);
        self.slots = Vec::new();
    }
}

} // verus!

verus! {

/// The subscribers of one reactive value. References are added to the
/// newest node of `NODE_SIZE` slots and removed all at once when the value
/// is notified; stale ones are dropped when the set is compacted. The slots
/// are allocated on first use.
pub struct WatchSet {
    list: Option<Box<SlotList>>,
}

impl View for WatchSet {
    type V = Seq<Option<WatchRef>>;

    closed spec fn view(&self) -> Seq<Option<WatchRef>> {
        match self.list {
            Some(b) => (*b)@,
            None => Seq::<Option<WatchRef>>::empty(),
        }
    }
}

impl WatchSet {
    /// An empty set, with nothing allocated.
    pub fn new() -> (r: Self)
        ensures
            r@ == Seq::<Option<WatchRef>>::empty(),
    {
        WatchSet { list: None }
    }

    /// Takes the slots out, leaving the set unallocated.
    fn take_list(&mut self) -> (r: SlotList)
        ensures
            r@ == old(self)@,
            final(self)@ == Seq::<Option<WatchRef>>::empty(),
    {
        match self.list.take() {
            Some(b) => *b,
            None => SlotList::new(),
        }
    }

    /// The number of nodes in the set.
    pub fn nodes(&self) -> (r: usize)
        ensures
            r == self@.len() / (NODE_SIZE as nat),
    {
        match &self.list {
            Some(b) => b.nodes(),
            None => 0,
        }
    }

    /// Records `watch` as a subscriber. A reference to the same watch in the
    /// newest node is replaced by `watch`; otherwise `watch` goes in the last
    /// empty slot of that node, or in a new node. When the newest node's first
    /// slot is empty and the set has grown past the limit for
    /// `total_watch_count` watches, the set is compacted.
    pub fn add(&mut self, watch: WatchRef, gens: &Vec<usize>, total_watch_count: usize)
        ensures
            fresh_in(watch, gens@) ==> subscribed(final(self)@, gens@, watch.watch),
            forall|w: usize|
                w != watch.watch ==> subscribed(final(self)@, gens@, w) == subscribed(
                    old(self)@,
                    gens@,
                    w,
                ),
            forall|x: WatchRef| #[trigger] holds(final(self)@, x) ==> x == watch || holds(old(self)@, x),
            compaction_due(old(self)@, total_watch_count as nat) ==> packed(final(self)@),
            bounded(old(self)@, gens@) && watch.watch < gens@.len() && watch.cycle <= gens@[watch.watch as int]
                ==> bounded(final(self)@, gens@),
            !compaction_due(old(self)@, total_watch_count as nat) ==> {
                &&& holds(final(self)@, watch)
                &&& final(self)@.len() <= old(self)@.len() + NODE_SIZE
            },
    {
        let ghost before = self@;
        match &mut self.list {
            Some(list) => list.add(watch, gens, total_watch_count),
            None => {
                let mut list = SlotList::new();
                list.add(watch, gens, total_watch_count);
                self.list = Some(Box::new(list));
            },
        }
        proof {
            if bounded(before, gens@) && watch.watch < gens@.len() && watch.cycle <= gens@[watch.watch as int] {
                assert forall|i: int| 0 <= i < self@.len() && (#[trigger] self@[i]) is Some implies self@[i]->Some_0.watch
                    < gens@.len() && self@[i]->Some_0.cycle <= gens@[self@[i]->Some_0.watch as int] by {
                    let x = self@[i]->Some_0;
                    assert(holds(self@, x));
                    if x != watch {
                        let k = choose|k: int| 0 <= k < before.len() && before[k] == Some(x);
                        assert(before[k] is Some);
                    }
                }
            }
        }
    }

    /// Compacts the set: keeps one fresh reference per watch, drops the
    /// stale ones, and packs the rest into as few nodes as hold them.
    pub fn squash(&mut self, gens: &Vec<usize>)
        ensures
            old(self)@.len() > 0 ==> packed(final(self)@),
            old(self)@.len() == 0 ==> final(self)@ == old(self)@,
            forall|w: usize| subscribed(final(self)@, gens@, w) == subscribed(old(self)@, gens@, w),
            forall|x: WatchRef| #[trigger] holds(final(self)@, x) ==> holds(old(self)@, x) && fresh_in(x, gens@),
            forall|i: int, j: int|
                0 <= i < j < final(self)@.len() && final(self)@[i] is Some && final(self)@[j] is Some
                    ==> final(self)@[i]->Some_0.watch != final(self)@[j]->Some_0.watch,
    {
        if let Some(list) = &mut self.list {
            if list.slots.len() > 0 {
                list.squash(gens);
            }
        }
    }

    /// Empties the set and pushes each of its references onto `pending`,
    /// oldest slot first, leaving out those of the watch `skip`.
    pub fn trigger_filtered(
        &mut self,
        skip: Option<usize>,
        reason: TriggerReason,
        pending: &mut Vec<TriggeredWatch>,
    )
        ensures
            final(self)@ == Seq::<Option<WatchRef>>::empty(),
            final(pending)@ == old(pending)@ + triggered(old(self)@, skip, reason),
    {
        let mut list = self.take_list();
        list.trigger_filtered(skip, reason, pending);
    }

    /// Notification from inside the watch `current`: every subscriber but
    /// `current` is pushed onto `pending`.
    pub fn trigger_with_current(
        &mut self,
        current: usize,
        reason: TriggerReason,
        pending: &mut Vec<TriggeredWatch>,
    )
        ensures
            final(self)@ == Seq::<Option<WatchRef>>::empty(),
            final(pending)@ == old(pending)@ + triggered(old(self)@, Some(current), reason),
    {
        self.trigger_filtered(Some(current), reason, pending);
    }

    /// Notification from outside any watch: every subscriber is pushed onto
    /// `pending`.
    pub fn trigger_external(&mut self, reason: TriggerReason, pending: &mut Vec<TriggeredWatch>)
        ensures
            final(self)@ == Seq::<Option<WatchRef>>::empty(),
            final(pending)@ == old(pending)@ + triggered(old(self)@, None, reason),
    {
        self.trigger_filtered(None, reason, pending);
    }
}

} // verus!

verus! {

/// The dependency tracker handed to running watches, and used for changes
/// made from outside any watch. It holds the running watch (if any), each
/// watch's generation, and the pending frame that notifications fill.
pub struct WatchArg {
    pub(crate) current: Option<WatchRef>,
    pub(crate) frame_id: u8,
    pub(crate) total_watch_count: usize,
    pub(crate) next_frame: Vec<TriggeredWatch>,
    pub(crate) generations: Vec<usize>,
    pub(crate) sync: SyncContext,
}

/// Two trackers agree on everything but the pending frame.
pub open spec fn same_but_pending(a: WatchArg, b: WatchArg) -> bool {
    &&& a.running() == b.running()
    &&& a.gens() == b.gens()
    &&& a.frame() == b.frame()
    &&& a.total() == b.total()
}

impl WatchArg {
    /// The watch that is running, with its current generation.
    pub open(crate) spec fn running(&self) -> Option<WatchRef> {
        self.current
    }

    /// The watches queued for the next frame, in order.
    pub open(crate) spec fn pending(&self) -> Seq<TriggeredWatch> {
        self.next_frame@
    }

    /// The generation of each registered watch.
    pub open(crate) spec fn gens(&self) -> Seq<usize> {
        self.generations@
    }

    /// The id of the current frame.
    pub open(crate) spec fn frame(&self) -> u8 {
        self.frame_id
    }

    /// The number of watches registered, saturating.
    pub open(crate) spec fn total(&self) -> usize {
        self.total_watch_count
    }

    /// A tracker with no watch registered and nothing pending. Only a
    /// context makes one.
    pub(crate) fn new() -> (r: Self)
        ensures
            r.running() is None,
            r.pending() == Seq::<TriggeredWatch>::empty(),
            r.gens() == Seq::<usize>::empty(),
            r.frame() == 0,
            r.total() == 0,
    {
        WatchArg {
            current: None,
            frame_id: 0,
            total_watch_count: 0,
            next_frame: Vec::new(),
            generations: Vec::new(),
            sync: SyncContext::new(),
        }
    }

    /// The watch that is running, if any.
    pub fn current_watch(&self) -> (r: Option<WatchRef>)
        ensures
            r == self.running(),
    {
        self.current
    }

    /// The id of the current frame; it advances, wrapping, after each frame.
    pub fn frame_id(&self) -> (r: u8)
        ensures
            r == self.frame(),
    {
        self.frame_id
    }

    /// The number of watches registered so far, saturating.
    pub fn total_watch_count(&self) -> (r: usize)
        ensures
            r == self.total(),
    {
        self.total_watch_count
    }

    /// The number of watches queued for the next frame.
    pub fn pending_count(&self) -> (r: usize)
        ensures
            r == self.pending().len(),
    {
        self.next_frame.len()
    }

    /// The generation of the watch `w`, if it is registered.
    pub fn generation(&self, w: usize) -> (r: Option<usize>)
        ensures
            w < self.gens().len() ==> r == Some(self.gens()[w as int]),
            w >= self.gens().len() ==> r is None,
    {
        if w < self.generations.len() {
            Some(self.generations[w])
        } else {
            None
        }
    }

    /// Registers the watch `w` with generation 0, adding generations as
    /// needed; the count of registered watches rises by one, saturating.
    pub(crate) fn register_at(&mut self, w: usize)
        ensures
            final(self).gens().len() > w,
            final(self).gens()[w as int] == 0,
            forall|i: int| 0 <= i < old(self).gens().len() && i != w ==> #[trigger] final(self).gens()[i]
                == old(self).gens()[i],
            final(self).total() == (if old(self).total() == usize::MAX {
                usize::MAX as int
            } else {
                old(self).total() + 1
            }),
            final(self).running() == old(self).running(),
            final(self).pending() == old(self).pending(),
            final(self).frame() == old(self).frame(),
    {
        if w < self.generations.len() {
            self.generations.set(w, 0);
        } else {
            while self.generations.len() < w
                invariant
                    self.generations@.len() >= old(self).gens().len(),
                    self.generations@.len() <= w,
                    forall|i: int| 0 <= i < old(self).gens().len() ==> #[trigger] self.generations@[i]
                        == old(self).gens()[i],
                    self.current == old(self).current,
                    self.next_frame == old(self).next_frame,
                    self.frame_id == old(self).frame_id,
                    self.total_watch_count == old(self).total_watch_count,
                decreases w - self.generations@.len(),
            {
                self.generations.push(0);
            }
            self.generations.push(0);
        }
        self.total_watch_count = self.total_watch_count.saturating_add(1);
    }

    /// Starts a run of the watch that `r` refers to, if `r` is fresh: the
    /// watch's generation advances (wrapping), which makes every other
    /// reference to it stale, and it becomes the running watch. Returns the
    /// watch that was running before, to hand back to `finish_run`.
    pub(crate) fn begin_run(&mut self, r: WatchRef) -> (prev: Option<Option<WatchRef>>)
        ensures
            prev is Some == fresh_in(r, old(self).gens()),
            fresh_in(r, old(self).gens()) ==> {
                &&& prev == Some(old(self).running())
                &&& final(self).gens() == old(self).gens().update(
                    r.watch as int,
                    if r.cycle == usize::MAX { 0usize } else { (r.cycle + 1) as usize },
                )
                &&& final(self).running() == Some(
                    WatchRef { watch: r.watch, cycle: final(self).gens()[r.watch as int] },
                )
            },
            !fresh_in(r, old(self).gens()) ==> *final(self) == *old(self),
            final(self).pending() == old(self).pending(),
            final(self).frame() == old(self).frame(),
            final(self).total() == old(self).total(),
    {
        if r.is_fresh(&self.generations) {
            let next = r.cycle.wrapping_add(1);
            self.generations.set(r.watch, next);
            let prev = self.current;
            self.current = Some(WatchRef { watch: r.watch, cycle: next });
            Some(prev)
        } else {
            None
        }
    }

    /// Runs `f` with `watch` installed as the running watch, then restores
    /// the watch that was running before.
    pub fn use_as_current<R, F: FnOnce(&mut WatchArg) -> R>(&mut self, watch: WatchRef, f: F) -> (r:
        R)
        requires
            forall|a: &mut WatchArg| f.requires((a,)),
        ensures
            final(self).running() == old(self).running(),
            exists|a: &mut WatchArg|
                a.running() == Some(watch) && a.pending() == old(self).pending() && a.gens() == old(
                    self,
                ).gens() && #[trigger] f.ensures((a,), r),
    {
        let prev = self.current;
        self.current = Some(watch);
        let r = f(self);
        self.current = prev;
        r
    }

    /// Runs `f` with the running watch, if there is one, taking it out of
    /// the slot while `f` runs, so that what `f` does counts as done from
    /// outside any watch; the slot is restored afterwards. Returns whether a
    /// watch was running.
    pub fn try_with_current<F: FnOnce(WatchRef, &mut WatchArg)>(&mut self, f: F) -> (r: Option<()>)
        requires
            forall|w: WatchRef, a: &mut WatchArg| f.requires((w, a)),
        ensures
            r is Some <==> old(self).running() is Some,
            final(self).running() == old(self).running(),
            old(self).running() is None ==> *final(self) == *old(self),
            old(self).running() matches Some(cur) ==> exists|a: &mut WatchArg|
                a.running() is None && a.pending() == old(self).pending() && a.gens() == old(
                    self,
                ).gens() && #[trigger] f.ensures((cur, a), ()),
    {
        match self.current {
            Some(cur) => {
                self.current = None;
                f(cur, self);
                self.current = Some(cur);
                Some(())
            },
            None => None,
        }
    }

    /// Ends a run: `prev` is running again.
    pub(crate) fn finish_run(&mut self, prev: Option<WatchRef>)
        ensures
            final(self).running() == prev,
            final(self).pending() == old(self).pending(),
            final(self).gens() == old(self).gens(),
            final(self).frame() == old(self).frame(),
            final(self).total() == old(self).total(),
    {
        self.current = prev;
    }

    /// Exchanges the pending frame with `frame`.
    pub(crate) fn swap_pending(&mut self, frame: &mut Vec<TriggeredWatch>)
        ensures
            final(self).pending() == old(frame)@,
            final(frame)@ == old(self).pending(),
            final(self).running() == old(self).running(),
            final(self).gens() == old(self).gens(),
            final(self).frame() == old(self).frame(),
            final(self).total() == old(self).total(),
    {
        core::mem::swap(&mut self.next_frame, frame);
    }

    /// Records the running watch, if there is one, as a subscriber of `set`.
    pub fn observe(&self, set: &mut WatchSet)
        ensures
            self.running() is None ==> final(set)@ == old(set)@,
            self.running() matches Some(cur) ==> {
                &&& (fresh_in(cur, self.gens()) ==> subscribed(final(set)@, self.gens(), cur.watch))
                &&& (fresh_in(cur, self.gens()) && bounded(old(set)@, self.gens()) ==> bounded(
                    final(set)@,
                    self.gens(),
                ))
                &&& forall|w: usize|
                    w != cur.watch ==> subscribed(final(set)@, self.gens(), w) == subscribed(
                        old(set)@,
                        self.gens(),
                        w,
                    )
            },
    {
        if let Some(cur) = self.current {
            set.add(cur, &self.generations, self.total_watch_count);
        }
    }

    /// Notifies the subscribers of `set`: from inside a watch every
    /// subscriber but the running watch is queued; from outside, all are.
    pub fn notify(&mut self, set: &mut WatchSet)
        ensures
            final(set)@ == Seq::<Option<WatchRef>>::empty(),
            final(self).pending() == old(self).pending() + triggered(
                old(set)@,
                skip_of(old(self).running()),
                reason_of(old(self).running()),
            ),
            final(self).running() == old(self).running(),
            final(self).gens() == old(self).gens(),
            final(self).frame() == old(self).frame(),
            final(self).total() == old(self).total(),
    {
        match self.current {
            Some(cur) => {
                let reason = TriggerReason::from_caller().with_source(cur.watch);
                set.trigger_with_current(cur.watch, reason, &mut self.next_frame);
            },
            None => {
                let reason = TriggerReason::from_caller();
                set.trigger_external(reason, &mut self.next_frame);
            },
        }
    }

    /// Notifies every subscriber of `set`, the running watch included.
    pub fn notify_external(&mut self, set: &mut WatchSet)
        ensures
            final(set)@ == Seq::<Option<WatchRef>>::empty(),
            final(self).pending() == old(self).pending() + triggered(
                old(set)@,
                None,
                TriggerReason { source_watch: None },
            ),
            final(self).running() == old(self).running(),
            final(self).gens() == old(self).gens(),
            final(self).frame() == old(self).frame(),
            final(self).total() == old(self).total(),
    {
        let reason = TriggerReason::from_caller();
        set.trigger_external(reason, &mut self.next_frame);
    }
}

} // verus!

verus! {

/// A notification made from inside the running watch `w` never queues `w`:
/// every entry it pushes belongs to another watch.
pub proof fn self_notification_suppressed(
    s: Seq<Option<WatchRef>>,
    w: usize,
    reason: TriggerReason,
)
    ensures
        forall|k: int|
            0 <= k < triggered(s, Some(w), reason).len() ==> (#[trigger] triggered(
                s,
                Some(w),
                reason,
            )[k]).watch.watch != w,
    decreases s.len(),
{
    if s.len() > 0 {
        self_notification_suppressed(s.drop_last(), w, reason);
        let rest = triggered(s.drop_last(), Some(w), reason);
        assert forall|k: int|
            0 <= k < triggered(s, Some(w), reason).len() implies (#[trigger] triggered(
                s,
                Some(w),
                reason,
            )[k]).watch.watch != w by {
            if k < rest.len() {
                assert(triggered(s, Some(w), reason)[k] == rest[k]);
            }
        }
    }
}

/// Dependency freshness. When a run of watch `w` begins, its generation
/// moves past that of every reference to `w` taken before, so `w` is no
/// longer a subscriber of any value; a value it observes during the run
/// (`after` is `before` once observed by the running `w`) has it as a
/// subscriber again. Together with `WatchArg::notify`, which empties a
/// value's set, `w` ends its run subscribed exactly to what it observed and
/// did not notify afterwards.
pub proof fn dependency_freshness(
    before: Seq<Option<WatchRef>>,
    after: Seq<Option<WatchRef>>,
    gens: Seq<usize>,
    w: usize,
    arg: WatchArg,
)
    requires
        w < gens.len(),
        gens[w as int] < usize::MAX,
        bounded(before, gens),
        arg.gens() == gens.update(w as int, (gens[w as int] + 1) as usize),
        arg.running() == Some(WatchRef { watch: w, cycle: (gens[w as int] + 1) as usize }),
        crate::watched_core::observed(before, after, arg),
    ensures
        !subscribed(before, arg.gens(), w),
        subscribed(after, arg.gens(), w),
{
    let g = arg.gens();
    assert(g[w as int] == gens[w as int] + 1);
    if subscribed(before, g, w) {
        let r = WatchRef { watch: w, cycle: g[w as int] };
        let i = choose|i: int| 0 <= i < before.len() && before[i] == Some(r);
        assert(before[i] is Some);
    }
}

/// At most one run per frame. The references queued for a watch since its
/// last run all carry the generation it got at that run. Once the first of
/// them has started a run (`WatchArg::begin_run` advances the generation,
/// wrapping), every other one is stale and is skipped.
pub proof fn at_most_once_per_frame(first: WatchRef, other: WatchRef, gens: Seq<usize>)
    requires
        fresh_in(first, gens),
        other.watch == first.watch,
        other.cycle == first.cycle,
    ensures
        !fresh_in(
            other,
            gens.update(
                first.watch as int,
                if first.cycle == usize::MAX { 0usize } else { (first.cycle + 1) as usize },
            ),
        ),
{
}

} // verus!

