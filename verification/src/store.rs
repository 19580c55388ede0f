//! The container store: a table of slots, each with a strong reference count
//! and the payload it owns until the count falls to zero.

use vstd::prelude::*;

verus! {

/// The mathematical state of one slot.
pub struct SlotView<T> {
    /// The number of references that keep the container alive.
    pub strong: nat,
    /// The payload, unless it is lent to a running behavior or destroyed.
    pub payload: Option<T>,
    /// How often the payload's destructor has run.
    pub teardowns: nat,
}

impl<T> SlotView<T> {
    /// A slot right after its container was created around `value`.
    pub open spec fn fresh(value: T) -> SlotView<T> {
        SlotView { strong: 1, payload: Some(value), teardowns: 0 }
    }

    /// Whether the container is alive.
    pub open spec fn live(self) -> bool {
        self.strong > 0
    }

    /// Whether the payload is in the hands of a running behavior.
    pub open spec fn lent(self) -> bool {
        self.strong > 0 && self.payload is None
    }

    /// The destructor has run once if the count is zero, and never otherwise;
    /// a destroyed container holds no payload.
    pub open spec fn wf(self) -> bool {
        &&& self.teardowns == if self.strong == 0 { 1nat } else { 0nat }
        &&& self.strong == 0 ==> self.payload is None
    }

    /// The slot after one more reference was taken.
    pub open spec fn retain(self) -> SlotView<T> {
        SlotView { strong: self.strong + 1, ..self }
    }

    /// The slot after one reference was given up: with the last one the
    /// payload is destroyed.
    pub open spec fn release(self) -> SlotView<T> {
        if self.strong == 1 {
            SlotView { strong: 0, payload: None, teardowns: self.teardowns + 1 }
        } else {
            SlotView { strong: (self.strong - 1) as nat, ..self }
        }
    }

    /// Whether a reference may be given up: the container is alive, and the
    /// last reference does not go while the payload is lent.
    pub open spec fn may_release(self) -> bool {
        self.strong > 1 || (self.strong == 1 && self.payload is Some)
    }

    /// The slot after its payload was handed to a behavior.
    pub open spec fn lend(self) -> SlotView<T> {
        SlotView { payload: None, ..self }
    }

    /// The slot after a behavior handed `value` back.
    pub open spec fn restore(self, value: T) -> SlotView<T> {
        SlotView { payload: Some(value), ..self }
    }
}

/// One step in the life of a container's reference count.
pub enum RefOp {
    /// A handle is cloned.
    Clone,
    /// A handle is dropped.
    Drop,
}

/// The slot after the steps in `ops`, first to last.
pub open spec fn after_ops<T>(slot: SlotView<T>, ops: Seq<RefOp>) -> SlotView<T>
    decreases ops.len(),
{
    if ops.len() == 0 {
        slot
    } else {
        let before = after_ops(slot, ops.drop_last());
        match ops.last() {
            RefOp::Clone => before.retain(),
            RefOp::Drop => before.release(),
        }
    }
}

/// Whether each step in `ops` is taken on a container that is still alive.
pub open spec fn ops_allowed<T>(slot: SlotView<T>, ops: Seq<RefOp>) -> bool
    decreases ops.len(),
{
    if ops.len() == 0 {
        true
    } else {
        let before = after_ops(slot, ops.drop_last());
        &&& ops_allowed(slot, ops.drop_last())
        &&& match ops.last() {
            RefOp::Clone => before.live(),
            RefOp::Drop => before.may_release(),
        }
    }
}

/// The number of clones less the number of drops in `ops`.
pub open spec fn net_refs(ops: Seq<RefOp>) -> int
    decreases ops.len(),
{
    if ops.len() == 0 {
        0
    } else {
        net_refs(ops.drop_last()) + match ops.last() {
            RefOp::Clone => 1int,
            RefOp::Drop => -1int,
        }
    }
}

/// Reference counting: after any sequence of clones and drops of the handles
/// of a container, the count is one more than clones less drops, and the
/// destructor has run exactly once if the count has reached zero and not at
/// all otherwise.
pub proof fn lemma_refcount<T>(value: T, ops: Seq<RefOp>)
    requires
        ops_allowed(SlotView::fresh(value), ops),
    ensures
        after_ops(SlotView::fresh(value), ops).wf(),
        after_ops(SlotView::fresh(value), ops).strong == 1 + net_refs(ops),
        after_ops(SlotView::fresh(value), ops).teardowns == if 1 + net_refs(ops) == 0 {
            1nat
        } else {
            0nat
        },
    decreases ops.len(),
{
    if ops.len() > 0 {
        lemma_refcount(value, ops.drop_last());
    }
}

/// A destroyed container stays destroyed: once the count is zero no further
/// clone or drop is allowed, so the destructor cannot run a second time.
pub proof fn lemma_destroyed_is_final<T>(value: T, ops: Seq<RefOp>, more: RefOp)
    requires
        ops_allowed(SlotView::fresh(value), ops),
        after_ops(SlotView::fresh(value), ops).strong == 0,
    ensures
        !ops_allowed(SlotView::fresh(value), ops.push(more)),
{
    assert(ops.push(more).drop_last() =~= ops);
}

/// One slot of the store.
struct Slot<T> {
    strong: usize,
    payload: Option<T>,
    teardowns: Ghost<nat>,
}

/// The table of all containers ever created, in the order of their creation.
/// A slot keeps its place after its container is destroyed, so a slot number
/// never comes to name another container.
pub struct Store<T> {
    slots: Vec<Slot<T>>,
}

impl<T> View for Store<T> {
    type V = Seq<SlotView<T>>;

    closed spec fn view(&self) -> Seq<SlotView<T>> {
        Seq::new(
            self.slots.len() as nat,
            |i: int|
                SlotView {
                    strong: self.slots[i].strong as nat,
                    payload: self.slots[i].payload,
                    teardowns: self.slots[i].teardowns@,
                },
        )
    }
}

/// The number of containers in `slots` that are alive.
pub open spec fn count_live<T>(slots: Seq<SlotView<T>>) -> nat
    decreases slots.len(),
{
    if slots.len() == 0 {
        0
    } else {
        count_live(slots.drop_last()) + if slots.last().live() { 1nat } else { 0nat }
    }
}

/// No more containers are alive than there are slots.
pub proof fn lemma_count_live_bound<T>(slots: Seq<SlotView<T>>)
    ensures
        count_live(slots) <= slots.len(),
        count_live(slots) == 0 <==> forall|i: int| 0 <= i < slots.len() ==> !(#[trigger] slots[i]).live(),
    decreases slots.len(),
{
    if slots.len() > 0 {
        let front = slots.drop_last();
        lemma_count_live_bound(front);
        if count_live(slots) == 0 {
            assert forall|i: int| 0 <= i < slots.len() implies !(#[trigger] slots[i]).live() by {
                if i < front.len() {
                    assert(!front[i].live());
                }
            }
        } else if !slots.last().live() {
            let i = choose|i: int| 0 <= i < front.len() && (#[trigger] front[i]).live();
            assert(slots[i].live());
        }
    }
}

impl<T> Store<T> {
    /// Every slot is well formed.
    pub open spec fn wf(&self) -> bool {
        forall|i: int| 0 <= i < self@.len() ==> (#[trigger] self@[i]).wf()
    }

    /// Whether `i` names a container that is alive.
    pub open spec fn live(&self, i: int) -> bool {
        0 <= i < self@.len() && self@[i].live()
    }

    /// A store without containers.
    pub fn new() -> (s: Store<T>)
        ensures
            s@ == Seq::<SlotView<T>>::empty(),
            s.wf(),
    {
        let s = Store { slots: Vec::new() };
        assert(s@ =~= Seq::empty());
        s
    }

    /// The number of slots.
    pub fn len(&self) -> (n: usize)
        ensures
            n == self@.len(),
    {
        self.slots.len()
    }

    /// The strong reference count of slot `i`; zero for a slot that does not
    /// exist.
    pub fn strong_count(&self, i: usize) -> (n: usize)
        ensures
            n == if i < self@.len() { self@[i as int].strong } else { 0 },
    {
        if i < self.slots.len() {
            self.slots[i].strong
        } else {
            0
        }
    }

    /// Creates a container around `value`, with one reference, in a new slot.
    pub fn create(&mut self, value: T) -> (i: usize)
        requires
            old(self).wf(),
        ensures
            final(self).wf(),
            i == old(self)@.len(),
            final(self)@ == old(self)@.push(SlotView::fresh(value)),
    {
        let i = self.slots.len();
        self.slots.push(Slot { strong: 1, payload: Some(value), teardowns: Ghost(0) });
        assert(self@ =~= old(self)@.push(SlotView::fresh(value)));
        i
    }

    /// Takes one more reference to the container in slot `i`.
    pub fn retain(&mut self, i: usize)
        requires
            old(self).wf(),
            old(self).live(i as int),
            old(self)@[i as int].strong < usize::MAX,
        ensures
            final(self).wf(),
            final(self)@ == old(self)@.update(i as int, old(self)@[i as int].retain()),
    {
        let n = self.slots[i].strong;
        self.slots[i].strong = n + 1;
        assert(self@ =~= old(self)@.update(i as int, old(self)@[i as int].retain()));
    }

    /// Gives up one reference to the container in slot `i`. With the last
    /// reference the payload is destroyed, and the result says so.
    pub fn release(&mut self, i: usize) -> (destroyed: bool)
        requires
            old(self).wf(),
            i < old(self)@.len(),
            old(self)@[i as int].may_release(),
        ensures
            final(self).wf(),
            final(self)@ == old(self)@.update(i as int, old(self)@[i as int].release()),
            destroyed == (old(self)@[i as int].strong == 1),
    {
        let n = self.slots[i].strong;
        if n == 1 {
            let ghost t = self.slots[i as int].teardowns@;
            self.slots[i].strong = 0;
            self.slots[i].payload = None;
            self.slots[i].teardowns = Ghost((t + 1) as nat);
            assert(self@ =~= old(self)@.update(i as int, old(self)@[i as int].release()));
            true
        } else {
            self.slots[i].strong = n - 1;
            assert(self@ =~= old(self)@.update(i as int, old(self)@[i as int].release()));
            false
        }
    }

    /// Hands out the payload of slot `i`, leaving the slot lent.
    pub fn lend(&mut self, i: usize) -> (value: T)
        requires
            old(self).wf(),
            i < old(self)@.len(),
            old(self)@[i as int].payload is Some,
        ensures
            final(self).wf(),
            Some(value) == old(self)@[i as int].payload,
            final(self)@ == old(self)@.update(i as int, old(self)@[i as int].lend()),
    {
        let taken = self.slots[i].payload.take();
        assert(self@ =~= old(self)@.update(i as int, old(self)@[i as int].lend()));
        taken.unwrap()
    }

    /// Puts `value` back into slot `i`, which was lent.
    pub fn restore(&mut self, i: usize, value: T)
        requires
            old(self).wf(),
            i < old(self)@.len(),
            old(self)@[i as int].lent(),
        ensures
            final(self).wf(),
            final(self)@ == old(self)@.update(i as int, old(self)@[i as int].restore(value)),
    {
        self.slots[i].payload = Some(value);
        assert(self@ =~= old(self)@.update(i as int, old(self)@[i as int].restore(value)));
    }

    /// The number of containers alive among the slots from `base` on.
    pub fn live_from(&self, base: usize) -> (n: usize)
        requires
            base <= self@.len(),
        ensures
            n == count_live(self@.subrange(base as int, self@.len() as int)),
    {
        let mut n: usize = 0;
        let mut i: usize = base;
        while i < self.slots.len()
            invariant
                base <= i <= self.slots.len(),
                self@.len() == self.slots.len(),
                n == count_live(self@.subrange(base as int, i as int)),
                n <= i - base,
            decreases self.slots.len() - i,
        {
            proof {
                let next = self@.subrange(base as int, i + 1);
                assert(next.drop_last() =~= self@.subrange(base as int, i as int));
                assert(next.last() == self@[i as int]);
            }
            if self.slots[i].strong > 0 {
                n = n + 1;
            }
            i = i + 1;
        }
        n
    }
}

/// The slots after one reference more was taken to each container in
/// `required`.
pub open spec fn retained<T>(slots: Seq<SlotView<T>>, required: Seq<usize>) -> Seq<SlotView<T>> {
    Seq::new(
        slots.len(),
        |c: int|
            if required.contains(c as usize) {
                slots[c].retain()
            } else {
                slots[c]
            },
    )
}

/// The slots after the payload of each container in `required` was lent.
pub open spec fn lent<T>(slots: Seq<SlotView<T>>, required: Seq<usize>) -> Seq<SlotView<T>> {
    Seq::new(
        slots.len(),
        |c: int|
            if required.contains(c as usize) {
                slots[c].lend()
            } else {
                slots[c]
            },
    )
}

/// The slots after the payloads `values` came back to the containers in
/// `required`, place by place, and one reference to each was given up.
pub open spec fn returned<T>(slots: Seq<SlotView<T>>, required: Seq<usize>, values: Seq<T>) -> Seq<
    SlotView<T>,
> {
    Seq::new(
        slots.len(),
        |c: int|
            if required.contains(c as usize) {
                slots[c].restore(values[required.index_of(c as usize)]).release()
            } else {
                slots[c]
            },
    )
}

} // verus!
