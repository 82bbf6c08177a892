//! The simulation driver's bookkeeping.
//!
//! The driver runs on the control thread, once per rendered video frame.
//! It keeps the table of sounding sources that are registered with the
//! simulator and lays out, for each tick, the steps that the simulator is
//! taken through. The steps themselves are the caller's to perform.

use vstd::prelude::*;

verus! {

/// More sources were asked for than the simulator was built for.
#[derive(Clone, Copy, Debug, PartialEq, Eq, Structural)]
pub struct CapacityError {
    /// The number of sources that the table holds at most.
    pub capacity: usize,
}

/// What a slot of the source table holds.
#[derive(Clone, Copy, Debug, PartialEq, Eq, Structural)]
pub enum Slot {
    /// No source.
    Free,
    /// A source that the simulator has been told of but has not taken in
    /// yet: it waits for the next commit.
    Registered,
    /// A source that takes part in the simulation.
    Committed,
}

/// One step of a tick.
#[derive(Clone, Copy, Debug, PartialEq, Eq, Structural)]
pub enum TickAction {
    /// Place the listener's own reverb source at the listener.
    ConfigureListener,
    /// Hand the simulator the listener's frame and the shared settings.
    SetSharedInputs,
    /// Hand the simulator where the source with this id is.
    SetSourceInputs(usize),
    /// Run the direct-path pass.
    RunDirect,
    /// Run the reflections pass.
    RunReflections,
    /// Read the reverb parameters off the listener's source.
    ReadReverb,
    /// Read what the simulator found for the source with this id, and
    /// publish it together with the reverb parameters.
    PublishSource(usize),
}

/// The ids of the committed sources among the first `n` slots, in rising
/// order.
pub open spec fn committed_upto(slots: Seq<Slot>, n: nat) -> Seq<usize>
    decreases n,
{
    if n == 0 {
        Seq::empty()
    } else {
        let before = committed_upto(slots, (n - 1) as nat);
        if slots[n - 1] == Slot::Committed {
            before.push((n - 1) as usize)
        } else {
            before
        }
    }
}

/// The ids of all committed sources, in rising order.
pub open spec fn committed_ids(slots: Seq<Slot>) -> Seq<usize> {
    committed_upto(slots, slots.len())
}

/// The steps of one tick: the listener and the shared inputs first, then
/// the inputs of every committed source, then the two passes, then the
/// reverb and the outputs of every committed source.
pub open spec fn tick_plan(slots: Seq<Slot>) -> Seq<TickAction> {
    seq![TickAction::ConfigureListener, TickAction::SetSharedInputs] + committed_ids(slots).map(
        |i: int, id: usize| TickAction::SetSourceInputs(id),
    ) + seq![TickAction::RunDirect, TickAction::RunReflections, TickAction::ReadReverb]
        + committed_ids(slots).map(|i: int, id: usize| TickAction::PublishSource(id))
}

/// The mathematical state of a source table.
pub struct RegistryView {
    pub slots: Seq<Slot>,
    /// The set of sources has changed since the simulator last took it in.
    pub dirty: bool,
}

/// The table of the sounding sources of a scene. A source's id is the
/// index of its slot and stays the same while the source lives.
pub struct SourceRegistry {
    slots: Vec<Slot>,
    dirty: bool,
}

impl View for SourceRegistry {
    type V = RegistryView;

    closed spec fn view(&self) -> RegistryView {
        RegistryView { slots: self.slots@, dirty: self.dirty }
    }
}

impl SourceRegistry {
    /// A table of `capacity` free slots.
    pub fn new(capacity: usize) -> (r: Self)
        ensures
            r@.slots.len() == capacity,
            forall|i: int| 0 <= i < capacity ==> r@.slots[i] == Slot::Free,
            !r@.dirty,
    {
        let mut slots: Vec<Slot> = Vec::new();
        let mut i: usize = 0;
        while i < capacity
            invariant
                i <= capacity,
                slots@.len() == i,
                forall|k: int| 0 <= k < i ==> slots@[k] == Slot::Free,
            decreases capacity - i,
        {
            slots.push(Slot::Free);
            i = i + 1;
        }
        SourceRegistry { slots, dirty: false }
    }

    /// The number of sources that the table holds at most.
    pub fn capacity(&self) -> (r: usize)
        ensures
            r == self@.slots.len(),
    {
        self.slots.len()
    }

    /// What the slot of `id` holds; `Free` for an id beyond the table.
    pub fn slot(&self, id: usize) -> (r: Slot)
        ensures
            r == if id < self@.slots.len() {
                self@.slots[id as int]
            } else {
                Slot::Free
            },
    {
        if id < self.slots.len() {
            self.slots[id]
        } else {
            Slot::Free
        }
    }

    /// Whether the set of sources has changed since the last commit.
    pub fn needs_commit(&self) -> (r: bool)
        ensures
            r == self@.dirty,
    {
        self.dirty
    }

    /// Registers a source in the first free slot and returns its id. With
    /// no slot free the source is refused and the table stays as it was.
    pub fn register(&mut self) -> (r: Result<usize, CapacityError>)
        ensures
            match r {
                Ok(id) => {
                    &&& id < old(self)@.slots.len()
                    &&& old(self)@.slots[id as int] == Slot::Free
                    &&& forall|j: int| 0 <= j < id ==> old(self)@.slots[j] != Slot::Free
                    &&& final(self)@.slots == old(self)@.slots.update(id as int, Slot::Registered)
                    &&& final(self)@.dirty
                },
                Err(e) => {
                    &&& e.capacity == old(self)@.slots.len()
                    &&& forall|j: int|
                        0 <= j < old(self)@.slots.len() ==> old(self)@.slots[j] != Slot::Free
                    &&& final(self)@ == old(self)@
                },
            },
    {
        let n = self.slots.len();
        let mut i: usize = 0;
        while i < n
            invariant
                i <= n,
                n == self.slots@.len(),
                *self == *old(self),
                forall|j: int| 0 <= j < i ==> self.slots@[j] != Slot::Free,
            decreases n - i,
        {
            if self.slots[i] == Slot::Free {
                self.slots[i] = Slot::Registered;
                self.dirty = true;
                return Ok(i);
            }
            i = i + 1;
        }
        Err(CapacityError { capacity: n })
    }

    /// Takes the source with `id` out of the table. Returns whether there
    /// was one.
    pub fn deregister(&mut self, id: usize) -> (r: bool)
        ensures
            r == (id < old(self)@.slots.len() && old(self)@.slots[id as int] != Slot::Free),
            r ==> final(self)@.dirty && final(self)@.slots == old(self)@.slots.update(
                id as int,
                Slot::Free,
            ),
            !r ==> final(self)@ == old(self)@,
    {
        if id < self.slots.len() && self.slots[id] != Slot::Free {
            self.slots[id] = Slot::Free;
            self.dirty = true;
            true
        } else {
            false
        }
    }

    /// Records that the simulator has taken in the set of sources: every
    /// registered source is committed from now on.
    pub fn commit(&mut self)
        ensures
            final(self)@.slots.len() == old(self)@.slots.len(),
            forall|i: int|
                0 <= i < old(self)@.slots.len() ==> final(self)@.slots[i] == if old(
                    self,
                )@.slots[i] == Slot::Free {
                    Slot::Free
                } else {
                    Slot::Committed
                },
            !final(self)@.dirty,
    {
        let n = self.slots.len();
        let mut i: usize = 0;
        while i < n
            invariant
                i <= n,
                n == self.slots@.len(),
                n == old(self).slots@.len(),
                forall|k: int|
                    0 <= k < i ==> self.slots@[k] == if old(self).slots@[k] == Slot::Free {
                        Slot::Free
                    } else {
                        Slot::Committed
                    },
                forall|k: int| i <= k < n ==> self.slots@[k] == old(self).slots@[k],
            decreases n - i,
        {
            if self.slots[i] != Slot::Free {
                self.slots[i] = Slot::Committed;
            }
            i = i + 1;
        }
        self.dirty = false;
    }

    /// The ids of the sources that take part in the simulation, in rising
    /// order. A source that waits for its commit is left out.
    pub fn committed(&self) -> (r: Vec<usize>)
        ensures
            r@ == committed_ids(self@.slots),
    {
        let n = self.slots.len();
        let mut ids: Vec<usize> = Vec::new();
        let mut i: usize = 0;
        while i < n
            invariant
                i <= n,
                n == self.slots@.len(),
                ids@ == committed_upto(self.slots@, i as nat),
            decreases n - i,
        {
            if self.slots[i] == Slot::Committed {
                ids.push(i);
            }
            i = i + 1;
        }
        ids
    }

    /// The steps of one tick, in the order in which they are to be taken.
    pub fn plan_tick(&self) -> (r: Vec<TickAction>)
        ensures
            r@ == tick_plan(self@.slots),
    {
        let ids = self.committed();
        let mut plan: Vec<TickAction> = Vec::new();
        plan.push(TickAction::ConfigureListener);
        plan.push(TickAction::SetSharedInputs);
        let ghost head = plan@;
        let mut i: usize = 0;
        while i < ids.len()
            invariant
                i <= ids@.len(),
                head == seq![TickAction::ConfigureListener, TickAction::SetSharedInputs],
                plan@ == head + ids@.take(i as int).map(
                    |k: int, id: usize| TickAction::SetSourceInputs(id),
                ),
            decreases ids@.len() - i,
        {
            plan.push(TickAction::SetSourceInputs(ids[i]));
            proof {
                assert(ids@.take(i + 1) =~= ids@.take(i as int).push(ids@[i as int]));
                assert(plan@ =~= head + ids@.take(i + 1).map(
                    |k: int, id: usize| TickAction::SetSourceInputs(id),
                ));
            }
            i = i + 1;
        }
        proof {
            assert(ids@.take(ids@.len() as int) =~= ids@);
        }
        plan.push(TickAction::RunDirect);
        plan.push(TickAction::RunReflections);
        plan.push(TickAction::ReadReverb);
        let ghost middle = plan@;
        let mut i: usize = 0;
        while i < ids.len()
            invariant
                i <= ids@.len(),
                middle == head + ids@.map(|k: int, id: usize| TickAction::SetSourceInputs(id))
                    + seq![
                    TickAction::RunDirect,
                    TickAction::RunReflections,
                    TickAction::ReadReverb,
                ],
                plan@ == middle + ids@.take(i as int).map(
                    |k: int, id: usize| TickAction::PublishSource(id),
                ),
            decreases ids@.len() - i,
        {
            plan.push(TickAction::PublishSource(ids[i]));
            proof {
                assert(ids@.take(i + 1) =~= ids@.take(i as int).push(ids@[i as int]));
                assert(plan@ =~= middle + ids@.take(i + 1).map(
                    |k: int, id: usize| TickAction::PublishSource(id),
                ));
            }
            i = i + 1;
        }
        proof {
            assert(ids@.take(ids@.len() as int) =~= ids@);
        }
        plan
    }
}

/// The committed ids are exactly the indices of the committed slots, each
/// once and in rising order.
pub proof fn lemma_committed_ids(slots: Seq<Slot>, n: nat)
    requires
        n <= slots.len(),
        slots.len() <= usize::MAX,
    ensures
        forall|k: int|
            0 <= k < committed_upto(slots, n).len() ==> (#[trigger] committed_upto(slots, n)[k])
                < n && slots[committed_upto(slots, n)[k] as int] == Slot::Committed,
        forall|k: int, l: int|
            0 <= k < l < committed_upto(slots, n).len() ==> committed_upto(slots, n)[k]
                < committed_upto(slots, n)[l],
        forall|i: int|
            0 <= i < n && slots[i] == Slot::Committed ==> committed_upto(slots, n).contains(
                i as usize,
            ),
    decreases n,
{
    if n > 0 {
        let before = committed_upto(slots, (n - 1) as nat);
        let now = committed_upto(slots, n);
        lemma_committed_ids(slots, (n - 1) as nat);
        assert forall|i: int| 0 <= i < n && slots[i] == Slot::Committed implies now.contains(
            i as usize,
        ) by {
            if i == n - 1 {
                assert(now[now.len() - 1] == i as usize);
            } else {
                assert(before.contains(i as usize));
                let k = choose|k: int| 0 <= k < before.len() && before[k] == i as usize;
                assert(now[k] == i as usize);
            }
        }
    }
}

} // verus!
