use vstd::prelude::*;
use crate::limiter::Limiter;
use crate::probe::ProbeOutcome;

verus! {

/// Where one address stands in a scan.
#[derive(Clone, Copy, Debug, PartialEq, Eq, Structural)]
pub enum Slot {
    /// Not launched yet.
    Pending,
    /// Launched and holding a permit.
    Probing,
    /// The probe connected.
    Reachable,
    /// The probe failed or timed out.
    Unreachable,
    /// The probing task itself did not run to the end.
    Failed,
}

pub open spec fn is_done(s: Slot) -> bool {
    s is Reachable || s is Unreachable || s is Failed
}

/// The number of slots that hold a permit.
pub open spec fn count_probing(slots: Seq<Slot>) -> nat
    decreases slots.len(),
{
    if slots.len() == 0 {
        0
    } else {
        count_probing(slots.drop_last()) + if slots.last() is Probing { 1nat } else { 0nat }
    }
}

/// The addresses whose slot is `Reachable`, in input order, repeats kept.
pub open spec fn online_of(addresses: Seq<String>, slots: Seq<Slot>) -> Seq<String>
    decreases slots.len(),
{
    if slots.len() == 0 || addresses.len() == 0 {
        Seq::empty()
    } else {
        let rest = online_of(addresses.drop_last(), slots.drop_last());
        if slots.last() is Reachable {
            rest.push(addresses.last())
        } else {
            rest
        }
    }
}

/// What a scan is, mathematically.
pub struct ScanView {
    pub addresses: Seq<String>,
    pub slots: Seq<Slot>,
    pub capacity: nat,
    /// How many addresses have been launched: always a prefix of the input.
    pub launched: nat,
    /// How many probes hold a permit.
    pub in_flight: nat,
}

impl ScanView {
    pub open spec fn wf(&self) -> bool {
        &&& self.addresses.len() == self.slots.len()
        &&& self.launched <= self.slots.len()
        &&& forall|i: int| 0 <= i < self.launched ==> !(#[trigger] self.slots[i] is Pending)
        &&& forall|i: int| self.launched <= i < self.slots.len() ==> #[trigger] self.slots[i] is Pending
        &&& self.in_flight == count_probing(self.slots)
        &&& 1 <= self.capacity
        &&& self.in_flight <= self.capacity
    }

    /// Every address has a final verdict.
    pub open spec fn finished(&self) -> bool {
        forall|i: int| 0 <= i < self.slots.len() ==> is_done(#[trigger] self.slots[i])
    }

    /// The result of the scan as it stands.
    pub open spec fn online(&self) -> Seq<String> {
        online_of(self.addresses, self.slots)
    }
}

/// What the driver of a scan does next.
#[derive(Clone, Copy, Debug, PartialEq, Eq, Structural)]
pub enum Step {
    /// Probe the address at this index; its permit is already taken.
    Launch(usize),
    /// Nothing can be launched now: wait for a probe in flight to end.
    Wait,
    /// Every address has its verdict.
    Done,
}

/// One scan of a list of addresses under a concurrency ceiling.
pub struct Scan {
    addresses: Vec<String>,
    slots: Vec<Slot>,
    limiter: Limiter,
    next: usize,
}

impl View for Scan {
    type V = ScanView;

    closed spec fn view(&self) -> ScanView {
        ScanView {
            addresses: self.addresses@,
            slots: self.slots@,
            capacity: self.limiter.capacity_spec(),
            launched: self.next as nat,
            in_flight: self.limiter.in_use_spec(),
        }
    }
}

proof fn lemma_count_probing_update(s: Seq<Slot>, i: int, x: Slot)
    requires
        0 <= i < s.len(),
    ensures
        count_probing(s.update(i, x)) + (if s[i] is Probing { 1int } else { 0int })
            == count_probing(s) + (if x is Probing { 1int } else { 0int }),
    decreases s.len(),
{
    let t = s.update(i, x);
    if i == s.len() - 1 {
        assert(t.drop_last() =~= s.drop_last());
    } else {
        assert(t.drop_last() =~= s.drop_last().update(i, x));
        lemma_count_probing_update(s.drop_last(), i, x);
    }
}

proof fn lemma_count_probing_zero(s: Seq<Slot>)
    requires
        count_probing(s) == 0,
    ensures
        forall|i: int| 0 <= i < s.len() ==> !(#[trigger] s[i] is Probing),
{
    assert forall|i: int| 0 <= i < s.len() implies !(#[trigger] s[i] is Probing) by {
        if s[i] is Probing {
            lemma_count_probing_update(s, i, Slot::Pending);
        }
    }
}

proof fn lemma_count_probing_all_pending(s: Seq<Slot>)
    requires
        forall|i: int| 0 <= i < s.len() ==> #[trigger] s[i] is Pending,
    ensures
        count_probing(s) == 0,
    decreases s.len(),
{
    if s.len() > 0 {
        lemma_count_probing_all_pending(s.drop_last());
    }
}

impl Scan {
    pub closed spec fn wf(&self) -> bool {
        &&& self@.wf()
        &&& self.limiter.wf()
        &&& self.next as nat == self@.launched
    }

    /// A scan of `addresses` that lets at most `capacity` probes run at once.
    /// Nothing is launched yet.
    pub fn new(addresses: Vec<String>, capacity: usize) -> (r: Scan)
        requires
            capacity >= 1,
        ensures
            r.wf(),
            r@.addresses == addresses@,
            r@.slots.len() == addresses@.len(),
            forall|i: int| 0 <= i < addresses@.len() ==> #[trigger] r@.slots[i] is Pending,
            r@.capacity == capacity,
            r@.launched == 0,
            r@.in_flight == 0,
    {
        let n = addresses.len();
        let mut slots: Vec<Slot> = Vec::with_capacity(n);
        let mut i: usize = 0;
        while i < n
            invariant
                i <= n,
                n == addresses@.len(),
                slots@.len() == i,
                forall|j: int| 0 <= j < i ==> #[trigger] slots@[j] is Pending,
            decreases n - i,
        {
            slots.push(Slot::Pending);
            i = i + 1;
        }
        proof {
            lemma_count_probing_all_pending(slots@);
        }
        Scan { addresses, slots, limiter: Limiter::new(capacity), next: 0 }
    }

    /// The number of probes in flight.
    pub fn in_flight(&self) -> (r: usize)
        requires
            self.wf(),
        ensures
            r == self@.in_flight,
    {
        self.limiter.in_use()
    }

    /// The address at `index`.
    pub fn address(&self, index: usize) -> (r: &String)
        requires
            self.wf(),
            index < self@.addresses.len(),
        ensures
            *r == self@.addresses[index as int],
    {
        &self.addresses[index]
    }

    /// The slot of the address at `index`.
    pub fn slot(&self, index: usize) -> (r: Slot)
        requires
            self.wf(),
            index < self@.slots.len(),
        ensures
            r == self@.slots[index as int],
    {
        self.slots[index]
    }

    /// Whether every address has its verdict.
    pub fn is_finished(&self) -> (r: bool)
        requires
            self.wf(),
        ensures
            r == self@.finished(),
    {
        let r = self.next == self.slots.len() && self.limiter.in_use() == 0;
        proof {
            if r {
                lemma_count_probing_zero(self@.slots);
            }
            if self@.finished() {
                if self.next < self.slots.len() {
                    assert(self@.slots[self.next as int] is Pending);
                }
                if self@.in_flight > 0 {
                    lemma_count_probing_nonzero(self@.slots);
                }
            }
        }
        r
    }

    /// Decides what the driver does next. Launches the first pending address
    /// when a permit is free, in input order; waits while probes are in flight
    /// and nothing can be launched; reports the end once every verdict is in.
    pub fn next_step(&mut self) -> (r: Step)
        requires
            old(self).wf(),
        ensures
            final(self).wf(),
            final(self)@.addresses == old(self)@.addresses,
            final(self)@.capacity == old(self)@.capacity,
            (r is Launch) == (old(self)@.launched < old(self)@.slots.len() && old(self)@.in_flight
                < old(self)@.capacity),
            (r is Done) == old(self)@.finished(),
            r is Launch ==> {
                &&& r->0 == old(self)@.launched
                &&& final(self)@.slots == old(self)@.slots.update(r->0 as int, Slot::Probing)
                &&& final(self)@.launched == old(self)@.launched + 1
                &&& final(self)@.in_flight == old(self)@.in_flight + 1
            },
            r is Wait ==> final(self)@ == old(self)@ && old(self)@.in_flight >= 1,
            r is Done ==> final(self)@ == old(self)@,
    {
        if self.next == self.slots.len() {
            let done = self.is_finished();
            if done {
                Step::Done
            } else {
                proof {
                    if self@.in_flight == 0 {
                        lemma_count_probing_zero(self@.slots);
                    }
                }
                Step::Wait
            }
        } else {
            proof {
                assert(self@.slots[self.next as int] is Pending);
            }
            let ghost before = self@;
            let admitted = self.limiter.try_acquire();
            if admitted {
                let i = self.next;
                proof {
                    lemma_count_probing_update(self@.slots, i as int, Slot::Probing);
                }
                self.slots.set(i, Slot::Probing);
                self.next = i + 1;
                assert(self@.slots =~= before.slots.update(i as int, Slot::Probing));
                Step::Launch(i)
            } else {
                Step::Wait
            }
        }
    }

    /// Records how the probe of the address at `index` ended and returns its
    /// permit.
    pub fn complete(&mut self, index: usize, outcome: ProbeOutcome)
        requires
            old(self).wf(),
            index < old(self)@.slots.len(),
            old(self)@.slots[index as int] is Probing,
        ensures
            final(self).wf(),
            final(self)@.addresses == old(self)@.addresses,
            final(self)@.capacity == old(self)@.capacity,
            final(self)@.launched == old(self)@.launched,
            final(self)@.in_flight + 1 == old(self)@.in_flight,
            final(self)@.slots == old(self)@.slots.update(
                index as int,
                if outcome == ProbeOutcome::Connected { Slot::Reachable } else { Slot::Unreachable },
            ),
    {
        let slot = if outcome.is_reachable() { Slot::Reachable } else { Slot::Unreachable };
        self.finish_slot(index, slot);
    }

    /// Records that the task probing the address at `index` did not run to the
    /// end, and returns its permit. The address counts as not reachable.
    pub fn fail(&mut self, index: usize)
        requires
            old(self).wf(),
            index < old(self)@.slots.len(),
            old(self)@.slots[index as int] is Probing,
        ensures
            final(self).wf(),
            final(self)@.addresses == old(self)@.addresses,
            final(self)@.capacity == old(self)@.capacity,
            final(self)@.launched == old(self)@.launched,
            final(self)@.in_flight + 1 == old(self)@.in_flight,
            final(self)@.slots == old(self)@.slots.update(index as int, Slot::Failed),
    {
        self.finish_slot(index, Slot::Failed);
    }

    fn finish_slot(&mut self, index: usize, slot: Slot)
        requires
            old(self).wf(),
            index < old(self)@.slots.len(),
            old(self)@.slots[index as int] is Probing,
            is_done(slot),
        ensures
            final(self).wf(),
            final(self)@.addresses == old(self)@.addresses,
            final(self)@.capacity == old(self)@.capacity,
            final(self)@.launched == old(self)@.launched,
            final(self)@.in_flight + 1 == old(self)@.in_flight,
            final(self)@.slots == old(self)@.slots.update(index as int, slot),
    {
        let ghost before = self@;
        proof {
            lemma_count_probing_update(self@.slots, index as int, slot);
            if (index as nat) >= self@.launched {
                assert(self@.slots[index as int] is Pending);
            }
        }
        self.slots.set(index, slot);
        self.limiter.release();
        assert(self@.slots =~= before.slots.update(index as int, slot));
    }

    /// The addresses whose probe connected, in input order, repeats kept.
    pub fn online(&self) -> (r: Vec<String>)
        requires
            self.wf(),
        ensures
            r@ == self@.online(),
    {
        let mut r: Vec<String> = Vec::new();
        let n = self.slots.len();
        let mut i: usize = 0;
        while i < n
            invariant
                self.wf(),
                n == self@.slots.len(),
                i <= n,
                r@ == online_of(self@.addresses.take(i as int), self@.slots.take(i as int)),
            decreases n - i,
        {
            let ghost a = self@.addresses.take(i as int + 1);
            let ghost s = self@.slots.take(i as int + 1);
            assert(a.drop_last() =~= self@.addresses.take(i as int));
            assert(s.drop_last() =~= self@.slots.take(i as int));
            if self.slots[i] == Slot::Reachable {
                r.push(self.addresses[i].clone());
            }
            i = i + 1;
        }
        assert(self@.addresses.take(n as int) =~= self@.addresses);
        assert(self@.slots.take(n as int) =~= self@.slots);
        r
    }
}

proof fn lemma_count_probing_nonzero(s: Seq<Slot>)
    requires
        count_probing(s) > 0,
    ensures
        exists|i: int| 0 <= i < s.len() && #[trigger] s[i] is Probing,
    decreases s.len(),
{
    if !(s.last() is Probing) {
        lemma_count_probing_nonzero(s.drop_last());
        let i = choose|i: int| 0 <= i < s.drop_last().len() && #[trigger] s.drop_last()[i] is Probing;
        assert(s[i] is Probing);
    } else {
        assert(s[s.len() - 1] is Probing);
    }
}

} // verus!
