use vstd::prelude::*;

verus! {

/// Largest number of semaphores that may be live at once.
pub const MAX_SEMAPHORES: usize = 64;

/// Timeout that never expires: `semphr_take` with it waits until a unit is free.
pub const WAIT_FOREVER: u32 = 0xffff_ffff;

/// A counting semaphore: `count` free units, never more than `max`.
#[derive(Clone, Copy, Debug, PartialEq, Eq, Structural)]
pub struct Semaphore {
    pub max: u32,
    pub count: u32,
}

impl Semaphore {
    pub open spec fn wf(self) -> bool {
        self.count <= self.max
    }

    /// The state after one attempt to take a unit, and whether it succeeded.
    pub open spec fn take_spec(self) -> (Semaphore, bool) {
        if self.count > 0 {
            (Semaphore { max: self.max, count: (self.count - 1) as u32 }, true)
        } else {
            (self, false)
        }
    }

    /// The state after one attempt to return a unit, and whether it succeeded.
    pub open spec fn give_spec(self) -> (Semaphore, bool) {
        if self.count < self.max {
            (Semaphore { max: self.max, count: (self.count + 1) as u32 }, true)
        } else {
            (self, false)
        }
    }

    pub fn new(max: u32, init: u32) -> (s: Semaphore)
        requires
            init <= max,
        ensures
            s.wf(),
            s.max == max,
            s.count == init,
    {
        Semaphore { max, count: init }
    }

    /// Takes one unit if there is one; never waits.
    pub fn try_take(&mut self) -> (r: bool)
        ensures
            (*final(self), r) == old(self).take_spec(),
    {
        if self.count > 0 {
            self.count = self.count - 1;
            true
        } else {
            false
        }
    }

    /// Returns one unit unless the count already stands at `max`.
    pub fn give(&mut self) -> (r: bool)
        ensures
            (*final(self), r) == old(self).give_spec(),
    {
        if self.count < self.max {
            self.count = self.count + 1;
            true
        } else {
            false
        }
    }
}

/// The state after `n` attempts to take, one after the other.
pub open spec fn take_n(s: Semaphore, n: nat) -> Semaphore
    decreases n,
{
    if n == 0 {
        s
    } else {
        take_n(s, (n - 1) as nat).take_spec().0
    }
}

/// Runs a sequence of operations, `true` a give and `false` a take.
pub open spec fn run(s: Semaphore, ops: Seq<bool>) -> Semaphore
    decreases ops.len(),
{
    if ops.len() == 0 {
        s
    } else {
        let p = run(s, ops.drop_last());
        if ops.last() {
            p.give_spec().0
        } else {
            p.take_spec().0
        }
    }
}

/// How many gives of `ops` succeeded.
pub open spec fn granted_gives(s: Semaphore, ops: Seq<bool>) -> nat
    decreases ops.len(),
{
    if ops.len() == 0 {
        0
    } else {
        let p = run(s, ops.drop_last());
        let n = granted_gives(s, ops.drop_last());
        if ops.last() && p.give_spec().1 {
            n + 1
        } else {
            n
        }
    }
}

/// How many takes of `ops` succeeded.
pub open spec fn granted_takes(s: Semaphore, ops: Seq<bool>) -> nat
    decreases ops.len(),
{
    if ops.len() == 0 {
        0
    } else {
        let p = run(s, ops.drop_last());
        let n = granted_takes(s, ops.drop_last());
        if !ops.last() && p.take_spec().1 {
            n + 1
        } else {
            n
        }
    }
}

proof fn lemma_take_n_count(s: Semaphore, n: nat)
    requires
        n <= s.count,
    ensures
        take_n(s, n) == (Semaphore { max: s.max, count: (s.count - n) as u32 }),
    decreases n,
{
    if n > 0 {
        lemma_take_n_count(s, (n - 1) as nat);
    }
}

/// Takes succeed exactly `count` times in a row, and the next one fails.
pub proof fn lemma_takes_succeed_count_times(s: Semaphore)
    ensures
        forall|k: nat| k < s.count ==> (#[trigger] take_n(s, k)).take_spec().1,
        !take_n(s, s.count as nat).take_spec().1,
{
    assert forall|k: nat| k < s.count implies (#[trigger] take_n(s, k)).take_spec().1 by {
        lemma_take_n_count(s, k);
    }
    lemma_take_n_count(s, s.count as nat);
}

/// A fresh semaphore holds `init` units, and takes succeed exactly `init` times
/// before one has to wait.
pub proof fn lemma_fresh_semaphore(max: u32, init: u32)
    requires
        init <= max,
    ensures
        (Semaphore { max, count: init }).wf(),
        forall|k: nat| k < init ==> (#[trigger] take_n(Semaphore { max, count: init }, k)).take_spec().1,
        !take_n(Semaphore { max, count: init }, init as nat).take_spec().1,
{
    lemma_takes_succeed_count_times(Semaphore { max, count: init });
}

/// A give never raises the count above the maximum.
pub proof fn lemma_give_bounded(s: Semaphore)
    requires
        s.wf(),
    ensures
        s.give_spec().0.wf(),
        s.give_spec().0.max == s.max,
{
}

/// No unit is lost: after any sequence of gives and takes, the count is the
/// starting count plus the gives that succeeded less the takes that succeeded,
/// and that many further takes succeed one after the other.
pub proof fn lemma_no_lost_wakeup(s: Semaphore, ops: Seq<bool>)
    requires
        s.wf(),
    ensures
        run(s, ops).wf(),
        run(s, ops).max == s.max,
        run(s, ops).count + granted_takes(s, ops) == s.count + granted_gives(s, ops),
        forall|k: nat|
            k < s.count + granted_gives(s, ops) - granted_takes(s, ops) ==> (#[trigger] take_n(
                run(s, ops),
                k,
            )).take_spec().1,
    decreases ops.len(),
{
    if ops.len() > 0 {
        lemma_no_lost_wakeup(s, ops.drop_last());
    }
    lemma_takes_succeed_count_times(run(s, ops));
}

/// What one round of a waiting take decided.
#[derive(Clone, Copy, Debug, PartialEq, Eq, Structural)]
pub enum TakeStep {
    /// A unit was taken.
    Acquired,
    /// The wait is over without a unit: the timeout passed, or the handle names no semaphore.
    Expired,
    /// No unit yet: wait a little and ask again.
    Pending,
}

/// The live semaphores, each under a handle: its slot's index plus one.
/// Handle 0 is never given out.
pub struct SemaphoreTable {
    slots: Vec<Option<Semaphore>>,
}

impl View for SemaphoreTable {
    type V = Seq<Option<Semaphore>>;

    closed spec fn view(&self) -> Seq<Option<Semaphore>> {
        self.slots@
    }
}

impl SemaphoreTable {
    pub open spec fn wf(&self) -> bool {
        &&& self@.len() <= MAX_SEMAPHORES
        &&& forall|i: int| 0 <= i < self@.len() && #[trigger] self@[i] is Some ==> self@[i]->Some_0.wf()
    }

    /// Whether `h` names a live semaphore.
    pub open spec fn live(&self, h: usize) -> bool {
        1 <= h <= self@.len() && self@[h - 1] is Some
    }

    /// The semaphore that `h` names.
    pub open spec fn sem(&self, h: usize) -> Semaphore {
        self@[h - 1]->Some_0
    }

    pub fn new() -> (t: SemaphoreTable)
        ensures
            t.wf(),
            t@ == Seq::<Option<Semaphore>>::empty(),
    {
        SemaphoreTable { slots: Vec::new() }
    }

    /// Creates a semaphore holding `init` of at most `max` units, in the first free
    /// slot. Returns its handle, or 0 where `init > max` or every slot is taken.
    pub fn semphr_create(&mut self, max: u32, init: u32) -> (h: usize)
        requires
            old(self).wf(),
        ensures
            final(self).wf(),
            h == 0 <==> (init > max || (old(self)@.len() == MAX_SEMAPHORES && forall|j: int|
                0 <= j < old(self)@.len() ==> #[trigger] old(self)@[j] is Some)),
            h == 0 ==> final(self)@ == old(self)@,
            h != 0 ==> {
                &&& forall|j: int| 0 <= j < h - 1 ==> #[trigger] old(self)@[j] is Some
                &&& h - 1 < old(self)@.len() ==> old(self)@[h - 1] is None
                &&& h - 1 <= old(self)@.len()
                &&& final(self)@ == if h - 1 < old(self)@.len() {
                    old(self)@.update(h - 1, Some(Semaphore { max, count: init }))
                } else {
                    old(self)@.push(Some(Semaphore { max, count: init }))
                }
            },
    {
        if init > max {
            return 0;
        }
        let s = Semaphore::new(max, init);
        let mut i: usize = 0;
        while i < self.slots.len()
            invariant
                i <= self.slots@.len(),
                self.slots@ == old(self)@,
                old(self).wf(),
                s == (Semaphore { max, count: init }),
                init <= max,
                forall|j: int| 0 <= j < i ==> #[trigger] self.slots@[j] is Some,
            decreases self.slots@.len() - i,
        {
            if self.slots[i].is_none() {
                assert(old(self)@[i as int] is None);
                self.slots[i] = Some(s);
                assert(self@ == old(self)@.update(i as int, Some(s)));
                return i + 1;
            }
            i = i + 1;
        }
        if self.slots.len() < MAX_SEMAPHORES {
            self.slots.push(Some(s));
            self.slots.len()
        } else {
            0
        }
    }

    /// Deletes the semaphore that `h` names; a handle that names none is ignored.
    pub fn semphr_delete(&mut self, h: usize)
        requires
            old(self).wf(),
        ensures
            final(self).wf(),
            final(self)@ == if old(self).live(h) {
                old(self)@.update(h - 1, None)
            } else {
                old(self)@
            },
    {
        if h >= 1 && h <= self.slots.len() && self.slots[h - 1].is_some() {
            self.slots[h - 1] = None;
        }
    }

    /// One round of a take that waits at most `tick` ticks, `waited` ticks into the
    /// wait: takes a unit if there is one, else says whether to go on waiting.
    pub fn semphr_take(&mut self, h: usize, tick: u32, waited: u32) -> (r: TakeStep)
        requires
            old(self).wf(),
        ensures
            final(self).wf(),
            old(self).live(h) && old(self).sem(h).count > 0 ==> r == TakeStep::Acquired
                && final(self)@ == old(self)@.update(h - 1, Some(old(self).sem(h).take_spec().0)),
            !(old(self).live(h) && old(self).sem(h).count > 0) ==> final(self)@ == old(self)@ && r
                == if !old(self).live(h) || (tick != WAIT_FOREVER && waited >= tick) {
                TakeStep::Expired
            } else {
                TakeStep::Pending
            },
    {
        if h == 0 || h > self.slots.len() {
            return TakeStep::Expired;
        }
        match self.slots[h - 1] {
            None => TakeStep::Expired,
            Some(s) => {
                let mut s = s;
                if s.try_take() {
                    self.slots[h - 1] = Some(s);
                    TakeStep::Acquired
                } else if tick != WAIT_FOREVER && waited >= tick {
                    TakeStep::Expired
                } else {
                    TakeStep::Pending
                }
            },
        }
    }

    /// Returns a unit to the semaphore that `h` names: 1 where the count rose,
    /// 0 where it already stood at its maximum or `h` names no semaphore.
    pub fn semphr_give(&mut self, h: usize) -> (r: i32)
        requires
            old(self).wf(),
        ensures
            final(self).wf(),
            old(self).live(h) ==> final(self)@ == old(self)@.update(
                h - 1,
                Some(old(self).sem(h).give_spec().0),
            ) && r == if old(self).sem(h).give_spec().1 {
                1i32
            } else {
                0i32
            },
            !old(self).live(h) ==> final(self)@ == old(self)@ && r == 0,
    {
        if h == 0 || h > self.slots.len() {
            return 0;
        }
        match self.slots[h - 1] {
            None => 0,
            Some(s) => {
                let mut s = s;
                let ok = s.give();
                self.slots[h - 1] = Some(s);
                if ok {
                    1
                } else {
                    0
                }
            },
        }
    }
}

} // verus!
