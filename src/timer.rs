use vstd::prelude::*;

verus! {

/// Largest number of timers that may be known at once.
pub const MAX_TIMERS: usize = 32;

/// Status of an `esp_timer_*` call that succeeded.
pub const ESP_OK: i32 = 0;

/// Status of `esp_timer_create` when every slot holds a timer.
pub const ESP_ERR_NO_MEM: i32 = 0x101;

/// Status of an `esp_timer_*` call on a handle that names no timer.
pub const ESP_ERR_INVALID_ARG: i32 = 0x102;

/// One software timer: the caller's handle for it, the callback and its
/// argument (both opaque tokens), and its schedule in microseconds.
#[derive(Clone, Copy, Debug, PartialEq, Eq, Structural)]
pub struct Timer {
    pub id: usize,
    pub callback: usize,
    pub arg: usize,
    pub armed: bool,
    pub repeat: bool,
    pub period_us: u64,
    pub deadline_us: u64,
}

/// `a + b`, or `u64::MAX` where the sum does not fit.
pub open spec fn sat_add(a: u64, b: u64) -> u64 {
    if a + b > u64::MAX {
        u64::MAX
    } else {
        (a + b) as u64
    }
}

fn add_saturating(a: u64, b: u64) -> (r: u64)
    ensures
        r == sat_add(a, b),
{
    if a > u64::MAX - b {
        u64::MAX
    } else {
        a + b
    }
}

/// A timer that has just been given its callback: not armed.
pub open spec fn setfn_spec(id: usize, callback: usize, arg: usize) -> Timer {
    Timer { id, callback, arg, armed: false, repeat: false, period_us: 0, deadline_us: 0 }
}

/// The timer armed at `now_us` to fire `delay_us` later, and every `delay_us`
/// after that where `repeat` holds. Any earlier schedule is replaced.
pub open spec fn arm_spec(t: Timer, now_us: u64, delay_us: u64, repeat: bool) -> Timer {
    Timer {
        armed: true,
        repeat,
        period_us: delay_us,
        deadline_us: sat_add(now_us, delay_us),
        ..t
    }
}

/// The timer with no firing pending.
pub open spec fn disarm_spec(t: Timer) -> Timer {
    Timer { armed: false, ..t }
}

/// The timer after it is looked at `now_us`, and whether it fires then. A one-shot
/// timer that fires is disarmed; a repeating one is scheduled a period later.
pub open spec fn poll_spec(t: Timer, now_us: u64) -> (Timer, bool) {
    if t.armed && t.deadline_us <= now_us {
        if t.repeat {
            (Timer { deadline_us: sat_add(now_us, t.period_us), ..t }, true)
        } else {
            (Timer { armed: false, ..t }, true)
        }
    } else {
        (t, false)
    }
}

/// The timer after it is looked at, at each of `times` in turn.
pub open spec fn poll_run(t: Timer, times: Seq<u64>) -> Timer
    decreases times.len(),
{
    if times.len() == 0 {
        t
    } else {
        poll_run(poll_spec(t, times[0]).0, times.skip(1))
    }
}

/// How often the timer fires when it is looked at, at each of `times` in turn.
pub open spec fn fires(t: Timer, times: Seq<u64>) -> nat
    decreases times.len(),
{
    if times.len() == 0 {
        0
    } else {
        let (t2, fired) = poll_spec(t, times[0]);
        (if fired {
            1nat
        } else {
            0nat
        }) + fires(t2, times.skip(1))
    }
}

/// Whether one of `times` is at or after `deadline`.
pub open spec fn reaches(times: Seq<u64>, deadline: u64) -> bool {
    exists|i: int| 0 <= i < times.len() && #[trigger] times[i] >= deadline
}

/// A timer that is not armed never fires and stays as it is.
pub proof fn lemma_disarmed_never_fires(t: Timer, times: Seq<u64>)
    requires
        !t.armed,
    ensures
        fires(t, times) == 0,
        poll_run(t, times) == t,
    decreases times.len(),
{
    if times.len() > 0 {
        lemma_disarmed_never_fires(t, times.skip(1));
    }
}

proof fn lemma_armed_one_shot(t: Timer, times: Seq<u64>)
    requires
        t.armed,
        !t.repeat,
    ensures
        fires(t, times) == if reaches(times, t.deadline_us) {
            1nat
        } else {
            0nat
        },
        !poll_run(t, times).armed <==> reaches(times, t.deadline_us),
    decreases times.len(),
{
    if times.len() > 0 {
        let rest = times.skip(1);
        if times[0] >= t.deadline_us {
            lemma_disarmed_never_fires(poll_spec(t, times[0]).0, rest);
        } else {
            lemma_armed_one_shot(t, rest);
            if reaches(rest, t.deadline_us) {
                let i = choose|i: int| 0 <= i < rest.len() && #[trigger] rest[i] >= t.deadline_us;
                assert(times[i + 1] >= t.deadline_us);
            }
            if reaches(times, t.deadline_us) {
                let i = choose|i: int| 0 <= i < times.len() && #[trigger] times[i] >= t.deadline_us;
                assert(rest[i - 1] >= t.deadline_us);
            }
        }
    }
}

/// A timer armed once, `delay_us` after `now_us`, fires exactly once over any
/// series of looks that reaches its deadline, which is no earlier than
/// `now_us + delay_us` unless that sum passes `u64::MAX`, and never otherwise;
/// once it has fired it is disarmed.
pub proof fn lemma_one_shot_fires_once(t: Timer, now_us: u64, delay_us: u64, times: Seq<u64>)
    ensures
        arm_spec(t, now_us, delay_us, false).deadline_us == sat_add(now_us, delay_us),
        fires(arm_spec(t, now_us, delay_us, false), times) == if reaches(
            times,
            sat_add(now_us, delay_us),
        ) {
            1nat
        } else {
            0nat
        },
        !poll_run(arm_spec(t, now_us, delay_us, false), times).armed <==> reaches(
            times,
            sat_add(now_us, delay_us),
        ),
{
    lemma_armed_one_shot(arm_spec(t, now_us, delay_us, false), times);
}

/// A repeating timer stays armed however often it is looked at, fires at every
/// look at or after its deadline, and then waits a full period again.
pub proof fn lemma_repeating_fires_periodically(t: Timer, times: Seq<u64>)
    requires
        t.armed,
        t.repeat,
    ensures
        poll_run(t, times).armed,
        poll_run(t, times).repeat,
        poll_run(t, times).period_us == t.period_us,
        forall|now_us: u64|
            now_us >= t.deadline_us ==> #[trigger] poll_spec(t, now_us) == (
            Timer { deadline_us: sat_add(now_us, t.period_us), ..t },
            true,
        ),
    decreases times.len(),
{
    if times.len() > 0 {
        lemma_repeating_fires_periodically(poll_spec(t, times[0]).0, times.skip(1));
    }
}

/// `x`, or `u64::MAX` where `x` is larger.
pub open spec fn capped(x: int) -> int {
    if x > u64::MAX {
        u64::MAX as int
    } else {
        x
    }
}

/// The times among `times` at which the timer fires, when it is looked at, at
/// each of them in turn.
pub open spec fn fire_times(t: Timer, times: Seq<u64>) -> Seq<u64>
    decreases times.len(),
{
    if times.len() == 0 {
        seq![]
    } else {
        let (t2, fired) = poll_spec(t, times[0]);
        let rest = fire_times(t2, times.skip(1));
        if fired {
            seq![times[0]] + rest
        } else {
            rest
        }
    }
}

proof fn lemma_fire_times_len(t: Timer, times: Seq<u64>)
    ensures
        fire_times(t, times).len() == fires(t, times),
    decreases times.len(),
{
    if times.len() > 0 {
        lemma_fire_times_len(poll_spec(t, times[0]).0, times.skip(1));
    }
}

proof fn lemma_first_fire_at_deadline(t: Timer, times: Seq<u64>)
    ensures
        fire_times(t, times).len() > 0 ==> fire_times(t, times)[0] >= t.deadline_us,
    decreases times.len(),
{
    if times.len() > 0 {
        let (t2, fired) = poll_spec(t, times[0]);
        if !fired {
            lemma_first_fire_at_deadline(t2, times.skip(1));
        }
    }
}

/// A one-shot timer armed at `now_us` never fires before `now_us + delay_us`
/// (before `u64::MAX` where that sum does not fit), and fires at most once.
pub proof fn lemma_one_shot_never_early(t: Timer, now_us: u64, delay_us: u64, times: Seq<u64>)
    ensures
        fire_times(arm_spec(t, now_us, delay_us, false), times).len() <= 1,
        forall|k: int|
            0 <= k < fire_times(arm_spec(t, now_us, delay_us, false), times).len() ==> #[trigger] fire_times(
                arm_spec(t, now_us, delay_us, false),
                times,
            )[k] >= capped(now_us + delay_us),
{
    let a = arm_spec(t, now_us, delay_us, false);
    lemma_armed_one_shot(a, times);
    lemma_fire_times_len(a, times);
    lemma_first_fire_at_deadline(a, times);
}

proof fn lemma_repeating_gaps(t: Timer, times: Seq<u64>)
    requires
        t.armed,
        t.repeat,
    ensures
        forall|k: int|
            0 <= k < fire_times(t, times).len() - 1 ==> #[trigger] fire_times(t, times)[k + 1]
                >= capped(fire_times(t, times)[k] + t.period_us),
    decreases times.len(),
{
    if times.len() > 0 {
        let (t2, fired) = poll_spec(t, times[0]);
        let rest = times.skip(1);
        lemma_repeating_gaps(t2, rest);
        if fired {
            lemma_first_fire_at_deadline(t2, rest);
            let ft = fire_times(t, times);
            let fr = fire_times(t2, rest);
            assert(ft == seq![times[0]] + fr);
            assert forall|k: int| 0 <= k < ft.len() - 1 implies #[trigger] ft[k + 1] >= capped(
                ft[k] + t.period_us,
            ) by {
                if k > 0 {
                    assert(ft[k + 1] == fr[k] && ft[k] == fr[k - 1]);
                    assert(fr[(k - 1) + 1] >= capped(fr[k - 1] + t2.period_us));
                } else {
                    assert(ft[1] == fr[0] && ft[0] == times[0]);
                    assert(t2.deadline_us == sat_add(times[0], t.period_us));
                }
            }
        }
    }
}

proof fn lemma_kth_fire(ft: Seq<u64>, start: int, period: u64, k: int)
    requires
        0 <= k < ft.len(),
        ft.len() > 0 ==> ft[0] >= capped(start + period),
        forall|j: int| 0 <= j < ft.len() - 1 ==> #[trigger] ft[j + 1] >= capped(ft[j] + period),
    ensures
        ft[k] >= capped(start + (k + 1) * period),
    decreases k,
{
    if k > 0 {
        lemma_kth_fire(ft, start, period, k - 1);
        assert((k - 1 + 1) * period == k * period);
        assert((k + 1) * period == k * period + period) by (nonlinear_arith);
        assert(ft[k - 1] >= capped(start + k * period));
        assert(ft[(k - 1) + 1] >= capped(ft[k - 1] + period));
        assert(ft[k] >= capped(start + k * period + period));
    } else {
        assert((k + 1) * period == period);
    }
}

/// A repeating timer armed at `now_us` with period `delay_us` fires at most once
/// per period: its `k`-th firing (from 0) comes no earlier than
/// `now_us + (k + 1) * delay_us` (than `u64::MAX` where that does not fit), and
/// each firing comes at least a period after the one before.
pub proof fn lemma_repeating_once_per_period(t: Timer, now_us: u64, delay_us: u64, times: Seq<u64>)
    ensures
        forall|k: int|
            0 <= k < fire_times(arm_spec(t, now_us, delay_us, true), times).len() ==> #[trigger] fire_times(
                arm_spec(t, now_us, delay_us, true),
                times,
            )[k] >= capped(now_us + (k + 1) * delay_us),
        forall|k: int|
            0 <= k < fire_times(arm_spec(t, now_us, delay_us, true), times).len() - 1
                ==> #[trigger] fire_times(arm_spec(t, now_us, delay_us, true), times)[k + 1] >= capped(
                fire_times(arm_spec(t, now_us, delay_us, true), times)[k] + delay_us,
            ),
{
    let a = arm_spec(t, now_us, delay_us, true);
    let ft = fire_times(a, times);
    lemma_repeating_gaps(a, times);
    lemma_first_fire_at_deadline(a, times);
    assert forall|k: int| 0 <= k < ft.len() implies #[trigger] ft[k] >= capped(
        now_us + (k + 1) * delay_us,
    ) by {
        lemma_kth_fire(ft, now_us as int, delay_us, k);
    }
}

/// After a disarm, a timer fires no more, whatever it was before.
pub proof fn lemma_no_firing_after_disarm(t: Timer, times: Seq<u64>)
    ensures
        fires(disarm_spec(t), times) == 0,
{
    lemma_disarmed_never_fires(disarm_spec(t), times);
}

/// Whether a slot holds the timer with handle `id`.
pub open spec fn holds(o: Option<Timer>, id: usize) -> bool {
    o is Some && o->Some_0.id == id
}

/// A slot after it is looked at `now_us`, and whether its timer fires.
pub open spec fn poll_slot(o: Option<Timer>, now_us: u64) -> (Option<Timer>, bool) {
    match o {
        Some(t) => (Some(poll_spec(t, now_us).0), poll_spec(t, now_us).1),
        None => (None, false),
    }
}

/// The callbacks, with their arguments, that fire when `slots` are looked at
/// `now_us`, in slot order.
pub open spec fn fired_seq(slots: Seq<Option<Timer>>, now_us: u64) -> Seq<(usize, usize)>
    decreases slots.len(),
{
    if slots.len() == 0 {
        seq![]
    } else {
        let p = fired_seq(slots.drop_last(), now_us);
        let o = slots.last();
        if poll_slot(o, now_us).1 {
            p.push((o->Some_0.callback, o->Some_0.arg))
        } else {
            p
        }
    }
}

/// Whether `k` is the first slot of `s` without a timer, or `s.len()` where
/// every slot holds one.
pub open spec fn is_first_free(s: Seq<Option<Timer>>, k: int) -> bool {
    &&& 0 <= k <= s.len()
    &&& forall|j: int| 0 <= j < k ==> #[trigger] s[j] is Some
    &&& k < s.len() ==> s[k] is None
}

/// `s` with `t` put in slot `k`, or added at the end where `k` is `s.len()`.
pub open spec fn place(s: Seq<Option<Timer>>, k: int, t: Timer) -> Seq<Option<Timer>> {
    if k < s.len() {
        s.update(k, Some(t))
    } else {
        s.push(Some(t))
    }
}

/// The known timers, each under the handle that its owner gave it.
pub struct TimerTable {
    slots: Vec<Option<Timer>>,
}

impl View for TimerTable {
    type V = Seq<Option<Timer>>;

    closed spec fn view(&self) -> Seq<Option<Timer>> {
        self.slots@
    }
}

impl TimerTable {
    /// At most `MAX_TIMERS` slots, and no handle in two of them.
    pub open spec fn wf(&self) -> bool {
        &&& self@.len() <= MAX_TIMERS
        &&& forall|i: int, j: int|
            0 <= i < self@.len() && 0 <= j < self@.len() && i != j && #[trigger] self@[i] is Some
                && #[trigger] self@[j] is Some ==> self@[i]->Some_0.id != self@[j]->Some_0.id
    }

    /// Whether every one of the `MAX_TIMERS` slots holds a timer.
    pub open spec fn full(&self) -> bool {
        &&& self@.len() == MAX_TIMERS
        &&& forall|j: int| 0 <= j < self@.len() ==> #[trigger] self@[j] is Some
    }

    /// Whether a timer with handle `id` is known.
    pub open spec fn known(&self, id: usize) -> bool {
        exists|j: int| 0 <= j < self@.len() && holds(#[trigger] self@[j], id)
    }

    pub fn new() -> (t: TimerTable)
        ensures
            t.wf(),
            t@ == Seq::<Option<Timer>>::empty(),
    {
        TimerTable { slots: Vec::new() }
    }

    /// Applies `op` to the timer with handle `id`, in every slot that holds it.
    /// Returns whether one did.
    fn update_where(&mut self, id: usize, op: TimerOp) -> (found: bool)
        requires
            old(self).wf(),
        ensures
            final(self).wf(),
            found == old(self).known(id),
            final(self)@.len() == old(self)@.len(),
            forall|j: int|
                0 <= j < old(self)@.len() ==> #[trigger] final(self)@[j] == if holds(
                    old(self)@[j],
                    id,
                ) {
                    op.apply(old(self)@[j]->Some_0)
                } else {
                    old(self)@[j]
                },
    {
        let mut found = false;
        let mut i: usize = 0;
        while i < self.slots.len()
            invariant
                i <= self.slots@.len(),
                self.slots@.len() == old(self)@.len(),
                old(self).wf(),
                self.wf(),
                found <==> exists|j: int| 0 <= j < i && holds(#[trigger] old(self)@[j], id),
                forall|j: int|
                    0 <= j < i ==> #[trigger] self.slots@[j] == if holds(old(self)@[j], id) {
                        op.apply(old(self)@[j]->Some_0)
                    } else {
                        old(self)@[j]
                    },
                forall|j: int| i <= j < self.slots@.len() ==> #[trigger] self.slots@[j] == old(self)@[j],
            decreases self.slots@.len() - i,
        {
            match self.slots[i] {
                Some(t) => {
                    if t.id == id {
                        let t2 = op.exec_apply(t);
                        self.slots[i] = t2;
                        found = true;
                    }
                },
                None => {},
            }
            i = i + 1;
        }
        found
    }

    /// Gives the timer with handle `id` its callback and argument; a timer not yet
    /// known is added, not armed, in the first free slot. Returns false, and
    /// changes nothing, where it is not known and every slot holds a timer.
    pub fn timer_setfn(&mut self, id: usize, callback: usize, arg: usize) -> (ok: bool)
        requires
            old(self).wf(),
        ensures
            final(self).wf(),
            old(self).known(id) ==> ok && final(self)@ == old(self)@.map_values(
                |o: Option<Timer>|
                    if holds(o, id) {
                        Some(Timer { callback, arg, ..o->Some_0 })
                    } else {
                        o
                    },
            ),
            !old(self).known(id) ==> {
                &&& ok <==> !old(self).full()
                &&& ok ==> exists|k: int|
                    is_first_free(old(self)@, k) && final(self)@ == #[trigger] place(
                        old(self)@,
                        k,
                        setfn_spec(id, callback, arg),
                    )
                &&& !ok ==> final(self)@ == old(self)@
            },
    {
        let found = self.update_where(id, TimerOp::SetFn { callback, arg });
        if found {
            assert(self@ =~= old(self)@.map_values(
                |o: Option<Timer>|
                    if holds(o, id) {
                        Some(Timer { callback, arg, ..o->Some_0 })
                    } else {
                        o
                    },
            ));
            return true;
        }
        assert(self@ =~= old(self)@);
        let t = Timer { id, callback, arg, armed: false, repeat: false, period_us: 0, deadline_us: 0 };
        let mut k: usize = 0;
        while k < self.slots.len() && self.slots[k].is_some()
            invariant
                k <= self.slots@.len(),
                self.slots@ == old(self)@,
                forall|j: int| 0 <= j < k ==> #[trigger] self.slots@[j] is Some,
            decreases self.slots@.len() - k,
        {
            k = k + 1;
        }
        if k == self.slots.len() && k >= MAX_TIMERS {
            return false;
        }
        assert(is_first_free(old(self)@, k as int));
        assert(!old(self).full()) by {
            if k < old(self)@.len() {
                assert(old(self)@[k as int] is None);
            }
        }
        assert(t == setfn_spec(id, callback, arg));
        if k < self.slots.len() {
            self.slots[k] = Some(t);
        } else {
            self.slots.push(Some(t));
        }
        assert(self@ =~= place(old(self)@, k as int, t));
        assert forall|i: int, j: int|
            0 <= i < self@.len() && 0 <= j < self@.len() && i != j && #[trigger] self@[i] is Some
                && #[trigger] self@[j] is Some implies self@[i]->Some_0.id != self@[j]->Some_0.id by {
            if i != k && j != k {
                assert(old(self)@[i] == self@[i] && old(self)@[j] == self@[j]);
            } else if i != k {
                assert(old(self)@[i] == self@[i]);
                assert(!holds(old(self)@[i], id));
            } else {
                assert(old(self)@[j] == self@[j]);
                assert(!holds(old(self)@[j], id));
            }
        }
        true
    }

    /// Arms the timer with handle `id` to fire `delay_us` after `now_us`, and every
    /// `delay_us` after that where `repeat` holds, replacing any earlier schedule.
    /// Returns whether the timer is known; an unknown one is ignored.
    fn arm_at(&mut self, id: usize, delay_us: u64, repeat: bool, now_us: u64) -> (found: bool)
        requires
            old(self).wf(),
        ensures
            final(self).wf(),
            found == old(self).known(id),
            final(self)@ == old(self)@.map_values(
                |o: Option<Timer>|
                    if holds(o, id) {
                        Some(arm_spec(o->Some_0, now_us, delay_us, repeat))
                    } else {
                        o
                    },
            ),
    {
        let found = self.update_where(id, TimerOp::Arm { now_us, delay_us, repeat });
        assert(self@ =~= old(self)@.map_values(
            |o: Option<Timer>|
                if holds(o, id) {
                    Some(arm_spec(o->Some_0, now_us, delay_us, repeat))
                } else {
                    o
                },
        ));
        found
    }

    /// Arms the timer with handle `id` for `tmout` milliseconds from `now_us`.
    pub fn timer_arm(&mut self, id: usize, tmout: u32, repeat: bool, now_us: u64) -> (found: bool)
        requires
            old(self).wf(),
        ensures
            final(self).wf(),
            found == old(self).known(id),
            final(self)@ == old(self)@.map_values(
                |o: Option<Timer>|
                    if holds(o, id) {
                        Some(arm_spec(o->Some_0, now_us, (tmout * 1000) as u64, repeat))
                    } else {
                        o
                    },
            ),
    {
        self.arm_at(id, tmout as u64 * 1000, repeat, now_us)
    }

    /// Arms the timer with handle `id` for `us` microseconds from `now_us`.
    pub fn timer_arm_us(&mut self, id: usize, us: u32, repeat: bool, now_us: u64) -> (found: bool)
        requires
            old(self).wf(),
        ensures
            final(self).wf(),
            found == old(self).known(id),
            final(self)@ == old(self)@.map_values(
                |o: Option<Timer>|
                    if holds(o, id) {
                        Some(arm_spec(o->Some_0, now_us, us as u64, repeat))
                    } else {
                        o
                    },
            ),
    {
        self.arm_at(id, us as u64, repeat, now_us)
    }

    /// Cancels any pending firing of the timer with handle `id`; a timer that is
    /// not armed, or not known, is left as it is.
    pub fn timer_disarm(&mut self, id: usize) -> (found: bool)
        requires
            old(self).wf(),
        ensures
            final(self).wf(),
            found == old(self).known(id),
            final(self)@ == old(self)@.map_values(
                |o: Option<Timer>|
                    if holds(o, id) {
                        Some(disarm_spec(o->Some_0))
                    } else {
                        o
                    },
            ),
    {
        let found = self.update_where(id, TimerOp::Disarm);
        assert(self@ =~= old(self)@.map_values(
            |o: Option<Timer>|
                if holds(o, id) {
                    Some(disarm_spec(o->Some_0))
                } else {
                    o
                },
        ));
        found
    }

    /// Disarms the timer with handle `id` and forgets it.
    pub fn timer_done(&mut self, id: usize) -> (found: bool)
        requires
            old(self).wf(),
        ensures
            final(self).wf(),
            found == old(self).known(id),
            !final(self).known(id),
            final(self)@ == old(self)@.map_values(
                |o: Option<Timer>|
                    if holds(o, id) {
                        None
                    } else {
                        o
                    },
            ),
    {
        let found = self.update_where(id, TimerOp::Done);
        assert(self@ =~= old(self)@.map_values(
            |o: Option<Timer>|
                if holds(o, id) {
                    None
                } else {
                    o
                },
        ));
        found
    }

    /// Looks at every timer at `now_us`: each one due fires, a one-shot timer is
    /// disarmed and a repeating one scheduled a period later. Returns the callbacks
    /// with their arguments, in slot order, for the caller to run.
    pub fn poll(&mut self, now_us: u64) -> (fired: Vec<(usize, usize)>)
        requires
            old(self).wf(),
        ensures
            final(self).wf(),
            final(self)@ == old(self)@.map_values(|o: Option<Timer>| poll_slot(o, now_us).0),
            fired@ == fired_seq(old(self)@, now_us),
    {
        let mut fired: Vec<(usize, usize)> = Vec::new();
        let mut i: usize = 0;
        while i < self.slots.len()
            invariant
                i <= self.slots@.len(),
                self.slots@.len() == old(self)@.len(),
                old(self).wf(),
                self.wf(),
                fired@ == fired_seq(old(self)@.subrange(0, i as int), now_us),
                forall|j: int|
                    0 <= j < i ==> #[trigger] self.slots@[j] == poll_slot(old(self)@[j], now_us).0,
                forall|j: int| i <= j < self.slots@.len() ==> #[trigger] self.slots@[j] == old(self)@[j],
            decreases self.slots@.len() - i,
        {
            assert(old(self)@.subrange(0, i as int + 1).drop_last() =~= old(self)@.subrange(
                0,
                i as int,
            ));
            match self.slots[i] {
                Some(t) => {
                    if t.armed && t.deadline_us <= now_us {
                        fired.push((t.callback, t.arg));
                        if t.repeat {
                            let next = add_saturating(now_us, t.period_us);
                            self.slots[i] = Some(Timer { deadline_us: next, ..t });
                        } else {
                            self.slots[i] = Some(Timer { armed: false, ..t });
                        }
                    }
                },
                None => {},
            }
            i = i + 1;
        }
        assert(old(self)@.subrange(0, i as int) =~= old(self)@);
        assert(self@ =~= old(self)@.map_values(|o: Option<Timer>| poll_slot(o, now_us).0));
        fired
    }

    /// Adds a timer under handle `id` with its callback and argument, not armed.
    /// Returns `ESP_OK`, or `ESP_ERR_NO_MEM` where it is not yet known and every
    /// slot is taken.
    pub fn esp_timer_create(&mut self, id: usize, callback: usize, arg: usize) -> (status: i32)
        requires
            old(self).wf(),
        ensures
            final(self).wf(),
            status == if old(self).known(id) || !old(self).full() {
                ESP_OK
            } else {
                ESP_ERR_NO_MEM
            },
            old(self).known(id) ==> final(self)@ == old(self)@.map_values(
                |o: Option<Timer>|
                    if holds(o, id) {
                        Some(Timer { callback, arg, ..o->Some_0 })
                    } else {
                        o
                    },
            ),
            !old(self).known(id) && status == ESP_OK ==> exists|k: int|
                is_first_free(old(self)@, k) && final(self)@ == #[trigger] place(
                    old(self)@,
                    k,
                    setfn_spec(id, callback, arg),
                ),
            !old(self).known(id) && status != ESP_OK ==> final(self)@ == old(self)@,
    {
        if self.timer_setfn(id, callback, arg) {
            ESP_OK
        } else {
            ESP_ERR_NO_MEM
        }
    }

    /// Arms the timer with handle `id` to fire once, `timeout_us` after `now_us`.
    /// Returns `ESP_OK`, or `ESP_ERR_INVALID_ARG` where no such timer is known.
    pub fn esp_timer_start_once(&mut self, id: usize, timeout_us: u64, now_us: u64) -> (status: i32)
        requires
            old(self).wf(),
        ensures
            final(self).wf(),
            status == if old(self).known(id) {
                ESP_OK
            } else {
                ESP_ERR_INVALID_ARG
            },
            final(self)@ == old(self)@.map_values(
                |o: Option<Timer>|
                    if holds(o, id) {
                        Some(arm_spec(o->Some_0, now_us, timeout_us, false))
                    } else {
                        o
                    },
            ),
    {
        if self.arm_at(id, timeout_us, false, now_us) {
            ESP_OK
        } else {
            ESP_ERR_INVALID_ARG
        }
    }

    /// Disarms the timer with handle `id`. Returns `ESP_OK`, or
    /// `ESP_ERR_INVALID_ARG` where no such timer is known.
    pub fn esp_timer_stop(&mut self, id: usize) -> (status: i32)
        requires
            old(self).wf(),
        ensures
            final(self).wf(),
            status == if old(self).known(id) {
                ESP_OK
            } else {
                ESP_ERR_INVALID_ARG
            },
            final(self)@ == old(self)@.map_values(
                |o: Option<Timer>|
                    if holds(o, id) {
                        Some(disarm_spec(o->Some_0))
                    } else {
                        o
                    },
            ),
    {
        if self.timer_disarm(id) {
            ESP_OK
        } else {
            ESP_ERR_INVALID_ARG
        }
    }

    /// Forgets the timer with handle `id`. Returns `ESP_OK`, or
    /// `ESP_ERR_INVALID_ARG` where no such timer is known.
    pub fn esp_timer_delete(&mut self, id: usize) -> (status: i32)
        requires
            old(self).wf(),
        ensures
            final(self).wf(),
            status == if old(self).known(id) {
                ESP_OK
            } else {
                ESP_ERR_INVALID_ARG
            },
            final(self)@ == old(self)@.map_values(
                |o: Option<Timer>|
                    if holds(o, id) {
                        None
                    } else {
                        o
                    },
            ),
    {
        if self.timer_done(id) {
            ESP_OK
        } else {
            ESP_ERR_INVALID_ARG
        }
    }
}

/// A change made to one timer.
#[derive(Clone, Copy)]
enum TimerOp {
    SetFn { callback: usize, arg: usize },
    Arm { now_us: u64, delay_us: u64, repeat: bool },
    Disarm,
    Done,
}

impl TimerOp {
    spec fn apply(self, t: Timer) -> Option<Timer> {
        match self {
            TimerOp::SetFn { callback, arg } => Some(Timer { callback, arg, ..t }),
            TimerOp::Arm { now_us, delay_us, repeat } => Some(arm_spec(t, now_us, delay_us, repeat)),
            TimerOp::Disarm => Some(disarm_spec(t)),
            TimerOp::Done => None,
        }
    }

    fn exec_apply(self, t: Timer) -> (r: Option<Timer>)
        ensures
            r == self.apply(t),
    {
        match self {
            TimerOp::SetFn { callback, arg } => Some(Timer { callback, arg, ..t }),
            TimerOp::Arm { now_us, delay_us, repeat } => Some(
                Timer {
                    armed: true,
                    repeat,
                    period_us: delay_us,
                    deadline_us: add_saturating(now_us, delay_us),
                    ..t
                },
            ),
            TimerOp::Disarm => Some(Timer { armed: false, ..t }),
            TimerOp::Done => None,
        }
    }
}

} // verus!
