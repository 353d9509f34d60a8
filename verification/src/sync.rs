//! A mutual-exclusion lock around a value.
//!
//! `Spinlock` is a flag and the value it guards. Acquiring it raises the flag
//! and hands out a guard, which borrows the lock exclusively and is the only
//! way to the value. Releasing the guard lowers the flag again: `unlock` does
//! so and says what the lock then holds; a guard that simply goes out of scope
//! releases too.
//!
//! `Flag` is the flag alone, as an atomic that several execution contexts may
//! share, with the acquisition by repeated exchange and spinning. What each
//! contender does next is decided by `Phase::after`.
//!
//! Contention between several acquirers is described by a model of the flag
//! and the phase of each contender, with mutual exclusion proved of every
//! schedule.

use core::sync::atomic::{AtomicBool, Ordering};
use vstd::prelude::*;

verus! {

/// A lock that guards a value of type `T`.
pub struct Spinlock<T> {
    locked: bool,
    data: T,
}

/// Exclusive access to the value of a held lock.
///
/// A guard borrows its lock until it is released, by `unlock` or by going out
/// of scope. A guard is well formed while it has not been released and the
/// lock it borrows is flagged as held; the guards that `lock` and `try_lock`
/// hand out are.
pub struct SpinlockGuard<'a, T> {
    pub spinlock: Option<&'a mut Spinlock<T>>,
}

impl<T> Spinlock<T> {
    /// Whether the flag is raised, that is, whether a guard is live.
    pub closed spec fn is_locked(&self) -> bool {
        self.locked
    }

    /// The guarded value.
    pub closed spec fn value(&self) -> T {
        self.data
    }

    /// A new, unlocked lock around `data`.
    pub fn new(data: T) -> (lock: Self)
        ensures
            !lock.is_locked(),
            lock.value() == data,
    {
        Spinlock { locked: false, data }
    }

    /// One attempt to take the lock: the flag goes from lowered to raised, or
    /// the lock is left as it was.
    pub fn try_lock(&mut self) -> (guard: Option<SpinlockGuard<'_, T>>)
        ensures
            old(self).is_locked() <==> guard is None,
            guard is Some <==> next_phase(Phase::Attempt, old(self).is_locked()) == Phase::Held,
            guard is None ==> *final(self) == *old(self),
            guard is Some ==> {
                &&& guard.unwrap().wf()
                &&& guard.unwrap().value() == old(self).value()
                &&& *final(self) == *final(guard.unwrap().spinlock.unwrap())
            },
    {
        if self.locked {
            None
        } else {
            self.locked = true;
            Some(SpinlockGuard { spinlock: Some(self) })
        }
    }

    /// Takes a lock that is free. On a lock that is held the acquirer would
    /// wait for a release that an exclusive borrower can never see, so a held
    /// lock is no input.
    pub fn lock(&mut self) -> (guard: SpinlockGuard<'_, T>)
        requires
            !old(self).is_locked(),
        ensures
            guard.wf(),
            guard.value() == old(self).value(),
            *final(self) == *final(guard.spinlock.unwrap()),
    {
        self.locked = true;
        SpinlockGuard { spinlock: Some(self) }
    }

    /// Reads the flag.
    pub fn locked(&self) -> (b: bool)
        ensures
            b == self.is_locked(),
    {
        self.locked
    }
}

impl<'a, T> SpinlockGuard<'a, T> {
    /// The guard has not been released, and its lock is flagged as held.
    pub open spec fn wf(&self) -> bool {
        self.spinlock is Some && self.spinlock.unwrap().is_locked()
    }

    /// The guarded value as the guard sees it now.
    pub open spec fn value(&self) -> T {
        self.spinlock.unwrap().value()
    }

    /// Shared access to the guarded value.
    pub fn deref(&self) -> (r: &T)
        requires
            self.wf(),
        ensures
            *r == self.value(),
    {
        match &self.spinlock {
            Some(lock) => &lock.data,
            None => vstd::pervasive::unreached(),
        }
    }

    /// Exclusive access to the guarded value.
    pub fn deref_mut(&mut self) -> (r: &mut T)
        requires
            old(self).wf(),
        ensures
            *r == old(self).value(),
            final(self).wf(),
            final(self).value() == *final(r),
            *final(final(self).spinlock.unwrap()) == *final(old(self).spinlock.unwrap()),
    {
        match &mut self.spinlock {
            Some(lock) => &mut lock.data,
            None => vstd::pervasive::unreached(),
        }
    }

    /// Releases the lock: the flag is lowered and the lock keeps the value
    /// that the guard last held.
    pub fn unlock(self)
        requires
            self.wf(),
        ensures
            !final(self.spinlock.unwrap()).is_locked(),
            final(self.spinlock.unwrap()).value() == self.value(),
    {
        let mut guard = self;
        match guard.spinlock.take() {
            Some(lock) => {
                lock.locked = false;
            },
            None => {},
        }
    }
}

impl<'a, T> Drop for SpinlockGuard<'a, T> {
    /// A guard that goes out of scope releases its lock: the flag is lowered
    /// and the lock keeps the value that the guard last held.
    fn drop(&mut self)
        ensures
            old(self).spinlock is Some ==> {
                &&& final(self).spinlock is Some
                &&& !final(self).spinlock.unwrap().is_locked()
                &&& final(self).spinlock.unwrap().value() == old(self).spinlock.unwrap().value()
            },
            old(self).spinlock is None ==> final(self).spinlock is None,
        opens_invariants none
        no_unwind
    {
        match &mut self.spinlock {
            Some(lock) => {
                lock.locked = false;
            },
            None => {},
        }
    }
}

/// Where a contender for the lock stands.
#[derive(Clone, Copy, Debug, PartialEq, Eq, Structural)]
pub enum Phase {
    /// About to exchange the flag from lowered to raised.
    Attempt,
    /// Re-reading the flag until it reads lowered.
    Spin,
    /// Holding the lock.
    Held,
}

/// The operation that a contender performs on the flag.
#[derive(Clone, Copy, Debug, PartialEq, Eq, Structural)]
pub enum Action {
    /// Exchange the flag from lowered to raised.
    Exchange,
    /// Yield the processor, then read the flag.
    Reread,
    /// Enter the critical section; lower the flag to leave it.
    Enter,
}

/// The phase that follows `phase` once its operation has found the flag
/// `raised` or lowered: an exchange that finds it lowered takes the lock, one
/// that finds it raised goes on to spin; a spinner goes back to the exchange
/// once it reads the flag lowered.
pub open spec fn next_phase(phase: Phase, raised: bool) -> Phase {
    match phase {
        Phase::Attempt => if raised {
            Phase::Spin
        } else {
            Phase::Held
        },
        Phase::Spin => if raised {
            Phase::Spin
        } else {
            Phase::Attempt
        },
        Phase::Held => Phase::Held,
    }
}

impl Phase {
    /// The operation to perform in this phase.
    pub fn action(self) -> (a: Action)
        ensures
            a == match self {
                Phase::Attempt => Action::Exchange,
                Phase::Spin => Action::Reread,
                Phase::Held => Action::Enter,
            },
    {
        match self {
            Phase::Attempt => Action::Exchange,
            Phase::Spin => Action::Reread,
            Phase::Held => Action::Enter,
        }
    }

    /// The phase after this one, given what its operation found the flag to
    /// be.
    pub fn after(self, raised: bool) -> (next: Phase)
        ensures
            next == next_phase(self, raised),
    {
        match self {
            Phase::Attempt => if raised {
                Phase::Spin
            } else {
                Phase::Held
            },
            Phase::Spin => if raised {
                Phase::Spin
            } else {
                Phase::Attempt
            },
            Phase::Held => Phase::Held,
        }
    }
}

/// The flag of a lock that several execution contexts share.
pub struct Flag {
    raised: AtomicBool,
}

/// `core::hint::spin_loop` of the standard library: a hint to the processor
/// that the caller is busy-waiting. It takes and returns nothing, and nothing
/// is claimed of it.
#[verifier::external_body]
fn pause() {
    core::hint::spin_loop()
}

impl Flag {
    /// A lowered flag.
    pub fn new() -> Flag {
        Flag { raised: AtomicBool::new(false) }
    }

    /// Performs the operation of `phase` on the flag and gives the phase that
    /// follows. An attempt exchanges the flag from lowered to raised, with
    /// acquire ordering where it succeeds; a spinner yields the processor and
    /// reads the flag, relaxed. What the flag is found to be is up to the
    /// other contenders: the result is the phase that follows for one of the
    /// two values.
    pub fn advance(&self, phase: Phase) -> (next: Phase)
        ensures
            next == next_phase(phase, true) || next == next_phase(phase, false),
    {
        match phase.action() {
            Action::Exchange => {
                let found = self.raised.compare_exchange(
                    false,
                    true,
                    Ordering::Acquire,
                    Ordering::Relaxed,
                );
                phase.after(found.is_err())
            },
            Action::Reread => {
                pause();
                let raised = self.raised.load(Ordering::Relaxed);
                phase.after(raised)
            },
            Action::Enter => phase,
        }
    }

    /// Contends for the flag, from a first attempt on, for at most `budget`
    /// operations, and says whether the flag was taken. What each operation
    /// finds the flag to be is up to the other contenders; the result is what
    /// the phases make of those findings: the flag is taken exactly if they
    /// lead to `Held`, and a contender that does not take it has used up its
    /// budget.
    pub fn acquire_within(&self, budget: usize) -> (taken: bool)
        ensures
            budget == 0 ==> !taken,
            exists|observed: Seq<bool>|
                {
                    &&& observed.len() <= budget
                    &&& taken == (#[trigger] phase_after(observed) == Phase::Held)
                    &&& !taken ==> observed.len() == budget
                },
    {
        let mut phase = Phase::Attempt;
        let mut left: usize = budget;
        let ghost mut observed: Seq<bool> = Seq::empty();
        while left > 0 && phase != Phase::Held
            invariant
                left <= budget,
                observed.len() == budget - left,
                phase == phase_after(observed),
            decreases left,
        {
            let ghost before = phase;
            phase = self.advance(phase);
            left = left - 1;
            proof {
                let raised = phase == next_phase(before, true);
                lemma_phase_after_push(observed, raised);
                observed = observed.push(raised);
            }
        }
        phase == Phase::Held
    }

    /// Lowers the flag, with release ordering: what the holder wrote is
    /// visible to whoever takes the flag next.
    pub fn release(&self) {
        self.raised.store(false, Ordering::Release);
    }
}

/// The phase that a contender has reached, from its first attempt on, once
/// its operations have found the flag as `observed` says, one after the other.
pub open spec fn phase_after(observed: Seq<bool>) -> Phase
    decreases observed.len(),
{
    if observed.len() == 0 {
        Phase::Attempt
    } else {
        next_phase(phase_after(observed.drop_last()), observed.last())
    }
}

/// One more operation takes the contender one phase further.
pub proof fn lemma_phase_after_push(observed: Seq<bool>, raised: bool)
    ensures
        phase_after(observed.push(raised)) == next_phase(phase_after(observed), raised),
{
    assert(observed.push(raised).drop_last() =~= observed);
}

/// One lock under contention: its flag, and the phase of each contender.
pub struct Contention {
    pub flag: bool,
    pub phases: Seq<Phase>,
}

/// A free lock with `n` contenders, each about to make its first attempt.
pub open spec fn start(n: nat) -> Contention {
    Contention { flag: false, phases: Seq::new(n, |i: int| Phase::Attempt) }
}

/// The state after contender `who` has performed its next operation on the
/// flag, as one atomic step. A holder's next operation is the release.
pub open spec fn step(s: Contention, who: int) -> Contention {
    if s.phases[who] == Phase::Held {
        Contention { flag: false, phases: s.phases.update(who, Phase::Attempt) }
    } else {
        Contention {
            flag: s.flag || s.phases[who] == Phase::Attempt,
            phases: s.phases.update(who, next_phase(s.phases[who], s.flag)),
        }
    }
}

/// The state after the contenders named in `schedule` have each taken a step,
/// in that order.
pub open spec fn run(s: Contention, schedule: Seq<int>) -> Contention
    decreases schedule.len(),
{
    if schedule.len() == 0 {
        s
    } else {
        step(run(s, schedule.drop_last()), schedule.last())
    }
}

/// Mutual exclusion: no two contenders hold the lock, and the flag is raised
/// exactly while one does.
pub open spec fn exclusive(s: Contention) -> bool {
    &&& forall|i: int, j: int|
        0 <= i < s.phases.len() && 0 <= j < s.phases.len() && #[trigger] s.phases[i] == Phase::Held
            && #[trigger] s.phases[j] == Phase::Held ==> i == j
    &&& s.flag <==> exists|i: int| 0 <= i < s.phases.len() && #[trigger] s.phases[i] == Phase::Held
}

/// The model's step is the operation that `Flag::advance` performs: a
/// contender that does not hold the lock and finds the flag as the model has
/// it goes on to the phase that `next_phase` gives, an exchange leaves the
/// flag raised, a read leaves it as it was, and no other contender moves.
pub proof fn lemma_step_is_advance(s: Contention, who: int)
    requires
        0 <= who < s.phases.len(),
        s.phases[who] != Phase::Held,
    ensures
        step(s, who).phases[who] == next_phase(s.phases[who], s.flag),
        s.phases[who] == Phase::Attempt ==> step(s, who).flag,
        s.phases[who] == Phase::Spin ==> step(s, who).flag == s.flag,
        forall|i: int|
            0 <= i < s.phases.len() && i != who ==> #[trigger] step(s, who).phases[i]
                == s.phases[i],
{
}

/// A contender that has taken the lock holds it whatever its later
/// operations find the flag to be: only a release ends the holding.
pub proof fn lemma_held_stays_held(observed: Seq<bool>, raised: bool)
    requires
        phase_after(observed) == Phase::Held,
    ensures
        phase_after(observed.push(raised)) == Phase::Held,
{
    lemma_phase_after_push(observed, raised);
}

/// A free lock that nobody has tried yet is exclusive.
pub proof fn lemma_start_exclusive(n: nat)
    ensures
        exclusive(start(n)),
        start(n).phases.len() == n,
{
}

/// A step of any contender keeps the lock exclusive.
pub proof fn lemma_step_exclusive(s: Contention, who: int)
    requires
        exclusive(s),
        0 <= who < s.phases.len(),
    ensures
        exclusive(step(s, who)),
        step(s, who).phases.len() == s.phases.len(),
{
    let t = step(s, who);
    if s.phases[who] == Phase::Held {
        assert forall|i: int| 0 <= i < t.phases.len() implies #[trigger] t.phases[i]
            != Phase::Held by {
            if i != who {
                assert(t.phases[i] == s.phases[i]);
            }
        }
    } else if s.phases[who] == Phase::Attempt && !s.flag {
        assert(t.phases[who] == Phase::Held);
        assert forall|i: int| 0 <= i < t.phases.len() && i != who implies #[trigger] t.phases[i]
            != Phase::Held by {
            assert(t.phases[i] == s.phases[i]);
        }
    } else {
        assert(t.phases[who] != Phase::Held);
        assert(t.flag == s.flag);
        assert forall|i: int| 0 <= i < t.phases.len() implies ((#[trigger] t.phases[i])
            == Phase::Held <==> s.phases[i] == Phase::Held) by {
            if i != who {
                assert(t.phases[i] == s.phases[i]);
            }
        }
        if s.flag {
            let h = choose|i: int| 0 <= i < s.phases.len() && #[trigger] s.phases[i] == Phase::Held;
            assert(t.phases[h] == Phase::Held);
        }
    }
}

/// Under every schedule, from a free lock on, at most one contender holds the
/// lock at any time.
pub proof fn lemma_run_exclusive(n: nat, schedule: Seq<int>)
    requires
        forall|k: int| 0 <= k < schedule.len() ==> 0 <= #[trigger] schedule[k] < n,
    ensures
        exclusive(run(start(n), schedule)),
        run(start(n), schedule).phases.len() == n,
    decreases schedule.len(),
{
    if schedule.len() == 0 {
        lemma_start_exclusive(n);
    } else {
        let prefix = schedule.drop_last();
        assert forall|k: int| 0 <= k < prefix.len() implies 0 <= #[trigger] prefix[k] < n by {
            assert(prefix[k] == schedule[k]);
        }
        lemma_run_exclusive(n, prefix);
        assert(0 <= schedule[schedule.len() - 1] < n);
        lemma_step_exclusive(run(start(n), prefix), schedule.last());
    }
}

/// Once the holder has released the lock, the next contender to attempt the
/// exchange takes it.
pub proof fn lemma_release_then_acquire(s: Contention, holder: int, who: int)
    requires
        exclusive(s),
        0 <= holder < s.phases.len(),
        0 <= who < s.phases.len(),
        s.phases[holder] == Phase::Held,
        s.phases[who] == Phase::Attempt,
    ensures
        !step(s, holder).flag,
        step(step(s, holder), who).phases[who] == Phase::Held,
        step(step(s, holder), who).flag,
{
}

} // verus!
