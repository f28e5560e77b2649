//! Guest mutexes, condition variables and read-write locks.
//!
//! A guest names its locks by address.  The primitive behind an address has a number of
//! its own, and a thread that has to wait keeps that number: whatever happens to the
//! address meanwhile, it waits for, and takes, the same primitive.
//!
//! A call that may block is a step.  `Wait` says that the caller blocks until the
//! primitive is woken and then tries again with `lock_attempt`, `timed_woken` or
//! `cond_reacquire`.  The steps of all threads run one at a time.

use std::collections::{HashMap, HashSet};
use vstd::prelude::*;

verus! {

broadcast use vstd::std_specs::hash::group_hash_axioms;

pub const EPERM: i32 = 1;
pub const EDEADLK: i32 = 11;
pub const EBUSY: i32 = 16;
pub const EINVAL: i32 = 22;
pub const ETIMEDOUT: i32 = 60;

/// How long a thread may wait before the holder of the lock is named in the log.
pub const STUCK_LOCK_REPORT_AFTER_NS: u64 = 5_000_000_000;

#[derive(Clone, Copy, Debug, PartialEq, Eq, Structural)]
pub enum MutexType {
    Normal,
    Recursive,
    ErrorCheck,
}

#[derive(Clone, Copy, Debug, PartialEq, Eq, Structural)]
pub struct HostMutexState {
    pub owner: Option<u32>,
    pub locks: u32,
    pub mtype: MutexType,
}

/// One lock primitive.
#[derive(Clone, Copy, Debug, PartialEq, Eq, Structural)]
pub struct HostMutex {
    pub state: HostMutexState,
}

/// A mutex nobody holds.
pub open spec fn fresh_mutex(mtype: MutexType) -> HostMutex {
    HostMutex { state: HostMutexState { owner: None, locks: 0, mtype } }
}

impl HostMutex {
    pub fn new(mtype: MutexType) -> (m: Self)
        ensures
            m == fresh_mutex(mtype),
    {
        HostMutex { state: HostMutexState { owner: None, locks: 0, mtype } }
    }

    /// Somebody holds it.
    pub open spec fn held(&self) -> bool {
        self.state.owner is Some || self.state.locks > 0
    }

    /// A mutex has an owner exactly as long as it is locked.
    pub open spec fn wf(&self) -> bool {
        self.state.owner is Some <==> self.state.locks > 0
    }
}

/// A condition variable, by a number of its own.
#[derive(Clone, Copy, Debug, PartialEq, Eq, Structural)]
pub struct HostCond {
    pub id: u64,
}

impl HostCond {
    pub fn new(id: u64) -> (c: Self)
        ensures
            c.id == id,
    {
        HostCond { id }
    }
}

/// How an attempt to lock ends.
#[derive(Clone, Copy, Debug, PartialEq, Eq, Structural)]
pub enum LockStep {
    Done(i32),
    /// Blocked on this primitive.
    Wait { mutex: usize },
}

/// How an attempt to lock by a deadline ends.
#[derive(Clone, Copy, Debug, PartialEq, Eq, Structural)]
pub enum TimedStep {
    Done(i32),
    /// Blocked on this primitive, for so long at most.
    Wait { mutex: usize, ns: u64 },
}

/// How waiting for a condition begins.
#[derive(Clone, Copy, Debug, PartialEq, Eq, Structural)]
pub enum CondStep {
    Done(i32),
    /// The mutex is released and its waiters are to be woken; the caller blocks on the
    /// condition and then takes the mutex back as deep as it held it.
    Wait { cond: HostCond, mutex: usize, saved: u32 },
}

/// Which waiters of a condition are to be woken.
#[derive(Clone, Copy, Debug, PartialEq, Eq, Structural)]
pub enum Notify {
    Nobody,
    One(HostCond),
    All(HostCond),
}

#[verifier::ext_equal]
pub struct SyncView {
    pub mutexes: Map<u64, usize>,
    pub primitives: Seq<HostMutex>,
    pub conds: Map<u64, HostCond>,
    pub rwlocks: Set<u64>,
    pub next_cond: u64,
}

pub struct SyncManager {
    mutexes: HashMap<u64, usize>,
    primitives: Vec<HostMutex>,
    conds: HashMap<u64, HostCond>,
    rwlocks: HashSet<u64>,
    next_cond: u64,
}

impl View for SyncManager {
    type V = SyncView;

    closed spec fn view(&self) -> SyncView {
        SyncView {
            mutexes: self.mutexes@,
            primitives: self.primitives@,
            conds: self.conds@,
            rwlocks: self.rwlocks@,
            next_cond: self.next_cond,
        }
    }
}

impl SyncView {
    /// Every address names a primitive of its own, and every primitive is coherent.
    pub open spec fn wf(self) -> bool {
        &&& forall|a: u64| #[trigger]
            self.mutexes.contains_key(a) ==> self.mutexes[a] < self.primitives.len()
        &&& forall|a: u64, b: u64| #[trigger]
            self.mutexes.contains_key(a) && #[trigger] self.mutexes.contains_key(b) && a != b
                ==> self.mutexes[a] != self.mutexes[b]
        &&& forall|i: int| 0 <= i < self.primitives.len() ==> (#[trigger] self.primitives[i]).wf()
    }

    /// The primitive behind an address.
    pub open spec fn at(self, addr: u64) -> HostMutex {
        self.primitives[self.mutexes[addr] as int]
    }
}

/// What locking does to a primitive, and the code it ends with; `None` where the thread
/// has to wait.
pub open spec fn lock_result(m: HostMutex, tid: u32) -> Option<(HostMutex, i32)> {
    match m.state.owner {
        None => Some(
            (
                HostMutex {
                    state: HostMutexState { owner: Some(tid), locks: 1, mtype: m.state.mtype },
                },
                0,
            ),
        ),
        Some(owner) => if owner != tid {
            None
        } else if m.state.mtype == MutexType::ErrorCheck {
            Some((m, EDEADLK))
        } else {
            Some(
                (
                    HostMutex {
                        state: HostMutexState {
                            locks: (m.state.locks + 1) as u32,
                            ..m.state
                        },
                    },
                    0,
                ),
            )
        },
    }
}

/// How an attempt to lock a primitive ends.
pub open spec fn lock_step(m: HostMutex, mutex: usize, tid: u32) -> LockStep {
    match lock_result(m, tid) {
        Some((_, code)) => LockStep::Done(code),
        None => LockStep::Wait { mutex },
    }
}

/// The primitive as a lock that need not wait leaves it.
pub open spec fn locked(m: HostMutex, tid: u32) -> HostMutex {
    match lock_result(m, tid) {
        Some((after, _)) => after,
        None => m,
    }
}

/// What unlocking does to a primitive, and the code it ends with.
pub open spec fn unlock_result(m: HostMutex, tid: u32) -> (HostMutex, i32) {
    if m.state.owner == Some(tid) {
        let locks = (m.state.locks - 1) as u32;
        (
            HostMutex {
                state: HostMutexState {
                    owner: if locks == 0 {
                        None
                    } else {
                        m.state.owner
                    },
                    locks,
                    mtype: m.state.mtype,
                },
            },
            0,
        )
    } else {
        (m, EPERM)
    }
}

/// The code that unlocking an address ends with, and the primitive that it frees.
pub open spec fn unlock_outcome(s: SyncView, addr: u64, tid: u32) -> (i32, Option<usize>) {
    if !s.mutexes.contains_key(addr) {
        (EINVAL, None)
    } else {
        let (m, code) = unlock_result(s.at(addr), tid);
        let freed = code == 0 && m.state.owner is None;
        (
            code,
            if freed {
                Some(s.mutexes[addr])
            } else {
                None
            },
        )
    }
}

/// The lock can still be counted one deeper.
pub open spec fn countable(m: HostMutex, tid: u32) -> bool {
    m.state.owner == Some(tid) ==> m.state.locks < u32::MAX
}

/// An unheld mutex, released all at once.
pub open spec fn released(m: HostMutex) -> HostMutex {
    HostMutex { state: HostMutexState { owner: None, locks: 0, mtype: m.state.mtype } }
}

/// A mutex taken back `depth` deep.
pub open spec fn retaken(m: HostMutex, tid: u32, depth: u32) -> HostMutex {
    HostMutex { state: HostMutexState { owner: Some(tid), locks: depth, mtype: m.state.mtype } }
}

/// The manager with one primitive changed.
pub open spec fn with_primitive(s: SyncView, i: int, m: HostMutex) -> SyncView {
    SyncView { primitives: s.primitives.update(i, m), ..s }
}

/// The manager once `addr` names a mutex: a lock that was never initialised is a normal
/// one.
pub open spec fn ensured(s: SyncView, addr: u64) -> SyncView {
    if s.mutexes.contains_key(addr) {
        s
    } else {
        SyncView {
            mutexes: s.mutexes.insert(addr, s.primitives.len() as usize),
            primitives: s.primitives.push(fresh_mutex(MutexType::Normal)),
            ..s
        }
    }
}

/// A step on the locks: what a thread does, or what is done to an address.
pub enum SyncOp {
    Init { addr: u64, mtype: MutexType },
    Destroy { addr: u64 },
    Lock { addr: u64, tid: u32 },
    Attempt { mutex: usize, tid: u32 },
    Unlock { addr: u64, tid: u32 },
    TryLock { addr: u64, tid: u32, contended: bool },
    TimedLock { addr: u64, tid: u32 },
    Wait { cond_addr: u64, mutex_addr: u64, tid: u32 },
    Reacquire { mutex: usize, tid: u32, saved: u32 },
}

/// The thread that takes a step, where it takes a thread.
pub open spec fn actor(op: SyncOp) -> Option<u32> {
    match op {
        SyncOp::Init { .. } | SyncOp::Destroy { .. } => None,
        SyncOp::Lock { tid, .. } => Some(tid),
        SyncOp::Attempt { tid, .. } => Some(tid),
        SyncOp::Unlock { tid, .. } => Some(tid),
        SyncOp::TryLock { tid, .. } => Some(tid),
        SyncOp::TimedLock { tid, .. } => Some(tid),
        SyncOp::Wait { tid, .. } => Some(tid),
        SyncOp::Reacquire { tid, .. } => Some(tid),
    }
}

/// The manager after an attempt to lock a primitive.
pub open spec fn after_attempt(s: SyncView, i: int, tid: u32) -> SyncView {
    match lock_result(s.primitives[i], tid) {
        Some((m, _)) => with_primitive(s, i, m),
        None => s,
    }
}

/// A mutex can be taken without waiting.
pub open spec fn is_free_for(m: HostMutex, tid: u32) -> bool {
    m.state.owner is None || (m.state.owner == Some(tid) && m.state.mtype == MutexType::Recursive)
}

/// The manager after a step.
pub open spec fn after(s: SyncView, op: SyncOp) -> SyncView {
    match op {
        SyncOp::Init { addr, mtype } => if !s.mutexes.contains_key(addr) {
            SyncView {
                mutexes: s.mutexes.insert(addr, s.primitives.len() as usize),
                primitives: s.primitives.push(fresh_mutex(mtype)),
                ..s
            }
        } else if s.at(addr).held() {
            s
        } else {
            with_primitive(s, s.mutexes[addr] as int, fresh_mutex(mtype))
        },
        SyncOp::Destroy { addr } => SyncView { mutexes: s.mutexes.remove(addr), ..s },
        SyncOp::Lock { addr, tid } => after_attempt(
            ensured(s, addr),
            ensured(s, addr).mutexes[addr] as int,
            tid,
        ),
        SyncOp::Attempt { mutex, tid } => after_attempt(s, mutex as int, tid),
        SyncOp::Unlock { addr, tid } => if s.mutexes.contains_key(addr) {
            with_primitive(s, s.mutexes[addr] as int, unlock_result(s.at(addr), tid).0)
        } else {
            s
        },
        SyncOp::TryLock { addr, tid, contended } => if s.mutexes.contains_key(addr) && !contended
            && is_free_for(s.at(addr), tid) {
            with_primitive(s, s.mutexes[addr] as int, locked(s.at(addr), tid))
        } else {
            s
        },
        SyncOp::TimedLock { addr, tid } => if s.mutexes.contains_key(addr) {
            after_attempt(s, s.mutexes[addr] as int, tid)
        } else {
            s
        },
        SyncOp::Wait { cond_addr, mutex_addr, tid } => if s.conds.contains_key(cond_addr)
            && s.mutexes.contains_key(mutex_addr) && s.at(mutex_addr).state.owner == Some(tid) {
            with_primitive(s, s.mutexes[mutex_addr] as int, released(s.at(mutex_addr)))
        } else {
            s
        },
        SyncOp::Reacquire { mutex, tid, saved } => if s.primitives[mutex as int].state.owner is None {
            with_primitive(s, mutex as int, retaken(s.primitives[mutex as int], tid, saved))
        } else {
            s
        },
    }
}

/// The step names a primitive that there is.
pub open spec fn is_step_on(s: SyncView, op: SyncOp) -> bool {
    match op {
        SyncOp::Attempt { mutex, .. } => mutex < s.primitives.len(),
        SyncOp::Reacquire { mutex, .. } => mutex < s.primitives.len(),
        _ => true,
    }
}

impl SyncManager {
    pub fn new() -> (mgr: Self)
        ensures
            mgr@.wf(),
            mgr@ == (SyncView {
                mutexes: Map::empty(),
                primitives: Seq::empty(),
                conds: Map::empty(),
                rwlocks: Set::empty(),
                next_cond: 0,
            }),
    {
        SyncManager {
            mutexes: HashMap::new(),
            primitives: Vec::new(),
            conds: HashMap::new(),
            rwlocks: HashSet::new(),
            next_cond: 0,
        }
    }

    /// The primitive behind an address, if it has one.
    pub fn lookup(&self, addr: u64) -> (i: Option<usize>)
        requires
            self@.wf(),
        ensures
            match i {
                Some(i) => self@.mutexes.contains_key(addr) && i == self@.mutexes[addr]
                    && i < self@.primitives.len(),
                None => !self@.mutexes.contains_key(addr),
            },
    {
        match self.mutexes.get(&addr) {
            Some(i) => Some(*i),
            None => None,
        }
    }

    /// A primitive's state.
    pub fn state_of(&self, mutex: usize) -> (s: HostMutexState)
        requires
            mutex < self@.primitives.len(),
        ensures
            s == self@.primitives[mutex as int].state,
    {
        self.primitives[mutex].state
    }

    /// Change one primitive.
    fn put(&mut self, i: usize, m: HostMutex)
        requires
            old(self)@.wf(),
            i < old(self)@.primitives.len(),
            m.wf(),
        ensures
            final(self)@.wf(),
            final(self)@ == with_primitive(old(self)@, i as int, m),
    {
        self.primitives.set(i, m);
        assert(self@ =~= with_primitive(old(self)@, i as int, m));
        proof {
            let t = self@;
            assert forall|k: int| 0 <= k < t.primitives.len() implies (
            #[trigger] t.primitives[k]).wf() by {
                assert(k != i ==> t.primitives[k] == old(self)@.primitives[k]);
            }
        }
    }

    /// Initialise a mutex.  A mutex that is held stays as it is; one that is not is reset
    /// in place, so that a thread already waiting for it still waits for this one.  In
    /// that case its waiters are to be woken.
    pub fn mutex_init(&mut self, addr: u64, mtype: MutexType) -> (r: (i32, Option<usize>))
        requires
            old(self)@.wf(),
            old(self)@.primitives.len() < usize::MAX,
        ensures
            final(self)@.wf(),
            final(self)@ == after(old(self)@, SyncOp::Init { addr, mtype }),
            r == (if !old(self)@.mutexes.contains_key(addr) {
                (0i32, None::<usize>)
            } else if old(self)@.at(addr).held() {
                (EBUSY, None::<usize>)
            } else {
                (0i32, Some(old(self)@.mutexes[addr]))
            }),
    {
        match self.lookup(addr) {
            Some(i) => {
                let state = self.primitives[i].state;
                if state.owner.is_some() || state.locks > 0 {
                    return (EBUSY, None);
                }
                self.put(i, HostMutex::new(mtype));
                (0, Some(i))
            },
            None => {
                let i: usize = self.primitives.len();
                self.primitives.push(HostMutex::new(mtype));
                self.mutexes.insert(addr, i);
                (0, None)
            },
        }
    }

    /// Forget the mutex of an address.  A thread that holds or awaits its primitive goes
    /// on with it.
    pub fn mutex_destroy(&mut self, addr: u64) -> (code: i32)
        requires
            old(self)@.wf(),
        ensures
            final(self)@.wf(),
            code == (if old(self)@.mutexes.contains_key(addr) {
                0
            } else {
                EINVAL
            }),
            final(self)@ == after(old(self)@, SyncOp::Destroy { addr }),
    {
        let removed = self.mutexes.remove(&addr);
        assert(self@ =~= (SyncView { mutexes: old(self)@.mutexes.remove(addr), ..old(self)@ }));
        match removed {
            Some(_) => 0,
            None => EINVAL,
        }
    }

    /// Try to lock a primitive.
    pub fn lock_attempt(&mut self, mutex: usize, tid: u32) -> (step: LockStep)
        requires
            old(self)@.wf(),
            mutex < old(self)@.primitives.len(),
            countable(old(self)@.primitives[mutex as int], tid),
        ensures
            final(self)@.wf(),
            final(self)@ == after(old(self)@, SyncOp::Attempt { mutex, tid }),
            step == lock_step(old(self)@.primitives[mutex as int], mutex, tid),
    {
        let state = self.primitives[mutex].state;
        assert(old(self)@.primitives[mutex as int].wf());
        match state.owner {
            None => {
                self.put(
                    mutex,
                    HostMutex {
                        state: HostMutexState { owner: Some(tid), locks: 1, mtype: state.mtype },
                    },
                );
                LockStep::Done(0)
            },
            Some(owner) => {
                if owner != tid {
                    return LockStep::Wait { mutex };
                }
                match state.mtype {
                    MutexType::ErrorCheck => {
                        assert(self@ =~= with_primitive(
                            old(self)@,
                            mutex as int,
                            old(self)@.primitives[mutex as int],
                        ));
                        LockStep::Done(EDEADLK)
                    },
                    MutexType::Recursive | MutexType::Normal => {
                        self.put(
                            mutex,
                            HostMutex {
                                state: HostMutexState {
                                    owner: state.owner,
                                    locks: state.locks + 1,
                                    mtype: state.mtype,
                                },
                            },
                        );
                        LockStep::Done(0)
                    },
                }
            },
        }
    }

    /// Lock the mutex of an address, which is made where there is none.
    pub fn mutex_lock(&mut self, addr: u64, tid: u32) -> (step: LockStep)
        requires
            old(self)@.wf(),
            old(self)@.primitives.len() < usize::MAX,
            old(self)@.mutexes.contains_key(addr) ==> countable(old(self)@.at(addr), tid),
        ensures
            final(self)@.wf(),
            final(self)@ == after(old(self)@, SyncOp::Lock { addr, tid }),
            step == lock_step(
                ensured(old(self)@, addr).at(addr),
                ensured(old(self)@, addr).mutexes[addr],
                tid,
            ),
    {
        let i: usize = match self.lookup(addr) {
            Some(i) => i,
            None => {
                let i: usize = self.primitives.len();
                self.primitives.push(HostMutex::new(MutexType::Normal));
                self.mutexes.insert(addr, i);
                i
            },
        };
        assert(self@ =~= ensured(old(self)@, addr));
        self.lock_attempt(i, tid)
    }

    /// Unlock the mutex of an address.  Where it becomes free, its waiters are to be
    /// woken.
    pub fn mutex_unlock(&mut self, addr: u64, tid: u32) -> (r: (i32, Option<usize>))
        requires
            old(self)@.wf(),
        ensures
            final(self)@.wf(),
            final(self)@ == after(old(self)@, SyncOp::Unlock { addr, tid }),
            r == unlock_outcome(old(self)@, addr, tid),
    {
        let i: usize = match self.lookup(addr) {
            Some(i) => i,
            None => {
                return (EINVAL, None);
            },
        };
        let state = self.primitives[i].state;
        assert(old(self)@.primitives[i as int].wf());
        let owned: bool = match state.owner {
            Some(owner) => owner == tid,
            None => false,
        };
        if !owned {
            assert(self@ =~= with_primitive(
                old(self)@,
                i as int,
                old(self)@.primitives[i as int],
            ));
            return (EPERM, None);
        }
        let locks: u32 = state.locks - 1;
        if locks == 0 {
            self.put(
                i,
                HostMutex {
                    state: HostMutexState { owner: None, locks: 0, mtype: state.mtype },
                },
            );
            (0, Some(i))
        } else {
            self.put(
                i,
                HostMutex {
                    state: HostMutexState { owner: state.owner, locks, mtype: state.mtype },
                },
            );
            (0, None)
        }
    }

    /// Try to lock without waiting.  `contended` says that another thread is in the
    /// middle of a step on this primitive.
    pub fn mutex_trylock(&mut self, addr: u64, tid: u32, contended: bool) -> (code: i32)
        requires
            old(self)@.wf(),
            old(self)@.mutexes.contains_key(addr) ==> countable(old(self)@.at(addr), tid),
        ensures
            final(self)@.wf(),
            final(self)@ == after(old(self)@, SyncOp::TryLock { addr, tid, contended }),
            code == (if !old(self)@.mutexes.contains_key(addr) {
                EINVAL
            } else if !contended && is_free_for(old(self)@.at(addr), tid) {
                0
            } else {
                EBUSY
            }),
    {
        let i: usize = match self.lookup(addr) {
            Some(i) => i,
            None => {
                return EINVAL;
            },
        };
        if contended {
            return EBUSY;
        }
        let state = self.primitives[i].state;
        let takes: bool = match state.owner {
            None => true,
            Some(owner) => owner == tid && match state.mtype {
                MutexType::Recursive => true,
                _ => false,
            },
        };
        if !takes {
            return EBUSY;
        }
        self.lock_attempt(i, tid);
        0
    }

    /// Begin to lock by a deadline.
    pub fn mutex_timedlock(&mut self, addr: u64, tid: u32, now: u64, deadline: u64) -> (step:
        TimedStep)
        requires
            old(self)@.wf(),
            old(self)@.mutexes.contains_key(addr) ==> countable(old(self)@.at(addr), tid),
        ensures
            final(self)@.wf(),
            final(self)@ == after(old(self)@, SyncOp::TimedLock { addr, tid }),
            step == (if old(self)@.mutexes.contains_key(addr) {
                timed_step(old(self)@.at(addr), old(self)@.mutexes[addr], tid, now, deadline)
            } else {
                TimedStep::Done(EINVAL)
            }),
    {
        match self.lookup(addr) {
            Some(i) => self.timed_attempt(i, tid, now, deadline),
            None => TimedStep::Done(EINVAL),
        }
    }

    /// Try to lock a primitive by a deadline that was fixed when the call began: neither
    /// a spurious wakeup nor a lock handed to another thread extends it.
    pub fn timed_attempt(&mut self, mutex: usize, tid: u32, now: u64, deadline: u64) -> (step:
        TimedStep)
        requires
            old(self)@.wf(),
            mutex < old(self)@.primitives.len(),
            countable(old(self)@.primitives[mutex as int], tid),
        ensures
            final(self)@.wf(),
            final(self)@ == after(old(self)@, SyncOp::Attempt { mutex, tid }),
            step == timed_step(old(self)@.primitives[mutex as int], mutex, tid, now, deadline),
    {
        match self.lock_attempt(mutex, tid) {
            LockStep::Done(code) => TimedStep::Done(code),
            LockStep::Wait { mutex } => {
                if now >= deadline {
                    TimedStep::Done(ETIMEDOUT)
                } else {
                    TimedStep::Wait { mutex, ns: deadline - now }
                }
            },
        }
    }

    /// Go on after a wait for a primitive.  A wait that ran out is over, even where the
    /// primitive has been freed meanwhile.
    pub fn timed_woken(
        &mut self,
        mutex: usize,
        tid: u32,
        now: u64,
        deadline: u64,
        timed_out: bool,
    ) -> (step: TimedStep)
        requires
            old(self)@.wf(),
            mutex < old(self)@.primitives.len(),
            countable(old(self)@.primitives[mutex as int], tid),
        ensures
            final(self)@.wf(),
            final(self)@ == (if timed_out {
                old(self)@
            } else {
                after(old(self)@, SyncOp::Attempt { mutex, tid })
            }),
            step == (if timed_out {
                TimedStep::Done(ETIMEDOUT)
            } else {
                timed_step(old(self)@.primitives[mutex as int], mutex, tid, now, deadline)
            }),
    {
        if timed_out {
            TimedStep::Done(ETIMEDOUT)
        } else {
            self.timed_attempt(mutex, tid, now, deadline)
        }
    }

    /// Make a condition variable.
    pub fn cond_init(&mut self, addr: u64) -> (code: i32)
        requires
            old(self)@.wf(),
            old(self)@.next_cond < u64::MAX,
        ensures
            final(self)@.wf(),
            ({
                let s = old(self)@;
                if s.conds.contains_key(addr) {
                    code == EBUSY && final(self)@ == s
                } else {
                    code == 0 && final(self)@ == (SyncView {
                        conds: s.conds.insert(addr, HostCond { id: s.next_cond }),
                        next_cond: (s.next_cond + 1) as u64,
                        ..s
                    })
                }
            }),
    {
        if self.conds.contains_key(&addr) {
            return EBUSY;
        }
        let id: u64 = self.next_cond;
        self.next_cond = id + 1;
        self.conds.insert(addr, HostCond::new(id));
        0
    }

    /// Forget a condition variable.
    pub fn cond_destroy(&mut self, addr: u64) -> (code: i32)
        requires
            old(self)@.wf(),
        ensures
            final(self)@.wf(),
            code == (if old(self)@.conds.contains_key(addr) {
                0
            } else {
                EINVAL
            }),
            final(self)@ == (SyncView { conds: old(self)@.conds.remove(addr), ..old(self)@ }),
    {
        let removed = self.conds.remove(&addr);
        assert(self@ =~= (SyncView { conds: old(self)@.conds.remove(addr), ..old(self)@ }));
        match removed {
            Some(_) => 0,
            None => EINVAL,
        }
    }

    /// Begin to wait for a condition: the mutex, which the thread must hold, is released
    /// however deep it is held.
    pub fn cond_wait(&mut self, cond_addr: u64, mutex_addr: u64, tid: u32) -> (step: CondStep)
        requires
            old(self)@.wf(),
        ensures
            final(self)@.wf(),
            final(self)@ == after(old(self)@, SyncOp::Wait { cond_addr, mutex_addr, tid }),
            step == wait_step(old(self)@, cond_addr, mutex_addr, tid),
    {
        let cond = match self.conds.get(&cond_addr) {
            Some(c) => *c,
            None => {
                return CondStep::Done(EINVAL);
            },
        };
        let i: usize = match self.lookup(mutex_addr) {
            Some(i) => i,
            None => {
                return CondStep::Done(EINVAL);
            },
        };
        let state = self.primitives[i].state;
        let owned: bool = match state.owner {
            Some(owner) => owner == tid,
            None => false,
        };
        if !owned {
            return CondStep::Done(EPERM);
        }
        self.put(
            i,
            HostMutex { state: HostMutexState { owner: None, locks: 0, mtype: state.mtype } },
        );
        CondStep::Wait { cond, mutex: i, saved: state.locks }
    }

    /// Begin to wait for a condition by a deadline.  The deadline bounds the wait for the
    /// condition only: the mutex is then taken back however long that takes.
    pub fn cond_timedwait(&mut self, cond_addr: u64, mutex_addr: u64, tid: u32) -> (step: CondStep)
        requires
            old(self)@.wf(),
        ensures
            final(self)@.wf(),
            final(self)@ == after(old(self)@, SyncOp::Wait { cond_addr, mutex_addr, tid }),
            step == wait_step(old(self)@, cond_addr, mutex_addr, tid),
    {
        self.cond_wait(cond_addr, mutex_addr, tid)
    }

    /// Take the mutex back after waiting for a condition, as deep as it was held.
    /// `false` says that another thread has it: wait for the primitive and try again.
    pub fn cond_reacquire(&mut self, mutex: usize, tid: u32, saved: u32) -> (done: bool)
        requires
            old(self)@.wf(),
            mutex < old(self)@.primitives.len(),
            saved > 0,
        ensures
            final(self)@.wf(),
            done == (old(self)@.primitives[mutex as int].state.owner is None),
            final(self)@ == after(old(self)@, SyncOp::Reacquire { mutex, tid, saved }),
    {
        let state = self.primitives[mutex].state;
        match state.owner {
            None => {
                self.put(
                    mutex,
                    HostMutex {
                        state: HostMutexState {
                            owner: Some(tid),
                            locks: saved,
                            mtype: state.mtype,
                        },
                    },
                );
                true
            },
            Some(_) => false,
        }
    }

    /// The code a timed wait for a condition ends with, once the mutex is taken back.
    pub fn cond_timedwait_code(timed_out: bool) -> (code: i32)
        ensures
            code == (if timed_out {
                ETIMEDOUT
            } else {
                0
            }),
    {
        if timed_out {
            ETIMEDOUT
        } else {
            0
        }
    }

    /// Wake one waiter.  A condition nobody made has none, and signalling it succeeds.
    pub fn cond_signal(&self, cond_addr: u64) -> (notify: Notify)
        requires
            self@.wf(),
        ensures
            notify == (if self@.conds.contains_key(cond_addr) {
                Notify::One(self@.conds[cond_addr])
            } else {
                Notify::Nobody
            }),
    {
        match self.conds.get(&cond_addr) {
            Some(c) => Notify::One(*c),
            None => Notify::Nobody,
        }
    }

    /// Wake every waiter.
    pub fn cond_broadcast(&self, cond_addr: u64) -> (notify: Notify)
        requires
            self@.wf(),
        ensures
            notify == (if self@.conds.contains_key(cond_addr) {
                Notify::All(self@.conds[cond_addr])
            } else {
                Notify::Nobody
            }),
    {
        match self.conds.get(&cond_addr) {
            Some(c) => Notify::All(*c),
            None => Notify::Nobody,
        }
    }

    /// Make a read-write lock.
    pub fn rwlock_init(&mut self, addr: u64) -> (code: i32)
        requires
            old(self)@.wf(),
        ensures
            final(self)@.wf(),
            code == (if old(self)@.rwlocks.contains(addr) {
                EBUSY
            } else {
                0
            }),
            final(self)@ == (SyncView { rwlocks: old(self)@.rwlocks.insert(addr), ..old(self)@ }),
    {
        let fresh: bool = self.rwlocks.insert(addr);
        assert(self@ =~= (SyncView { rwlocks: old(self)@.rwlocks.insert(addr), ..old(self)@ }));
        if fresh {
            0
        } else {
            EBUSY
        }
    }

    /// Forget a read-write lock.
    pub fn rwlock_destroy(&mut self, addr: u64) -> (code: i32)
        requires
            old(self)@.wf(),
        ensures
            final(self)@.wf(),
            code == (if old(self)@.rwlocks.contains(addr) {
                0
            } else {
                EINVAL
            }),
            final(self)@ == (SyncView { rwlocks: old(self)@.rwlocks.remove(addr), ..old(self)@ }),
    {
        let had: bool = self.rwlocks.remove(&addr);
        assert(self@ =~= (SyncView { rwlocks: old(self)@.rwlocks.remove(addr), ..old(self)@ }));
        if had {
            0
        } else {
            EINVAL
        }
    }

    /// Lock for reading: a read-write lock is exclusive, and locks as a mutex does.
    pub fn rwlock_rdlock(&mut self, addr: u64, tid: u32) -> (step: LockStep)
        requires
            old(self)@.wf(),
            old(self)@.primitives.len() < usize::MAX,
            old(self)@.mutexes.contains_key(addr) ==> countable(old(self)@.at(addr), tid),
        ensures
            final(self)@.wf(),
            final(self)@ == after(old(self)@, SyncOp::Lock { addr, tid }),
            step == lock_step(
                ensured(old(self)@, addr).at(addr),
                ensured(old(self)@, addr).mutexes[addr],
                tid,
            ),
    {
        self.mutex_lock(addr, tid)
    }

    /// Lock for writing, as for reading.
    pub fn rwlock_wrlock(&mut self, addr: u64, tid: u32) -> (step: LockStep)
        requires
            old(self)@.wf(),
            old(self)@.primitives.len() < usize::MAX,
            old(self)@.mutexes.contains_key(addr) ==> countable(old(self)@.at(addr), tid),
        ensures
            final(self)@.wf(),
            final(self)@ == after(old(self)@, SyncOp::Lock { addr, tid }),
            step == lock_step(
                ensured(old(self)@, addr).at(addr),
                ensured(old(self)@, addr).mutexes[addr],
                tid,
            ),
    {
        self.mutex_lock(addr, tid)
    }

    /// Lock for reading, if that needs no wait: as a mutex is tried.
    pub fn rwlock_tryrdlock(&mut self, addr: u64, tid: u32, contended: bool) -> (code: i32)
        requires
            old(self)@.wf(),
            old(self)@.mutexes.contains_key(addr) ==> countable(old(self)@.at(addr), tid),
        ensures
            final(self)@.wf(),
            final(self)@ == after(old(self)@, SyncOp::TryLock { addr, tid, contended }),
            code == (if !old(self)@.mutexes.contains_key(addr) {
                EINVAL
            } else if !contended && is_free_for(old(self)@.at(addr), tid) {
                0
            } else {
                EBUSY
            }),
    {
        self.mutex_trylock(addr, tid, contended)
    }

    /// Lock for writing, if that needs no wait: as a mutex is tried.
    pub fn rwlock_trywrlock(&mut self, addr: u64, tid: u32, contended: bool) -> (code: i32)
        requires
            old(self)@.wf(),
            old(self)@.mutexes.contains_key(addr) ==> countable(old(self)@.at(addr), tid),
        ensures
            final(self)@.wf(),
            final(self)@ == after(old(self)@, SyncOp::TryLock { addr, tid, contended }),
            code == (if !old(self)@.mutexes.contains_key(addr) {
                EINVAL
            } else if !contended && is_free_for(old(self)@.at(addr), tid) {
                0
            } else {
                EBUSY
            }),
    {
        self.mutex_trylock(addr, tid, contended)
    }

    /// Unlock a read-write lock, as a mutex is unlocked.
    pub fn rwlock_unlock(&mut self, addr: u64, tid: u32) -> (r: (i32, Option<usize>))
        requires
            old(self)@.wf(),
        ensures
            final(self)@.wf(),
            final(self)@ == after(old(self)@, SyncOp::Unlock { addr, tid }),
            r == unlock_outcome(old(self)@, addr, tid),
    {
        self.mutex_unlock(addr, tid)
    }
}

/// How an attempt to lock by a deadline ends.
pub open spec fn timed_step(m: HostMutex, mutex: usize, tid: u32, now: u64, deadline: u64) -> TimedStep {
    match lock_result(m, tid) {
        Some((_, code)) => TimedStep::Done(code),
        None => if now >= deadline {
            TimedStep::Done(ETIMEDOUT)
        } else {
            TimedStep::Wait { mutex, ns: (deadline - now) as u64 }
        },
    }
}

/// How waiting for a condition begins.
pub open spec fn wait_step(s: SyncView, cond_addr: u64, mutex_addr: u64, tid: u32) -> CondStep {
    if !s.conds.contains_key(cond_addr) || !s.mutexes.contains_key(mutex_addr) {
        CondStep::Done(EINVAL)
    } else if s.at(mutex_addr).state.owner != Some(tid) {
        CondStep::Done(EPERM)
    } else {
        CondStep::Wait {
            cond: s.conds[cond_addr],
            mutex: s.mutexes[mutex_addr],
            saved: s.at(mutex_addr).state.locks,
        }
    }
}

/// The locks that have been reported as stuck.  A lock that stays stuck has nothing new
/// to say: it is reported once per waiting thread.
pub struct StuckReports {
    seen: Vec<(u64, u32)>,
}

impl View for StuckReports {
    type V = Set<(u64, u32)>;

    closed spec fn view(&self) -> Set<(u64, u32)> {
        self.seen@.to_set()
    }
}

impl StuckReports {
    pub fn new() -> (r: Self)
        ensures
            r@ == Set::<(u64, u32)>::empty(),
    {
        let r = StuckReports { seen: Vec::new() };
        assert(r@ =~= Set::<(u64, u32)>::empty());
        r
    }

    /// Whether a long wait that did not end is to be reported: the lock must still be
    /// held, by another thread, and not have been reported for this waiter.
    pub fn report_stuck_lock(&mut self, addr: u64, waiter: u32, holder: Option<u32>) -> (report:
        bool)
        ensures
            ({
                let stuck = holder is Some && holder != Some(waiter);
                &&& report == (stuck && !old(self)@.contains((addr, waiter)))
                &&& final(self)@ == (if stuck {
                    old(self)@.insert((addr, waiter))
                } else {
                    old(self)@
                })
            }),
    {
        let stuck: bool = match holder {
            Some(tid) => tid != waiter,
            None => false,
        };
        if !stuck {
            return false;
        }
        let mut i: usize = 0;
        while i < self.seen.len()
            invariant
                *self == *old(self),
                i <= self.seen@.len(),
                forall|j: int| 0 <= j < i ==> #[trigger] self.seen@[j] != (addr, waiter),
            decreases self.seen@.len() - i,
        {
            if self.seen[i].0 == addr && self.seen[i].1 == waiter {
                assert(self.seen@[i as int] == (addr, waiter));
                assert(self.seen@.contains((addr, waiter)));
                assert(self@ =~= old(self)@.insert((addr, waiter)));
                return false;
            }
            i = i + 1;
        }
        let ghost before = self.seen@;
        self.seen.push((addr, waiter));
        proof {
            assert(!before.contains((addr, waiter)));
            assert forall|p: (u64, u32)| #[trigger] self.seen@.contains(p) == (before.contains(p)
                || p == (addr, waiter)) by {
                if before.contains(p) {
                    let k = choose|k: int| 0 <= k < before.len() && before[k] == p;
                    assert(self.seen@[k] == p);
                }
                if p == (addr, waiter) {
                    assert(self.seen@[before.len() as int] == p);
                }
            }
            assert(self@ =~= old(self)@.insert((addr, waiter)));
        }
        true
    }
}

/// Mutual exclusion: while a thread holds a mutex, no step but its own changes it.  Every
/// other thread that wants it waits or is refused, and no address can be made to stand for
/// a held mutex anew.
pub proof fn law_mutual_exclusion(s: SyncView, op: SyncOp, i: int, holder: u32)
    requires
        s.wf(),
        is_step_on(s, op),
        0 <= i < s.primitives.len(),
        s.primitives[i].state.owner == Some(holder),
        actor(op) != Some(holder),
    ensures
        i < after(s, op).primitives.len(),
        after(s, op).primitives[i] == s.primitives[i],
{
    assert(s.primitives[i].wf());
}

/// A mutex that a step takes was free before, or the thread's own; and no step takes one
/// for another thread.
pub proof fn law_nobody_takes_for_another(s: SyncView, op: SyncOp, i: int)
    requires
        s.wf(),
        is_step_on(s, op),
        0 <= i < s.primitives.len(),
        after(s, op).primitives[i] != s.primitives[i],
        after(s, op).primitives[i].state.owner is Some,
    ensures
        after(s, op).primitives[i].state.owner == actor(op),
        s.primitives[i].state.owner is None || s.primitives[i].state.owner == actor(op),
{
}

/// The primitive whose waiters a step wakes, by what the step returns.
pub open spec fn woken(s: SyncView, op: SyncOp) -> Option<usize> {
    match op {
        SyncOp::Unlock { addr, tid } => unlock_outcome(s, addr, tid).1,
        SyncOp::Wait { cond_addr, mutex_addr, tid } => match wait_step(
            s,
            cond_addr,
            mutex_addr,
            tid,
        ) {
            CondStep::Wait { mutex, .. } => Some(mutex),
            CondStep::Done(_) => None,
        },
        _ => None,
    }
}

/// A step that frees a mutex wakes those who wait for it: nobody sleeps on a free mutex.
pub proof fn law_freeing_wakes(s: SyncView, op: SyncOp, i: int)
    requires
        s.wf(),
        is_step_on(s, op),
        0 <= i < s.primitives.len(),
        s.primitives[i].state.owner is Some,
        after(s, op).primitives[i].state.owner is None,
    ensures
        woken(s, op) matches Some(mutex) && mutex == i,
{
    assert(s.primitives[i].wf());
}

/// A step keeps every primitive where it is: a thread that waits for one still finds it.
pub proof fn law_primitives_stay(s: SyncView, op: SyncOp, addr: u64)
    requires
        s.wf(),
        is_step_on(s, op),
    ensures
        after(s, op).primitives.len() >= s.primitives.len(),
        s.mutexes.contains_key(addr) && op != (SyncOp::Destroy { addr }) ==> after(
            s,
            op,
        ).mutexes.contains_key(addr) && after(s, op).mutexes[addr] == s.mutexes[addr],
{
}

/// Unlocking undoes locking.
pub proof fn law_unlock_undoes_lock(m: HostMutex, tid: u32)
    requires
        m.wf(),
        countable(m, tid),
    ensures
        lock_result(m, tid) matches Some((after, 0)) ==> unlock_result(after, tid) == (m, 0i32),
{
}

/// A thread that locks a mutex anew has to unlock it once more: the mutex is free only
/// when it has been unlocked as often as it was locked.
pub proof fn law_recursion_is_counted(m: HostMutex, tid: u32)
    requires
        m.wf(),
        m.state.owner == Some(tid),
    ensures
        ({
            let (after, code) = unlock_result(m, tid);
            &&& code == 0
            &&& after.state.locks == m.state.locks - 1
            &&& (after.state.owner is None) == (m.state.locks == 1)
        }),
{
}

/// The manager after a thread has locked an address `n` times.
pub open spec fn locked_times(s: SyncView, addr: u64, tid: u32, n: nat) -> SyncView
    decreases n,
{
    if n == 0 {
        s
    } else {
        after(locked_times(s, addr, tid, (n - 1) as nat), SyncOp::Lock { addr, tid })
    }
}

/// The manager after a thread has unlocked an address `n` times.
pub open spec fn unlocked_times(s: SyncView, addr: u64, tid: u32, n: nat) -> SyncView
    decreases n,
{
    if n == 0 {
        s
    } else {
        after(unlocked_times(s, addr, tid, (n - 1) as nat), SyncOp::Unlock { addr, tid })
    }
}

/// The mutex as a thread holds it that has locked it `depth` times.
pub open spec fn held_deep(m: HostMutex, tid: u32, depth: nat) -> HostMutex {
    if depth == 0 {
        released(m)
    } else {
        retaken(m, tid, depth as u32)
    }
}

/// Locking and unlocking over a whole run: a thread that locks a free mutex `n` times, each
/// time at once, holds it until it has unlocked it `n` times.  Every unlock up to then goes
/// well and leaves the thread holding it as often as is left; the one after is refused, and
/// so is every unlock by another thread meanwhile, and neither changes anything.
pub proof fn law_locks_are_undone_one_by_one(
    s: SyncView,
    addr: u64,
    tid: u32,
    n: nat,
    k: nat,
    other: u32,
)
    requires
        s.wf(),
        s.mutexes.contains_key(addr),
        s.at(addr).state.owner is None,
        s.at(addr).state.mtype != MutexType::ErrorCheck,
        1 <= n <= u32::MAX,
        k <= n,
        other != tid,
    ensures
        forall|j: nat|
            j < n ==> lock_step(
                (#[trigger] locked_times(s, addr, tid, j)).at(addr),
                s.mutexes[addr],
                tid,
            ) == LockStep::Done(0),
        ({
            let u = unlocked_times(locked_times(s, addr, tid, n), addr, tid, k);
            &&& u == with_primitive(
                s,
                s.mutexes[addr] as int,
                held_deep(s.at(addr), tid, (n - k) as nat),
            )
            &&& k < n ==> unlock_outcome(u, addr, tid) == (
                0i32,
                if k + 1 == n {
                    Some(s.mutexes[addr])
                } else {
                    None
                },
            )
            &&& k == n ==> u == s && unlock_outcome(u, addr, tid) == (EPERM, None::<usize>)
                && after(u, SyncOp::Unlock { addr, tid }) == u
            &&& unlock_outcome(u, addr, other) == (EPERM, None::<usize>)
            &&& after(u, SyncOp::Unlock { addr, tid: other }) == u
        }),
{
    let i = s.mutexes[addr] as int;
    let m = s.at(addr);
    assert(s.primitives[i].wf());
    assert(m == released(m));
    assert forall|j: nat| j < n implies lock_step(
        (#[trigger] locked_times(s, addr, tid, j)).at(addr),
        s.mutexes[addr],
        tid,
    ) == LockStep::Done(0) by {
        lemma_locked_times(s, addr, tid, j);
    }
    lemma_unlocked_times(s, addr, tid, n, k);
    let u = unlocked_times(locked_times(s, addr, tid, n), addr, tid, k);
    assert(u.at(addr) == held_deep(m, tid, (n - k) as nat));
    assert(with_primitive(u, i, u.at(addr)) =~= u);
    if k == n {
        assert(u =~= s);
    }
}

proof fn lemma_locked_times(s: SyncView, addr: u64, tid: u32, n: nat)
    requires
        s.wf(),
        s.mutexes.contains_key(addr),
        s.at(addr).state.owner is None,
        s.at(addr).state.mtype != MutexType::ErrorCheck,
        n <= u32::MAX,
    ensures
        locked_times(s, addr, tid, n) == with_primitive(
            s,
            s.mutexes[addr] as int,
            held_deep(s.at(addr), tid, n),
        ),
    decreases n,
{
    let i = s.mutexes[addr] as int;
    assert(s.primitives[i].wf());
    if n == 0 {
        assert(with_primitive(s, i, held_deep(s.at(addr), tid, 0)) =~= s);
    } else {
        lemma_locked_times(s, addr, tid, (n - 1) as nat);
        assert(locked_times(s, addr, tid, n) =~= with_primitive(
            s,
            i,
            held_deep(s.at(addr), tid, n),
        ));
    }
}

proof fn lemma_unlocked_times(s: SyncView, addr: u64, tid: u32, n: nat, k: nat)
    requires
        s.wf(),
        s.mutexes.contains_key(addr),
        s.at(addr).state.owner is None,
        s.at(addr).state.mtype != MutexType::ErrorCheck,
        k <= n <= u32::MAX,
    ensures
        unlocked_times(locked_times(s, addr, tid, n), addr, tid, k) == with_primitive(
            s,
            s.mutexes[addr] as int,
            held_deep(s.at(addr), tid, (n - k) as nat),
        ),
    decreases k,
{
    lemma_locked_times(s, addr, tid, n);
    if k > 0 {
        lemma_unlocked_times(s, addr, tid, n, (k - 1) as nat);
        assert(unlocked_times(locked_times(s, addr, tid, n), addr, tid, k) =~= with_primitive(
            s,
            s.mutexes[addr] as int,
            held_deep(s.at(addr), tid, (n - k) as nat),
        ));
    }
}

/// Waiting for a condition gives the mutex back as it was, however deep it was held:
/// whatever other threads do in between, once the mutex is free again it is retaken as
/// deep, and where they do nothing everything is as it was before.
pub proof fn law_condition_wait_restores_the_mutex(
    s: SyncView,
    t: SyncView,
    cond_addr: u64,
    mutex_addr: u64,
    tid: u32,
)
    requires
        s.wf(),
        wait_step(s, cond_addr, mutex_addr, tid) is Wait,
        s.mutexes[mutex_addr] < t.primitives.len(),
        t.primitives[s.mutexes[mutex_addr] as int] == released(s.at(mutex_addr)),
    ensures
        ({
            let i = s.mutexes[mutex_addr];
            let back = SyncOp::Reacquire { mutex: i, tid, saved: s.at(mutex_addr).state.locks };
            let waiting = after(s, SyncOp::Wait { cond_addr, mutex_addr, tid });
            &&& waiting.primitives[i as int] == released(s.at(mutex_addr))
            &&& after(t, back).primitives[i as int] == s.at(mutex_addr)
            &&& after(waiting, back) == s
        }),
{
    let i = s.mutexes[mutex_addr];
    let back = SyncOp::Reacquire { mutex: i, tid, saved: s.at(mutex_addr).state.locks };
    let waiting = after(s, SyncOp::Wait { cond_addr, mutex_addr, tid });
    assert(after(waiting, back) =~= s);
}

/// Initialising a held mutex anew changes nothing; initialising one that is not held keeps
/// its primitive, so that whoever waits for it goes on waiting for it.
pub proof fn law_reinit_keeps_the_primitive(s: SyncView, addr: u64, mtype: MutexType)
    requires
        s.wf(),
        s.mutexes.contains_key(addr),
    ensures
        ({
            let t = after(s, SyncOp::Init { addr, mtype });
            &&& t.mutexes == s.mutexes
            &&& s.at(addr).held() ==> t == s
            &&& !s.at(addr).held() ==> !t.at(addr).held() && t.at(addr).state.mtype == mtype
        }),
{
}

/// The address that a step is on.
pub open spec fn address(op: SyncOp) -> Option<u64> {
    match op {
        SyncOp::Init { addr, .. } => Some(addr),
        SyncOp::Destroy { addr } => Some(addr),
        SyncOp::Lock { addr, .. } => Some(addr),
        SyncOp::Unlock { addr, .. } => Some(addr),
        SyncOp::TryLock { addr, .. } => Some(addr),
        SyncOp::TimedLock { addr, .. } => Some(addr),
        SyncOp::Wait { mutex_addr, .. } => Some(mutex_addr),
        SyncOp::Attempt { .. } | SyncOp::Reacquire { .. } => None,
    }
}

/// A step on one address leaves the mutex of every other one alone.
pub proof fn law_mutexes_are_independent(s: SyncView, op: SyncOp, a: u64, b: u64)
    requires
        s.wf(),
        s.primitives.len() <= usize::MAX,
        address(op) == Some(a),
        s.mutexes.contains_key(b),
        a != b,
    ensures
        after(s, op).mutexes.contains_key(b),
        after(s, op).at(b) == s.at(b),
{
}

/// The codes that the guest knows, and how long a thread waits before its lock is called stuck.
pub proof fn law_codes()
    ensures
        EPERM == 1 && EDEADLK == 11 && EBUSY == 16 && EINVAL == 22 && ETIMEDOUT == 60,
        STUCK_LOCK_REPORT_AFTER_NS == 5_000_000_000,
{
}

/// Who may lock: a free mutex is taken, once; its owner takes it once more, unless it checks for
/// that and answers 11; everybody else waits for it, and changes nothing.
pub proof fn law_locking(m: HostMutex, mutex: usize, tid: u32)
    requires
        m.state.locks < u32::MAX,
    ensures
        ({
            let after = locked(m, tid).state;
            let step = lock_step(m, mutex, tid);
            &&& after.mtype == m.state.mtype
            &&& m.state.owner is None ==> step == LockStep::Done(0) && after.owner == Some(tid)
                && after.locks == 1
            &&& m.state.owner == Some(tid) && m.state.mtype is ErrorCheck ==> step
                == LockStep::Done(11) && after == m.state
            &&& m.state.owner == Some(tid) && !(m.state.mtype is ErrorCheck) ==> step
                == LockStep::Done(0) && after.owner == Some(tid) && after.locks == m.state.locks + 1
            &&& (m.state.owner is Some && m.state.owner != Some(tid)) ==> step == (LockStep::Wait {
                mutex,
            }) && after == m.state
        }),
{
}

/// A lock by a deadline ends as a lock does where it need not wait; else it waits for what is left
/// until the deadline, and answers 60 once nothing is.
pub proof fn law_deadlines(m: HostMutex, mutex: usize, tid: u32, now: u64, deadline: u64)
    ensures
        ({
            let step = timed_step(m, mutex, tid, now, deadline);
            &&& lock_step(m, mutex, tid) matches LockStep::Done(code) ==> step == TimedStep::Done(
                code,
            )
            &&& lock_step(m, mutex, tid) is Wait && now < deadline ==> (step matches TimedStep::Wait {
                mutex: on,
                ns,
            } && on == mutex && now + ns == deadline)
            &&& lock_step(m, mutex, tid) is Wait && now >= deadline ==> step == TimedStep::Done(60)
        }),
{
}

/// Who may unlock: the owner, once for each lock; the last frees the mutex, and wakes those who
/// wait for it.  Another thread is answered 1, an address without a mutex 22, and nothing
/// changes.
pub proof fn law_unlocking(s: SyncView, addr: u64, tid: u32)
    requires
        s.wf(),
    ensures
        ({
            let t = after(s, SyncOp::Unlock { addr, tid });
            let outcome = unlock_outcome(s, addr, tid);
            let state = s.at(addr).state;
            let i = s.mutexes[addr];
            let mine = s.mutexes.contains_key(addr) && state.owner == Some(tid);
            &&& !s.mutexes.contains_key(addr) ==> outcome == (22i32, None::<usize>) && t == s
            &&& s.mutexes.contains_key(addr) && !mine ==> outcome == (1i32, None::<usize>) && t == s
            &&& mine && state.locks > 1 ==> outcome == (0i32, None::<usize>) && t.at(addr).state == (
            HostMutexState { locks: (state.locks - 1) as u32, ..state })
            &&& mine && state.locks == 1 ==> outcome == (0i32, Some(i)) && t.at(addr).state == (
            HostMutexState { owner: None, locks: 0, mtype: state.mtype })
            &&& t.mutexes == s.mutexes && t.conds == s.conds && t.rwlocks == s.rwlocks
        }),
{
    let t = after(s, SyncOp::Unlock { addr, tid });
    if s.mutexes.contains_key(addr) && s.at(addr).state.owner != Some(tid) {
        assert(t.primitives =~= s.primitives);
    }
}

/// Locking an address that has no mutex makes a normal one, which the thread then holds once;
/// else the mutex that is there is locked, as an attempt on it would be.  A lock by a deadline
/// makes none.
pub proof fn law_lock_steps(s: SyncView, addr: u64, tid: u32)
    requires
        s.wf(),
        s.primitives.len() < usize::MAX,
    ensures
        ({
            let t = after(s, SyncOp::Lock { addr, tid });
            let i = s.mutexes[addr];
            &&& !s.mutexes.contains_key(addr) ==> {
                &&& t.mutexes == s.mutexes.insert(addr, s.primitives.len() as usize)
                &&& t.primitives.len() == s.primitives.len() + 1
                &&& t.primitives.drop_last() == s.primitives
                &&& t.primitives.last().state == (HostMutexState {
                    owner: Some(tid),
                    locks: 1,
                    mtype: MutexType::Normal,
                })
                &&& lock_step(ensured(s, addr).at(addr), 0, tid) == LockStep::Done(0)
                &&& ensured(s, addr).mutexes[addr] == s.primitives.len()
                &&& after(s, SyncOp::TimedLock { addr, tid }) == s
            }
            &&& s.mutexes.contains_key(addr) ==> {
                &&& t.mutexes == s.mutexes
                &&& t.primitives == s.primitives.update(i as int, locked(s.at(addr), tid))
                &&& ensured(s, addr) == s
                &&& after(s, SyncOp::TimedLock { addr, tid }) == t
                &&& after(s, SyncOp::Attempt { mutex: i, tid }) == t
            }
            &&& t.conds == s.conds && t.rwlocks == s.rwlocks && t.next_cond == s.next_cond
        }),
{
    let t = after(s, SyncOp::Lock { addr, tid });
    if s.mutexes.contains_key(addr) {
        let i = s.mutexes[addr] as int;
        assert(t.primitives =~= s.primitives.update(i, locked(s.at(addr), tid)));
    } else {
        assert(t.primitives.drop_last() =~= s.primitives);
    }
}

/// A try takes a mutex that is free, or that is the thread's own and counts; in every other case
/// it changes nothing.
pub proof fn law_trying(s: SyncView, addr: u64, tid: u32, contended: bool)
    requires
        s.wf(),
    ensures
        ({
            let t = after(s, SyncOp::TryLock { addr, tid, contended });
            let state = s.at(addr).state;
            let takes = s.mutexes.contains_key(addr) && !contended && (state.owner is None || (
            state.owner == Some(tid) && state.mtype is Recursive));
            &&& !takes ==> t == s
            &&& takes ==> t.mutexes == s.mutexes && t.primitives == s.primitives.update(
                s.mutexes[addr] as int,
                locked(s.at(addr), tid),
            )
            &&& is_free_for(s.at(addr), tid) <==> state.owner is None || (state.owner == Some(tid)
                && state.mtype is Recursive)
        }),
{
}

/// A mutex is initialised free and of the type that was asked for: at a new address as a new one,
/// else in its place, unless somebody holds it.  Once destroyed its address names none, and the
/// primitive stays.
pub proof fn law_initialising(s: SyncView, addr: u64, mtype: MutexType)
    requires
        s.wf(),
    ensures
        ({
            let t = after(s, SyncOp::Init { addr, mtype });
            let fresh = HostMutex { state: HostMutexState { owner: None, locks: 0, mtype } };
            let gone = after(s, SyncOp::Destroy { addr });
            &&& !s.mutexes.contains_key(addr) ==> t.mutexes == s.mutexes.insert(
                addr,
                s.primitives.len() as usize,
            ) && t.primitives == s.primitives.push(fresh)
            &&& s.mutexes.contains_key(addr) && s.at(addr).state.locks == 0 ==> t.mutexes
                == s.mutexes && t.primitives == s.primitives.update(s.mutexes[addr] as int, fresh)
            &&& s.mutexes.contains_key(addr) && s.at(addr).state.locks > 0 ==> t == s
            &&& s.mutexes.contains_key(addr) ==> (s.at(addr).held() <==> s.at(addr).state.locks > 0)
            &&& gone.mutexes == s.mutexes.remove(addr) && gone.primitives == s.primitives
            &&& gone.conds == s.conds && gone.rwlocks == s.rwlocks
        }),
{
}

/// A wait for a condition needs the condition, the mutex, and the thread to hold it: without the
/// first two it is answered 22, without the last 1, and changes nothing.  With all of them the
/// mutex is free while the thread waits, and how deep it was held is kept.
pub proof fn law_waiting(s: SyncView, cond_addr: u64, mutex_addr: u64, tid: u32)
    requires
        s.wf(),
    ensures
        ({
            let t = after(s, SyncOp::Wait { cond_addr, mutex_addr, tid });
            let step = wait_step(s, cond_addr, mutex_addr, tid);
            let there = s.conds.contains_key(cond_addr) && s.mutexes.contains_key(mutex_addr);
            let state = s.at(mutex_addr).state;
            &&& !there ==> step == CondStep::Done(22) && t == s
            &&& there && state.owner != Some(tid) ==> step == CondStep::Done(1) && t == s
            &&& there && state.owner == Some(tid) ==> {
                &&& step == (CondStep::Wait {
                    cond: s.conds[cond_addr],
                    mutex: s.mutexes[mutex_addr],
                    saved: state.locks,
                })
                &&& t.at(mutex_addr).state == (HostMutexState {
                    owner: None,
                    locks: 0,
                    mtype: state.mtype,
                })
                &&& t.mutexes == s.mutexes && t.conds == s.conds
            }
        }),
{
}

/// A mutex is taken back where it is free, as deep as was kept; where another thread has it
/// nothing changes.
pub proof fn law_taking_back(s: SyncView, mutex: usize, tid: u32, saved: u32)
    requires
        mutex < s.primitives.len(),
    ensures
        ({
            let t = after(s, SyncOp::Reacquire { mutex, tid, saved });
            let state = s.primitives[mutex as int].state;
            &&& state.owner is Some ==> t == s
            &&& state.owner is None ==> t.mutexes == s.mutexes && t.primitives
                == s.primitives.update(
                mutex as int,
                HostMutex {
                    state: HostMutexState { owner: Some(tid), locks: saved, mtype: state.mtype },
                },
            )
        }),
{
}

} // verus!
