use unemups4::kernel::sync::{
    CondStep, HostCond, HostMutex, LockStep, MutexType, Notify, StuckReports, SyncManager,
    TimedStep,
};

const ME: u32 = 7;
const YOU: u32 = 8;

fn is_held(mgr: &SyncManager, mutex: usize) -> bool {
    let state = mgr.state_of(mutex);
    state.owner.is_some() || state.locks > 0
}

#[test]
fn reinit_of_a_held_mutex_returns_ebusy_and_does_not_swap() {
    let mut mgr = SyncManager::new();
    let addr = 0x1000u64;

    assert_eq!(mgr.mutex_init(addr, MutexType::Normal).0, 0);
    assert_eq!(mgr.mutex_lock(addr, ME), LockStep::Done(0));
    let before = mgr.lookup(addr).unwrap();
    assert!(is_held(&mgr, before), "mutex is held after lock");

    assert_eq!(
        mgr.mutex_init(addr, MutexType::Recursive).0,
        16,
        "re-init of a held mutex returns EBUSY"
    );
    let after = mgr.lookup(addr).unwrap();
    assert_eq!(before, after, "the held mutex must NOT be swapped by a rejected re-init");
    assert!(is_held(&mgr, after), "the mutex is still held (mutual exclusion preserved)");
    assert_eq!(mgr.mutex_unlock(addr, ME).0, 0);
}

#[test]
fn reinit_of_an_unheld_mutex_succeeds_and_resets_in_place() {
    let mut mgr = SyncManager::new();
    let addr = 0x2000u64;

    assert_eq!(mgr.mutex_init(addr, MutexType::Normal).0, 0);
    let before = mgr.lookup(addr).unwrap();
    assert!(!is_held(&mgr, before), "freshly-init'd mutex is not held");
    assert_eq!(mgr.state_of(before).mtype, MutexType::Normal);

    assert_eq!(
        mgr.mutex_init(addr, MutexType::Recursive),
        (0, Some(before)),
        "re-init of an unheld mutex succeeds"
    );
    let after = mgr.lookup(addr).unwrap();
    assert_eq!(
        before, after,
        "an unheld mutex is reset in place, not swapped, so parked waiters stay coherent"
    );
    let state = mgr.state_of(after);
    assert_eq!(
        state.mtype,
        MutexType::Recursive,
        "re-init installs the requested type in place"
    );
    assert_eq!(state.owner, None, "re-init leaves the mutex unowned");
    assert_eq!(state.locks, 0, "re-init resets the lock count");
}

#[test]
fn a_lock_is_counted_and_exclusive() {
    let mut mgr = SyncManager::new();
    assert_eq!(mgr.mutex_lock(0x10, ME), LockStep::Done(0));
    assert_eq!(mgr.mutex_lock(0x10, ME), LockStep::Done(0));
    let id = mgr.lookup(0x10).unwrap();
    assert_eq!(mgr.mutex_lock(0x10, YOU), LockStep::Wait { mutex: id });
    assert_eq!(mgr.mutex_unlock(0x10, YOU), (1, None));
    assert_eq!(mgr.mutex_unlock(0x10, ME), (0, None));
    assert_eq!(mgr.lock_attempt(id, YOU), LockStep::Wait { mutex: id });
    assert_eq!(mgr.mutex_unlock(0x10, ME), (0, Some(id)));
    assert_eq!(mgr.lock_attempt(id, YOU), LockStep::Done(0));
    assert_eq!(mgr.mutex_unlock(0x99, ME), (22, None));
    assert_eq!(mgr.mutex_unlock(0x10, ME), (1, None));
}

#[test]
fn an_error_checking_mutex_refuses_its_owner() {
    let mut mgr = SyncManager::new();
    mgr.mutex_init(0x10, MutexType::ErrorCheck);
    assert_eq!(mgr.mutex_lock(0x10, ME), LockStep::Done(0));
    assert_eq!(mgr.mutex_lock(0x10, ME), LockStep::Done(11));
    assert_eq!(mgr.mutex_unlock(0x10, ME).0, 0);
}

#[test]
fn trying_never_waits() {
    let mut mgr = SyncManager::new();
    assert_eq!(mgr.mutex_trylock(0x10, ME, false), 22);
    mgr.mutex_init(0x10, MutexType::Normal);
    assert_eq!(mgr.mutex_trylock(0x10, ME, true), 16);
    assert_eq!(mgr.mutex_trylock(0x10, ME, false), 0);
    assert_eq!(mgr.mutex_trylock(0x10, ME, false), 16);
    assert_eq!(mgr.mutex_trylock(0x10, YOU, false), 16);
    mgr.mutex_init(0x20, MutexType::Recursive);
    assert_eq!(mgr.mutex_trylock(0x20, ME, false), 0);
    assert_eq!(mgr.mutex_trylock(0x20, ME, false), 0);
    assert_eq!(mgr.state_of(mgr.lookup(0x20).unwrap()).locks, 2);
}

#[test]
fn a_deadline_is_kept() {
    let mut mgr = SyncManager::new();
    assert_eq!(mgr.mutex_timedlock(0x10, ME, 0, 100), TimedStep::Done(22));
    mgr.mutex_init(0x10, MutexType::Normal);
    assert_eq!(mgr.mutex_timedlock(0x10, ME, 0, 100), TimedStep::Done(0));
    let id = mgr.lookup(0x10).unwrap();
    assert_eq!(
        mgr.mutex_timedlock(0x10, YOU, 40, 100),
        TimedStep::Wait { mutex: id, ns: 60 }
    );
    assert_eq!(mgr.timed_attempt(id, YOU, 100, 100), TimedStep::Done(60));
    mgr.mutex_unlock(0x10, ME);
    assert_eq!(mgr.timed_woken(id, YOU, 100, 100, true), TimedStep::Done(60));
    assert_eq!(mgr.state_of(id).owner, None);
    assert_eq!(mgr.timed_woken(id, YOU, 500, 100, false), TimedStep::Done(0));
    assert_eq!(mgr.state_of(id).owner, Some(YOU));
}

#[test]
fn a_condition_gives_the_mutex_back_as_deep_as_it_was() {
    let mut mgr = SyncManager::new();
    assert_eq!(mgr.cond_wait(0xC0, 0x10, ME), CondStep::Done(22));
    assert_eq!(mgr.cond_init(0xC0), 0);
    assert_eq!(mgr.cond_init(0xC0), 16);
    assert_eq!(mgr.cond_wait(0xC0, 0x10, ME), CondStep::Done(22));
    mgr.mutex_init(0x10, MutexType::Recursive);
    assert_eq!(mgr.cond_wait(0xC0, 0x10, ME), CondStep::Done(1));
    mgr.mutex_lock(0x10, ME);
    mgr.mutex_lock(0x10, ME);
    let (mutex, saved) = match mgr.cond_wait(0xC0, 0x10, ME) {
        CondStep::Wait { mutex, saved, .. } => (mutex, saved),
        step => panic!("{:?}", step),
    };
    assert_eq!(saved, 2);
    assert_eq!(mgr.mutex_lock(0x10, YOU), LockStep::Done(0));
    assert!(!mgr.cond_reacquire(mutex, ME, saved));
    mgr.mutex_unlock(0x10, YOU);
    assert!(mgr.cond_reacquire(mutex, ME, saved));
    assert_eq!(mgr.state_of(mutex).locks, 2);
    assert_eq!(mgr.state_of(mutex).owner, Some(ME));
}

#[test]
fn cond_reused_with_two_different_mutexes_does_not_panic() {
    let mut mgr = SyncManager::new();
    let cond = 0xC000u64;
    let mtx_a = 0xA000u64;
    let mtx_b = 0xB000u64;
    assert_eq!(mgr.cond_init(cond), 0);
    assert_eq!(mgr.mutex_init(mtx_a, MutexType::Normal).0, 0);
    assert_eq!(mgr.mutex_init(mtx_b, MutexType::Normal).0, 0);
    for mtx in [mtx_a, mtx_b] {
        assert_eq!(mgr.mutex_lock(mtx, ME), LockStep::Done(0));
        match mgr.cond_wait(cond, mtx, ME) {
            CondStep::Wait { mutex, saved, .. } => {
                assert!(mgr.cond_reacquire(mutex, ME, saved));
            }
            step => panic!("{:?}", step),
        }
        assert_eq!(mgr.mutex_unlock(mtx, ME).0, 0);
    }
    assert_eq!(SyncManager::cond_timedwait_code(true), 60);
    assert_eq!(SyncManager::cond_timedwait_code(false), 0);
}

#[test]
fn waiters_of_a_condition_are_woken() {
    let mut mgr = SyncManager::new();
    assert_eq!(mgr.cond_signal(0xC0), Notify::Nobody);
    mgr.cond_init(0xC0);
    mgr.cond_init(0xD0);
    assert_eq!(mgr.cond_signal(0xC0), Notify::One(HostCond::new(0)));
    assert_eq!(mgr.cond_broadcast(0xD0), Notify::All(HostCond::new(1)));
    assert_eq!(mgr.cond_destroy(0xC0), 0);
    assert_eq!(mgr.cond_destroy(0xC0), 22);
    assert_eq!(mgr.cond_broadcast(0xC0), Notify::Nobody);
}

#[test]
fn a_destroyed_mutex_keeps_its_waiters() {
    let mut mgr = SyncManager::new();
    mgr.mutex_lock(0x10, ME);
    let id = mgr.lookup(0x10).unwrap();
    assert_eq!(mgr.mutex_destroy(0x10), 0);
    assert_eq!(mgr.mutex_destroy(0x10), 22);
    assert_eq!(mgr.mutex_lock(0x10, YOU), LockStep::Done(0));
    assert_ne!(mgr.lookup(0x10).unwrap(), id);
    assert_eq!(mgr.lock_attempt(id, YOU), LockStep::Wait { mutex: id });
}

#[test]
fn read_write_locks_are_exclusive() {
    let mut mgr = SyncManager::new();
    assert_eq!(mgr.rwlock_init(0x30), 0);
    assert_eq!(mgr.rwlock_init(0x30), 16);
    assert_eq!(mgr.rwlock_rdlock(0x30, ME), LockStep::Done(0));
    assert!(matches!(mgr.rwlock_rdlock(0x30, YOU), LockStep::Wait { .. }));
    assert!(matches!(mgr.rwlock_wrlock(0x30, YOU), LockStep::Wait { .. }));
    assert_eq!(mgr.rwlock_tryrdlock(0x30, YOU, false), 16);
    assert_eq!(mgr.rwlock_unlock(0x30, ME).0, 0);
    assert_eq!(mgr.rwlock_tryrdlock(0x30, YOU, false), 0);
    assert_eq!(mgr.rwlock_trywrlock(0x30, ME, false), 16);
    assert_eq!(mgr.rwlock_unlock(0x30, YOU).0, 0);
    assert_eq!(mgr.rwlock_trywrlock(0x30, ME, true), 16);
    assert_eq!(mgr.rwlock_trywrlock(0x30, ME, false), 0);
    assert_eq!(mgr.rwlock_unlock(0x30, ME).0, 0);
    assert_eq!(mgr.rwlock_tryrdlock(0x31, ME, false), 22);
    assert_eq!(mgr.rwlock_destroy(0x30), 0);
    assert_eq!(mgr.rwlock_destroy(0x30), 22);
}

#[test]
fn a_stuck_lock_is_reported_once() {
    let mut reports = StuckReports::new();
    assert!(!reports.report_stuck_lock(0x10, ME, None));
    assert!(!reports.report_stuck_lock(0x10, ME, Some(ME)));
    assert!(reports.report_stuck_lock(0x10, ME, Some(YOU)));
    assert!(!reports.report_stuck_lock(0x10, ME, Some(YOU)));
    assert!(reports.report_stuck_lock(0x20, ME, Some(YOU)));
}

#[test]
fn a_new_mutex_is_free() {
    let m = HostMutex::new(MutexType::ErrorCheck);
    assert_eq!((m.state.owner, m.state.locks), (None, 0));
    assert_eq!(m.state.mtype, MutexType::ErrorCheck);
}

#[test]
fn locks_are_undone_one_by_one() {
    for mtype in [MutexType::Normal, MutexType::Recursive] {
        let mut mgr = SyncManager::new();
        assert_eq!(mgr.mutex_init(0x40, mtype).0, 0);
        for _ in 0..3 {
            assert_eq!(mgr.mutex_lock(0x40, ME), LockStep::Done(0));
        }
        let mutex = mgr.lookup(0x40).unwrap();
        for left in (0..3u32).rev() {
            assert_eq!(mgr.mutex_unlock(0x40, YOU), (1, None));
            let freed = if left == 0 { Some(mutex) } else { None };
            assert_eq!(mgr.mutex_unlock(0x40, ME), (0, freed));
            let state = mgr.state_of(mutex);
            let owner = if left == 0 { None } else { Some(ME) };
            assert_eq!((state.owner, state.locks), (owner, left));
        }
        assert_eq!(mgr.mutex_unlock(0x40, ME), (1, None));
    }
}
