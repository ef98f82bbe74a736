//! Tests for semaphores and mutexes, including pend queues, timeouts
//! and priority inheritance.

use ucosiii::error::OsError;
use ucosiii::kernel::Kernel;
use ucosiii::kernel::os_init;
use ucosiii::kernel::os_start;
use ucosiii::mutex::OsMutex;
use ucosiii::sem::OsSem;
use ucosiii::sem::Semaphore;
use ucosiii::task::os_task_create;
use ucosiii::time::os_tick_handler;
use ucosiii::types::OsPendStatus;
use ucosiii::types::OsTaskState;
use ucosiii::types::opt::PEND_NON_BLOCKING;

const STK: usize = 0x2000_0000;

fn switch(k: &mut Kernel) {
    if k.ctx_sw_pending {
        k.cpu.tcb_cur = k.cpu.tcb_high_rdy;
        k.cpu.prio_cur = k.cpu.prio_high_rdy;
        k.ctx_sw_pending = false;
    }
}

fn run_as(k: &mut Kernel, t: usize) {
    k.cpu.tcb_cur = Some(t);
    k.cpu.prio_cur = k.tcbs[t].prio;
}

#[test]
fn test_sem_counts() {
    let mut k = os_init().unwrap();
    let _t1 = os_task_create(&mut k, "a", 1, 10, STK, 256).unwrap();
    os_start(&mut k).unwrap();
    switch(&mut k);
    let mut sem = OsSem::new(2);
    // taking an available semaphore decreases the count by one
    assert_eq!(sem.pend(&mut k, 0, PEND_NON_BLOCKING), Ok(1));
    assert_eq!(sem.count(), 1);
    // posting with no waiter increases it by one
    assert_eq!(sem.post(&mut k, 0), Ok(2));
    assert_eq!(sem.count(), 2);
    // repeated alternation preserves the count
    for _ in 0..10 {
        assert_eq!(sem.pend(&mut k, 0, PEND_NON_BLOCKING), Ok(1));
        assert_eq!(sem.post(&mut k, 0), Ok(2));
    }
    assert_eq!(sem.count(), 2);
    // empty and non-blocking: refused without touching the count
    assert_eq!(sem.pend(&mut k, 0, PEND_NON_BLOCKING), Ok(1));
    assert_eq!(sem.pend(&mut k, 0, PEND_NON_BLOCKING), Ok(0));
    assert_eq!(sem.pend(&mut k, 0, PEND_NON_BLOCKING), Err(OsError::PendWouldBlock));
    assert_eq!(sem.count(), 0);
}

#[test]
fn test_sem_overflow() {
    let mut k = os_init().unwrap();
    let _t1 = os_task_create(&mut k, "a", 1, 10, STK, 256).unwrap();
    os_start(&mut k).unwrap();
    let mut sem = OsSem::new(u32::MAX);
    assert_eq!(sem.post(&mut k, 0), Err(OsError::SemOvf));
    assert_eq!(sem.count(), u32::MAX);
}

#[test]
fn test_sem_pend_timeout() {
    let mut k = os_init().unwrap();
    let t1 = os_task_create(&mut k, "a", 1, 10, STK, 256).unwrap();
    os_start(&mut k).unwrap();
    switch(&mut k);
    let mut sem = OsSem::new(0);
    // nobody posts: the waiter blocks with a 100-tick timeout
    assert_eq!(sem.pend(&mut k, 100, 0), Ok(0));
    assert_eq!(k.tcbs[t1].task_state, OsTaskState::PendTimeout);
    switch(&mut k);
    for _ in 0..99 {
        os_tick_handler(&mut k);
        assert_ne!(k.tcbs[t1].task_state, OsTaskState::Ready);
    }
    os_tick_handler(&mut k);
    // after exactly 100 ticks the waiter is ready with a Timeout verdict
    assert_eq!(k.tcbs[t1].task_state, OsTaskState::Ready);
    assert_eq!(k.tcbs[t1].pend_status, OsPendStatus::Timeout);
    // the count is unchanged, and the waiter left the pend queue and
    // the tick wheel
    assert_eq!(sem.count(), 0);
    let q = sem.pend_q.unwrap();
    assert!(k.pend_qs[q].is_empty());
    for s in 0..16 {
        assert!(k.sched.tick_wheel[s].is_empty());
    }
}

#[test]
fn test_sem_wakes_in_priority_then_fifo_order() {
    let mut k = os_init().unwrap();
    let ta = os_task_create(&mut k, "a", 1, 10, STK, 256).unwrap();
    let tb = os_task_create(&mut k, "b", 2, 5, STK, 256).unwrap();
    let tc = os_task_create(&mut k, "c", 3, 10, STK, 256).unwrap();
    os_start(&mut k).unwrap();
    let mut sem = OsSem::new(0);
    // three tasks block in the order a, b, c
    run_as(&mut k, ta);
    assert_eq!(sem.pend(&mut k, 0, 0), Ok(0));
    run_as(&mut k, tb);
    assert_eq!(sem.pend(&mut k, 0, 0), Ok(0));
    run_as(&mut k, tc);
    assert_eq!(sem.pend(&mut k, 0, 0), Ok(0));
    let q = sem.pend_q.unwrap();
    assert_eq!(k.pend_qs[q].count(), 3);
    // the queue is priority-ordered: b (5) first, then a and c (10)
    // in FIFO order
    assert_eq!(k.pend_qs[q].head(), Some(tb));
    run_as(&mut k, 0);
    assert_eq!(sem.post(&mut k, 0), Ok(0));
    assert_eq!(k.tcbs[tb].task_state, OsTaskState::Ready);
    assert_eq!(k.pend_qs[q].head(), Some(ta));
    assert_eq!(sem.post(&mut k, 0), Ok(0));
    assert_eq!(k.tcbs[ta].task_state, OsTaskState::Ready);
    assert_eq!(k.pend_qs[q].head(), Some(tc));
    assert_eq!(sem.post(&mut k, 0), Ok(0));
    assert_eq!(k.tcbs[tc].task_state, OsTaskState::Ready);
    assert!(k.pend_qs[q].is_empty());
}

#[test]
fn test_semaphore_wrapper() {
    let mut k = os_init().unwrap();
    let _t1 = os_task_create(&mut k, "a", 1, 10, STK, 256).unwrap();
    os_start(&mut k).unwrap();
    switch(&mut k);
    let mut sem = Semaphore::new(0);
    sem.create(&mut k, 1, "s").unwrap();
    assert_eq!(sem.count(), 1);
    assert_eq!(sem.wait(&mut k, 0, PEND_NON_BLOCKING), Ok(0));
    assert_eq!(sem.signal(&mut k, 0), Ok(1));
    assert_eq!(sem.count(), 1);
}

#[test]
fn test_mutex_recursive() {
    let mut k = os_init().unwrap();
    let t1 = os_task_create(&mut k, "a", 1, 10, STK, 256).unwrap();
    os_start(&mut k).unwrap();
    switch(&mut k);
    let mut m = OsMutex::new();
    // take the mutex five times in a row
    for i in 0..5u8 {
        assert_eq!(m.pend(&mut k, 0, 0), Ok(()));
        assert_eq!(m.owner, Some(t1));
        assert_eq!(m.nesting_ctr, i + 1);
    }
    // release it five times; after the fifth it is free
    for i in 0..5u8 {
        assert_eq!(m.post(&mut k, 0), Ok(()));
        if i < 4 {
            assert_eq!(m.owner, Some(t1));
            assert_eq!(m.nesting_ctr, 4 - i);
        }
    }
    assert_eq!(m.owner, None);
    assert_eq!(m.nesting_ctr, 0);
    assert!(!m.is_owned());
    // an extra release is refused
    assert_eq!(m.post(&mut k, 0), Err(OsError::MutexNotOwner));
}

#[test]
fn test_mutex_round_trip_restores_priority() {
    let mut k = os_init().unwrap();
    let t1 = os_task_create(&mut k, "a", 1, 10, STK, 256).unwrap();
    os_start(&mut k).unwrap();
    switch(&mut k);
    let mut m = OsMutex::new();
    assert_eq!(m.pend(&mut k, 0, 0), Ok(()));
    assert_eq!(m.post(&mut k, 0), Ok(()));
    assert_eq!(m.owner, None);
    assert_eq!(m.nesting_ctr, 0);
    assert_eq!(k.tcbs[t1].prio, k.tcbs[t1].base_prio);
}

#[test]
fn test_mutex_priority_inheritance() {
    let mut k = os_init().unwrap();
    let tl = os_task_create(&mut k, "low", 1, 15, STK, 256).unwrap();
    let tm = os_task_create(&mut k, "mid", 2, 10, STK, 256).unwrap();
    let th = os_task_create(&mut k, "high", 3, 5, STK, 256).unwrap();
    os_start(&mut k).unwrap();
    let mut m = OsMutex::new();
    // the low-priority task takes the mutex
    run_as(&mut k, tl);
    assert_eq!(m.pend(&mut k, 0, 0), Ok(()));
    assert_eq!(m.owner_prio(&k), Some(15));
    // the high-priority task tries to take it and blocks; the owner
    // inherits the waiter's priority
    run_as(&mut k, th);
    assert_eq!(m.pend(&mut k, 0, 0), Ok(()));
    assert_eq!(k.tcbs[th].task_state, OsTaskState::Pend);
    assert_eq!(k.tcbs[tl].prio, 5);
    assert_eq!(m.owner_prio(&k), Some(5));
    // the boosted owner now outranks the middle task in the ready set
    assert_eq!(k.sched.rdy_list[5].head(), Some(tl));
    assert!(k.sched.prio_tbl.is_set(5));
    assert_eq!(k.sched.prio_tbl.get_highest(), 5);
    // the owner releases: its base priority returns, the waiter gets
    // the mutex and becomes ready
    run_as(&mut k, tl);
    assert_eq!(m.post(&mut k, 0), Ok(()));
    assert_eq!(k.tcbs[tl].prio, 15);
    assert_eq!(m.owner, Some(th));
    assert_eq!(m.nesting_ctr, 1);
    assert_eq!(k.tcbs[th].task_state, OsTaskState::Ready);
    // the next task to run is the unblocked high-priority waiter
    switch(&mut k);
    assert_eq!(k.cpu.tcb_cur, Some(th));
    let _ = tm;
}

#[test]
fn test_mutex_non_blocking_and_timeout() {
    let mut k = os_init().unwrap();
    let tl = os_task_create(&mut k, "low", 1, 15, STK, 256).unwrap();
    let th = os_task_create(&mut k, "high", 2, 5, STK, 256).unwrap();
    os_start(&mut k).unwrap();
    let mut m = OsMutex::new();
    run_as(&mut k, tl);
    assert_eq!(m.pend(&mut k, 0, 0), Ok(()));
    run_as(&mut k, th);
    assert_eq!(m.pend(&mut k, 0, PEND_NON_BLOCKING), Err(OsError::PendWouldBlock));
    // pending with a timeout joins the tick wheel; expiry promotes
    // the waiter with a Timeout verdict
    assert_eq!(m.pend(&mut k, 8, 0), Ok(()));
    assert_eq!(k.tcbs[th].task_state, OsTaskState::PendTimeout);
    run_as(&mut k, tl);
    for _ in 0..8 {
        os_tick_handler(&mut k);
    }
    assert_eq!(k.tcbs[th].task_state, OsTaskState::Ready);
    assert_eq!(k.tcbs[th].pend_status, OsPendStatus::Timeout);
    // the mutex is still owned by the low task
    assert_eq!(m.owner, Some(tl));
}

#[test]
fn test_isr_context_rejections() {
    let mut k = os_init().unwrap();
    let t1 = os_task_create(&mut k, "a", 1, 10, STK, 256).unwrap();
    os_start(&mut k).unwrap();
    switch(&mut k);
    let mut sem = OsSem::new(1);
    let mut m = OsMutex::new();
    // enter ISR context: the context-bound calls are refused
    k.flags.int_enter();
    assert_eq!(sem.pend(&mut k, 0, 0), Err(OsError::PendIsr));
    assert_eq!(m.pend(&mut k, 0, 0), Err(OsError::PendIsr));
    assert_eq!(m.post(&mut k, 0), Err(OsError::AcceptIsr));
    assert_eq!(sem.set(&k, 5), Err(OsError::AcceptIsr));
    assert_eq!(
        ucosiii::time::os_time_dly(&mut k, 5),
        Err(OsError::TimeDlyIsr)
    );
    assert_eq!(
        ucosiii::time::os_time_dly_resume(&mut k, t1),
        Err(OsError::TimeDlyIsr)
    );
    assert_eq!(
        os_task_create(&mut k, "b", 2, 11, STK, 256),
        Err(OsError::TaskCreateIsr)
    );
    assert_eq!(
        ucosiii::task::os_task_del(&mut k, Some(t1)),
        Err(OsError::TaskDelIsr)
    );
    assert_eq!(
        ucosiii::task::os_task_suspend(&mut k, Some(t1)),
        Err(OsError::TaskSuspendIsr)
    );
    assert_eq!(
        ucosiii::task::os_task_resume(&mut k, t1),
        Err(OsError::TaskResumeIsr)
    );
    assert_eq!(
        ucosiii::kernel::os_sched_lock(&mut k),
        Err(OsError::SchedLockIsr)
    );
    assert_eq!(
        ucosiii::kernel::os_sched_unlock(&mut k),
        Err(OsError::SchedUnlockIsr)
    );
    // posting a semaphore is valid from ISR context
    assert_eq!(sem.post(&mut k, 0), Ok(2));
}

#[test]
fn test_object_type_checked() {
    let mut k = os_init().unwrap();
    let _t1 = os_task_create(&mut k, "a", 1, 10, STK, 256).unwrap();
    os_start(&mut k).unwrap();
    switch(&mut k);
    let mut sem = OsSem::new(1);
    sem.obj_type = ucosiii::types::OsObjType::Queue;
    assert_eq!(sem.pend(&mut k, 0, 0), Err(OsError::ObjType));
    assert_eq!(sem.post(&mut k, 0), Err(OsError::ObjType));
    let mut m = OsMutex::new();
    m.obj_type = ucosiii::types::OsObjType::Queue;
    assert_eq!(m.pend(&mut k, 0, 0), Err(OsError::ObjType));
    assert_eq!(m.post(&mut k, 0), Err(OsError::ObjType));
}

#[test]
fn test_mutex_nesting_overflow() {
    let mut k = os_init().unwrap();
    let _t1 = os_task_create(&mut k, "a", 1, 10, STK, 256).unwrap();
    os_start(&mut k).unwrap();
    switch(&mut k);
    let mut m = OsMutex::new();
    for _ in 0..255 {
        assert_eq!(m.pend(&mut k, 0, 0), Ok(()));
    }
    assert_eq!(m.nesting_ctr, 255);
    assert_eq!(m.pend(&mut k, 0, 0), Err(OsError::MutexOvf));
}

#[test]
fn test_critical_section_flag() {
    let mut k = os_init().unwrap();
    let cs = ucosiii::critical::CriticalSection::enter(&mut k);
    assert!(ucosiii::critical::CriticalSection::is_active(&k));
    cs.leave(&mut k);
    assert!(!ucosiii::critical::CriticalSection::is_active(&k));
}

#[test]
fn test_producer_consumer_simulation() {
    // A producer at a lower priority posts a semaphore and then sleeps
    // 200 ticks; a consumer at a higher priority pends in a loop. Over
    // 10000 simulated ticks the consumer consumes every post, and
    // every pend ends with a success verdict.
    let mut k = os_init().unwrap();
    let cons = os_task_create(&mut k, "cons", 1, 10, STK, 256).unwrap();
    let prod = os_task_create(&mut k, "prod", 2, 15, STK, 256).unwrap();
    os_start(&mut k).unwrap();
    switch(&mut k);
    let mut sem = OsSem::new(0);
    let mut produced = 0u32;
    let mut consumed = 0u32;
    let mut cons_waiting = false;
    let mut prod_must_sleep = false;
    for _ in 0..10_000u32 {
        // let the running task act until it blocks or idles
        loop {
            let cur = k.cpu.tcb_cur;
            if cur == Some(cons) {
                if cons_waiting {
                    // the consumer was woken: observe the verdict
                    assert_eq!(k.tcbs[cons].pend_status, OsPendStatus::PendOk);
                    consumed += 1;
                    cons_waiting = false;
                }
                let before = k.tcbs[cons].task_state;
                let r = sem.pend(&mut k, 0, 0);
                assert!(r.is_ok());
                if k.tcbs[cons].task_state != before {
                    // blocked: wait for a post
                    cons_waiting = true;
                } else {
                    // took an available count immediately
                    consumed += 1;
                    continue;
                }
            } else if cur == Some(prod) {
                if prod_must_sleep {
                    prod_must_sleep = false;
                    ucosiii::time::os_time_dly(&mut k, 200).unwrap();
                } else {
                    sem.post(&mut k, 0).unwrap();
                    produced += 1;
                    prod_must_sleep = true;
                }
            }
            if k.ctx_sw_pending {
                switch(&mut k);
            } else if cur == Some(0) || cur.is_none() {
                break;
            } else if cur == k.cpu.tcb_cur && !(cur == Some(prod)) {
                break;
            }
        }
        os_tick_handler(&mut k);
        switch(&mut k);
    }
    assert!(produced >= 49 && produced <= 51, "produced {}", produced);
    assert_eq!(consumed, produced);
    assert_eq!(sem.count(), 0);
}
