//! Tests for kernel initialization, task lifecycle and scheduling.

use ucosiii::config::CFG_PRIO_IDLE;
use ucosiii::error::OsError;
use ucosiii::kernel::Kernel;
use ucosiii::kernel::os_init;
use ucosiii::kernel::os_sched_lock;
use ucosiii::kernel::os_sched_unlock;
use ucosiii::kernel::os_start;
use ucosiii::rdy_list::ReadyList;
use ucosiii::task::os_task_create;
use ucosiii::task::os_task_del;
use ucosiii::task::os_task_resume;
use ucosiii::task::os_task_suspend;
use ucosiii::types::OsTaskState;

const STK: usize = 0x2000_0000;

/// Perform the context switch the port would take on exception return.
fn switch(k: &mut Kernel) {
    if k.ctx_sw_pending {
        k.cpu.tcb_cur = k.cpu.tcb_high_rdy;
        k.cpu.prio_cur = k.cpu.prio_high_rdy;
        k.ctx_sw_pending = false;
    }
}

#[test]
fn test_init_creates_idle() {
    let k = os_init().unwrap();
    assert!(k.flags.is_initialized());
    assert!(!k.flags.is_running());
    assert_eq!(k.tcbs.len(), 1);
    assert_eq!(k.tcbs[0].prio, CFG_PRIO_IDLE);
    assert_eq!(k.tcbs[0].task_state, OsTaskState::Ready);
    assert_eq!(k.sched.rdy_list[CFG_PRIO_IDLE as usize].head(), Some(0));
    assert!(k.sched.prio_tbl.is_set(CFG_PRIO_IDLE));
}

#[test]
fn test_start_picks_highest() {
    let mut k = os_init().unwrap();
    assert_eq!(os_start(&mut k), Err(OsError::OsNoAppTask));
    let t1 = os_task_create(&mut k, "a", 1, 10, STK, 256).unwrap();
    let t2 = os_task_create(&mut k, "b", 2, 5, STK, 256).unwrap();
    os_start(&mut k).unwrap();
    assert!(k.flags.is_running());
    assert_eq!(k.cpu.tcb_cur, Some(t2));
    assert_eq!(k.cpu.prio_cur, 5);
    assert_eq!(os_start(&mut k), Err(OsError::OsRunning));
    let _ = t1;
}

#[test]
fn test_create_validation() {
    let mut k = os_init().unwrap();
    assert_eq!(
        os_task_create(&mut k, "x", 1, 10, 0, 256),
        Err(OsError::StkInvalid)
    );
    assert_eq!(
        os_task_create(&mut k, "x", 1, 10, STK, 16),
        Err(OsError::StkSizeInvalid)
    );
    assert_eq!(
        os_task_create(&mut k, "x", 1, 64, STK, 256),
        Err(OsError::PrioInvalid)
    );
    let t = os_task_create(&mut k, "x", 1, 10, STK, 256).unwrap();
    assert_eq!(t, 1);
    assert_eq!(k.tcbs[t].base_prio, 10);
    assert_eq!(k.tcbs[t].stk_ptr, STK + 256 - 1);
}

// Bitmap bit p set iff ready list p non-empty, along creation,
// blocking and waking paths.
fn bitmap_consistent(k: &Kernel) -> bool {
    for p in 0..64u8 {
        let listed = !k.sched.rdy_list[p as usize].is_empty();
        if k.sched.prio_tbl.is_set(p) != listed {
            return false;
        }
    }
    true
}

#[test]
fn test_bitmap_tracks_ready_lists() {
    let mut k = os_init().unwrap();
    assert!(bitmap_consistent(&k));
    let t1 = os_task_create(&mut k, "a", 1, 10, STK, 256).unwrap();
    assert!(bitmap_consistent(&k));
    let t2 = os_task_create(&mut k, "b", 2, 10, STK, 256).unwrap();
    assert!(bitmap_consistent(&k));
    os_start(&mut k).unwrap();
    switch(&mut k);
    ucosiii::time::os_time_dly(&mut k, 3).unwrap();
    assert!(bitmap_consistent(&k));
    switch(&mut k);
    for _ in 0..3 {
        ucosiii::time::os_tick_handler(&mut k);
        assert!(bitmap_consistent(&k));
    }
    assert_eq!(k.tcbs[t1].task_state, OsTaskState::Ready);
    assert_eq!(os_task_del(&mut k, Some(t2)), Ok(()));
    assert!(bitmap_consistent(&k));
}

#[test]
fn test_suspend_resume() {
    let mut k = os_init().unwrap();
    let t1 = os_task_create(&mut k, "a", 1, 10, STK, 256).unwrap();
    os_start(&mut k).unwrap();
    assert_eq!(os_task_suspend(&mut k, Some(0)), Err(OsError::TaskSuspendIdle));
    assert_eq!(os_task_resume(&mut k, t1), Err(OsError::TaskNotSuspended));
    assert_eq!(os_task_suspend(&mut k, Some(t1)), Ok(()));
    assert_eq!(k.tcbs[t1].task_state, OsTaskState::Suspended);
    assert_eq!(k.tcbs[t1].suspend_ctr, 1);
    assert!(k.sched.rdy_list[10].is_empty());
    // a second suspend only deepens the nesting
    assert_eq!(os_task_suspend(&mut k, Some(t1)), Ok(()));
    assert_eq!(k.tcbs[t1].suspend_ctr, 2);
    // resume must reach zero before the task is ready again
    assert_eq!(os_task_resume(&mut k, t1), Ok(()));
    assert_eq!(k.tcbs[t1].task_state, OsTaskState::Suspended);
    assert_eq!(os_task_resume(&mut k, t1), Ok(()));
    assert_eq!(k.tcbs[t1].task_state, OsTaskState::Ready);
    assert_eq!(k.sched.rdy_list[10].head(), Some(t1));
}

#[test]
fn test_delete_cleans_up() {
    let mut k = os_init().unwrap();
    let t1 = os_task_create(&mut k, "a", 1, 10, STK, 256).unwrap();
    os_start(&mut k).unwrap();
    assert_eq!(os_task_del(&mut k, Some(0)), Err(OsError::TaskDelIdle));
    assert_eq!(os_task_del(&mut k, Some(t1)), Ok(()));
    assert_eq!(k.tcbs[t1].task_state, OsTaskState::Suspended);
    assert!(k.sched.rdy_list[10].is_empty());
    assert!(!k.sched.prio_tbl.is_set(10));
}

#[test]
fn test_sched_lock_unlock() {
    let mut k = os_init().unwrap();
    assert_eq!(os_sched_lock(&mut k), Err(OsError::OsNotRunning));
    let _t1 = os_task_create(&mut k, "a", 1, 10, STK, 256).unwrap();
    os_start(&mut k).unwrap();
    assert_eq!(os_sched_unlock(&mut k), Err(OsError::SchedNotLocked));
    assert_eq!(os_sched_lock(&mut k), Ok(()));
    assert_eq!(os_sched_lock(&mut k), Ok(()));
    assert_eq!(k.flags.sched_lock_nesting(), 2);
    // a delay is refused while the scheduler is locked
    assert_eq!(
        ucosiii::time::os_time_dly(&mut k, 5),
        Err(OsError::SchedLocked)
    );
    assert_eq!(os_sched_unlock(&mut k), Ok(()));
    assert_eq!(os_sched_unlock(&mut k), Ok(()));
    assert_eq!(k.flags.sched_lock_nesting(), 0);
}

#[test]
fn test_ready_list_orders() {
    // Head-to-tail traversal matches insertion order, and equals the
    // tail-to-head traversal reversed.
    let mut l = ReadyList::new();
    l.insert_tail(4);
    l.insert_tail(7);
    l.insert_head(2);
    l.insert_tail(9);
    // expected order: 2, 4, 7, 9
    let expected = [2usize, 4, 7, 9];
    assert_eq!(l.count(), 4);
    for (i, e) in expected.iter().enumerate() {
        assert_eq!(l.get(i), *e);
    }
    let mut backward = Vec::new();
    for i in 0..l.count() {
        backward.push(l.get(l.count() - 1 - i));
    }
    backward.reverse();
    for (i, e) in expected.iter().enumerate() {
        assert_eq!(backward[i], *e);
    }
    assert_eq!(l.head(), Some(2));
    assert_eq!(l.tail(), Some(9));
    // removing from the middle keeps the rest in order
    l.remove(7);
    let expected2 = [2usize, 4, 9];
    for (i, e) in expected2.iter().enumerate() {
        assert_eq!(l.get(i), *e);
    }
}

#[test]
fn test_insert_tail_then_remove_is_identity() {
    let mut l = ReadyList::new();
    l.insert_tail(1);
    l.insert_tail(2);
    l.insert_tail(3);
    l.insert_tail(42);
    l.remove(42);
    assert_eq!(l.count(), 3);
    assert_eq!(l.get(0), 1);
    assert_eq!(l.get(1), 2);
    assert_eq!(l.get(2), 3);
}

#[test]
fn test_int_exit_requests_switch() {
    let mut k = os_init().unwrap();
    let t1 = os_task_create(&mut k, "a", 1, 10, STK, 256).unwrap();
    os_start(&mut k).unwrap();
    switch(&mut k);
    assert_eq!(k.cpu.tcb_cur, Some(t1));
    // pretend we are in an ISR that made a higher-priority task ready
    let t2 = os_task_create(&mut k, "b", 2, 5, STK, 256).unwrap();
    switch(&mut k);
    assert_eq!(k.cpu.tcb_cur, Some(t2));
    k.flags.int_enter();
    ucosiii::kernel::os_int_exit(&mut k);
    assert_eq!(k.flags.int_nesting(), 0);
}
