//! Tests for delays, the tick handler, the tick wheel and round-robin.

use ucosiii::error::OsError;
use ucosiii::kernel::Kernel;
use ucosiii::kernel::os_init;
use ucosiii::kernel::os_start;
use ucosiii::task::os_task_create;
use ucosiii::time::os_tick_handler;
use ucosiii::time::os_time_dly;
use ucosiii::time::os_time_dly_hmsm;
use ucosiii::time::os_time_dly_resume;
use ucosiii::time::os_time_get;
use ucosiii::types::OsTaskState;

const STK: usize = 0x2000_0000;

fn switch(k: &mut Kernel) {
    if k.ctx_sw_pending {
        k.cpu.tcb_cur = k.cpu.tcb_high_rdy;
        k.cpu.prio_cur = k.cpu.prio_high_rdy;
        k.ctx_sw_pending = false;
    }
}

fn started_kernel() -> (Kernel, usize) {
    let mut k = os_init().unwrap();
    let t1 = os_task_create(&mut k, "a", 1, 10, STK, 256).unwrap();
    os_start(&mut k).unwrap();
    switch(&mut k);
    (k, t1)
}

#[test]
fn test_delay_zero_is_noop() {
    let (mut k, t1) = started_kernel();
    let pending_before = k.ctx_sw_pending;
    let tick_before = os_time_get(&k);
    assert_eq!(os_time_dly(&mut k, 0), Ok(()));
    assert_eq!(k.tcbs[t1].task_state, OsTaskState::Ready);
    assert_eq!(k.ctx_sw_pending, pending_before);
    assert_eq!(os_time_get(&k), tick_before);
    assert_eq!(k.sched.rdy_list[10].head(), Some(t1));
}

#[test]
fn test_delay_expires_after_exact_ticks() {
    let (mut k, t1) = started_kernel();
    assert_eq!(os_time_dly(&mut k, 5), Ok(()));
    assert_eq!(k.tcbs[t1].task_state, OsTaskState::Delayed);
    assert_eq!(k.tcbs[t1].tick_remain, 5);
    switch(&mut k);
    // idle runs; after exactly 5 ticks the task is ready again
    for i in 0..5 {
        assert_ne!(k.tcbs[t1].task_state, OsTaskState::Ready, "woke early at {}", i);
        os_tick_handler(&mut k);
    }
    assert_eq!(k.tcbs[t1].task_state, OsTaskState::Ready);
    assert_eq!(k.tcbs[t1].tick_remain, 0);
}

#[test]
fn test_delay_across_counter_wrap() {
    let (mut k, t1) = started_kernel();
    k.flags.tick_counter = 0xFFFF_FFFE;
    assert_eq!(os_time_dly(&mut k, 5), Ok(()));
    switch(&mut k);
    for _ in 0..4 {
        assert_eq!(k.tcbs[t1].task_state, OsTaskState::Delayed);
        os_tick_handler(&mut k);
    }
    assert_eq!(k.tcbs[t1].task_state, OsTaskState::Delayed);
    os_tick_handler(&mut k);
    // the task wakes exactly when the counter has advanced by 5,
    // at absolute tick 3 after wrapping
    assert_eq!(k.tcbs[t1].task_state, OsTaskState::Ready);
    assert_eq!(os_time_get(&k), 3);
}

#[test]
fn test_long_delay_takes_multiple_revolutions() {
    // A delay longer than the wheel needs one visit per revolution:
    // ceil(40 / 16) = 3 visits to its slot before promotion.
    let (mut k, t1) = started_kernel();
    assert_eq!(os_time_dly(&mut k, 40), Ok(()));
    switch(&mut k);
    assert_eq!(k.tcbs[t1].tick_remain, 40);
    // first visit at tick 8 (slot 40 % 16): one revolution charged
    for _ in 0..8 {
        os_tick_handler(&mut k);
    }
    assert_eq!(k.tcbs[t1].task_state, OsTaskState::Delayed);
    assert_eq!(k.tcbs[t1].tick_remain, 24);
    // second visit at tick 24
    for _ in 0..16 {
        os_tick_handler(&mut k);
    }
    assert_eq!(k.tcbs[t1].task_state, OsTaskState::Delayed);
    assert_eq!(k.tcbs[t1].tick_remain, 8);
    // third visit at tick 40 promotes the task, exactly on time
    for _ in 0..16 {
        os_tick_handler(&mut k);
    }
    assert_eq!(k.tcbs[t1].task_state, OsTaskState::Ready);
    assert_eq!(os_time_get(&k), 40);
}

#[test]
fn test_delay_resume_wakes_early() {
    let (mut k, t1) = started_kernel();
    assert_eq!(os_time_dly_resume(&mut k, t1), Err(OsError::TaskNotDly));
    assert_eq!(os_time_dly(&mut k, 100), Ok(()));
    switch(&mut k);
    os_tick_handler(&mut k);
    assert_eq!(os_time_dly_resume(&mut k, t1), Ok(()));
    assert_eq!(k.tcbs[t1].task_state, OsTaskState::Ready);
    assert_eq!(k.tcbs[t1].tick_remain, 0);
    // and the wheel slot no longer holds it
    let slot = k.tcbs[t1].tick_wheel_slot as usize;
    assert!(k.sched.tick_wheel[slot].is_empty());
}

#[test]
fn test_delay_hmsm_validation() {
    let (mut k, _t1) = started_kernel();
    assert_eq!(os_time_dly_hmsm(&mut k, 0, 60, 0, 0), Err(OsError::StateInvalid));
    assert_eq!(os_time_dly_hmsm(&mut k, 0, 0, 60, 0), Err(OsError::StateInvalid));
    assert_eq!(os_time_dly_hmsm(&mut k, 0, 0, 0, 1000), Err(OsError::StateInvalid));
    // 12 milliseconds at 1000 Hz are 12 ticks
    assert_eq!(os_time_dly_hmsm(&mut k, 0, 0, 0, 12), Ok(()));
    let t1 = 1usize;
    assert_eq!(k.tcbs[t1].tick_remain, 12);
}

#[test]
fn test_round_robin_rotates_equal_priority() {
    let mut k = os_init().unwrap();
    let t1 = os_task_create(&mut k, "a", 1, 10, STK, 256).unwrap();
    let t2 = os_task_create(&mut k, "b", 2, 10, STK, 256).unwrap();
    let t3 = os_task_create(&mut k, "c", 3, 10, STK, 256).unwrap();
    os_start(&mut k).unwrap();
    switch(&mut k);
    assert_eq!(k.cpu.tcb_cur, Some(t1));
    // default quanta: rotation after 10 ticks, in strict order
    for _ in 0..10 {
        os_tick_handler(&mut k);
    }
    switch(&mut k);
    assert_eq!(k.cpu.tcb_cur, Some(t2));
    assert_eq!(k.sched.rdy_list[10].head(), Some(t2));
    assert_eq!(k.sched.rdy_list[10].tail(), Some(t1));
    for _ in 0..10 {
        os_tick_handler(&mut k);
    }
    switch(&mut k);
    assert_eq!(k.cpu.tcb_cur, Some(t3));
    for _ in 0..10 {
        os_tick_handler(&mut k);
    }
    switch(&mut k);
    assert_eq!(k.cpu.tcb_cur, Some(t1));
}
