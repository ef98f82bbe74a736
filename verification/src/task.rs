//! Task management: creation, deletion, suspension and resumption.

use vstd::prelude::*;

use crate::config::CFG_PRIO_MAX;
use crate::config::CFG_PRIO_IDLE;
use crate::config::CFG_STK_SIZE_MIN;
use crate::config::CFG_TIME_QUANTA_DEFAULT;
use crate::error::OsError;
use crate::error::OsResult;
use crate::kernel::Kernel;
use crate::kernel::os_alloc_tcb;
use crate::kernel::os_delay_unblock;
use crate::kernel::os_pend_unblock;
use crate::kernel::os_tcb_write;
use crate::sched::os_rdy_list_insert;
use crate::sched::os_rdy_list_remove;
use crate::sched::os_sched;
use crate::sched::sched_outcome_from;
use crate::tcb::OsTcb;
use crate::types::OsPrio;
use crate::types::OsTaskState;

verus! {

/// The TCB a newly created task starts with
pub open spec fn created_tcb(
    name: &'static str,
    task_entry: usize,
    prio: OsPrio,
    stk_base: usize,
    stk_size: usize,
) -> OsTcb {
    OsTcb {
        name: name,
        prio: prio,
        base_prio: prio,
        time_quanta: CFG_TIME_QUANTA_DEFAULT,
        time_quanta_ctr: CFG_TIME_QUANTA_DEFAULT,
        task_state: OsTaskState::Ready,
        stk_ptr: (stk_base + stk_size - 1) as usize,
        stk_base: stk_base,
        stk_limit: (stk_base + stk_size / 10) as usize,
        stk_size: stk_size,
        task_entry_addr: task_entry,
        ..OsTcb::spec_default()
    }
}

/// Create a task: validate the arguments, initialize its TCB and
/// initial stack frame, append it to the task table, queue it ready,
/// and reschedule when the kernel is already running. Returns the new
/// task's id.
pub fn os_task_create(
    k: &mut Kernel,
    name: &'static str,
    task_entry: usize,
    prio: OsPrio,
    stk_base: usize,
    stk_size: usize,
) -> (r: OsResult<usize>)
    requires
        old(k).inv(),
        stk_base + stk_size <= usize::MAX,
        old(k).n_tasks() < usize::MAX,
    ensures
        final(k).inv(),
        stk_base == 0 ==> r == Err::<usize, OsError>(OsError::StkInvalid) && *final(k) == *old(k),
        stk_base != 0 && stk_size < CFG_STK_SIZE_MIN ==> r == Err::<usize, OsError>(
            OsError::StkSizeInvalid,
        ) && *final(k) == *old(k),
        stk_base != 0 && stk_size >= CFG_STK_SIZE_MIN && (prio as int) >= CFG_PRIO_MAX as int ==> r
            == Err::<usize, OsError>(OsError::PrioInvalid) && *final(k) == *old(k),
        stk_base != 0 && stk_size >= CFG_STK_SIZE_MIN && (prio as int) < CFG_PRIO_MAX as int && old(k).flags.int_nesting > 0 ==> r == Err::<usize, OsError>(OsError::TaskCreateIsr) && *final(k)
            == *old(k),
        (stk_base != 0 && stk_size >= CFG_STK_SIZE_MIN && (prio as int) < CFG_PRIO_MAX as int
            && old(k).flags.int_nesting == 0) ==> {
            let t = old(k).n_tasks();
            &&& r == Ok::<usize, OsError>(t as usize)
            &&& final(k).tcbs@ == old(k).tcbs@.push(
                created_tcb(name, task_entry, prio, stk_base, stk_size),
            )
            &&& final(k).rdy(prio as int) == old(k).rdy(prio as int).push(t as usize)
            &&& crate::kernel::rdy_unchanged_except(*old(k), *final(k), prio as int)
            &&& final(k).sched.tick_wheel == old(k).sched.tick_wheel
            &&& final(k).pend_qs == old(k).pend_qs
            &&& final(k).flags == old(k).flags
            &&& (old(k).flags.running && old(k).flags.sched_lock_nesting == 0
                ==> sched_outcome_from(old(k).cpu, old(k).ctx_sw_pending, *final(k)))
            &&& (!(old(k).flags.running && old(k).flags.sched_lock_nesting == 0) ==> final(k).cpu
                == old(k).cpu && final(k).ctx_sw_pending == old(k).ctx_sw_pending)
        },
{
    if stk_base == 0 {
        return Err(OsError::StkInvalid);
    }
    if stk_size < CFG_STK_SIZE_MIN {
        return Err(OsError::StkSizeInvalid);
    }
    if (prio as usize) >= CFG_PRIO_MAX {
        return Err(OsError::PrioInvalid);
    }
    if k.flags.int_nesting() > 0 {
        return Err(OsError::TaskCreateIsr);
    }
    let mut c = OsTcb::new();
    c.name = name;
    c.prio = prio;
    c.base_prio = prio;
    c.time_quanta = CFG_TIME_QUANTA_DEFAULT;
    c.time_quanta_ctr = CFG_TIME_QUANTA_DEFAULT;
    c.task_state = OsTaskState::Suspended;
    c.stk_ptr = crate::port::os_task_stk_init(stk_base, stk_size, 0);
    c.stk_base = stk_base;
    c.stk_size = stk_size;
    c.stk_limit = stk_base + stk_size / 10;
    c.task_entry_addr = task_entry;
    let t = os_alloc_tcb(k, c);
    os_rdy_list_insert(k, t);
    proof {
        assert(k.tcbs@ =~= old(k).tcbs@.push(
            created_tcb(name, task_entry, prio, stk_base, stk_size),
        ));
    }
    let ghost m2 = *k;
    let running = k.flags.is_running();
    if running {
        os_sched(k);
    }
    proof {
        let a = *old(k);
        assert(k.tcbs == m2.tcbs);
        assert forall|p2: int|
            0 <= p2 < CFG_PRIO_MAX as int && p2 != prio as int implies k.rdy(p2) == a.rdy(p2) by {
            assert(m2.rdy(p2) == a.rdy(p2));
            assert(k.rdy(p2) == m2.rdy(p2));
        }
        if a.flags.running && a.flags.sched_lock_nesting == 0 {
            assert(sched_outcome_from(a.cpu, a.ctx_sw_pending, *k));
        }
    }
    Ok(t)
}

/// Remove a task from every kernel list it is on and mark it
/// suspended, so that it never re-enters the ready set; the idle task
/// cannot be deleted. `None` deletes the calling task.
/// A task control block as deletion leaves it: suspended, with the
/// delay and pend bookkeeping its list removals cleared
pub open spec fn detached_tcb(c: OsTcb) -> OsTcb {
    if crate::tcb::is_pending_state(c.task_state) {
        OsTcb {
            task_state: OsTaskState::Suspended,
            pend_on: crate::types::OsPendOn::Nothing,
            pend_obj: None,
            tick_remain: 0,
            ..c
        }
    } else if crate::tcb::is_delayed_state(c.task_state) {
        OsTcb { task_state: OsTaskState::Suspended, tick_remain: 0, ..c }
    } else {
        OsTcb { task_state: OsTaskState::Suspended, ..c }
    }
}

/// Take a task off whatever kernel list its state assigns it to and
/// leave it suspended; its other TCB fields keep their values apart
/// from the pend and delay bookkeeping the removal clears.
pub(crate) fn os_task_detach(k: &mut Kernel, t: usize)
    requires
        old(k).inv(),
        old(k).is_tid(t),
    ensures
        final(k).inv(),
        final(k).n_tasks() == old(k).n_tasks(),
        final(k).n_qs() == old(k).n_qs(),
        final(k).tcbs@ == old(k).tcbs@.update(t as int, detached_tcb(old(k).tcb_of(t))),
        final(k).tcb_of(t).task_state == OsTaskState::Suspended,
        final(k).tcb_of(t).prio == old(k).tcb_of(t).prio,
        forall|u: usize| old(k).is_tid(u) && u != t ==> final(k).tcb_of(u) == old(k).tcb_of(u),
        final(k).flags == old(k).flags,
        final(k).cpu == old(k).cpu,
        final(k).ctx_sw_pending == old(k).ctx_sw_pending,
        old(k).tcb_of(t).task_state == OsTaskState::Ready ==> final(k).rdy(
            old(k).tcb_of(t).prio as int,
        ) == old(k).rdy(old(k).tcb_of(t).prio as int).remove_value(t),
        old(k).tcb_of(t).task_state == OsTaskState::Suspended ==> *final(k) == *old(k),
{
    let st = k.tcbs[t].task_state;
    match st {
        OsTaskState::Ready => {
            os_rdy_list_remove(k, t);
        },
        OsTaskState::Delayed => {
            os_delay_unblock(k, t);
        },
        OsTaskState::DelayedSuspended => {
            os_delay_unblock(k, t);
        },
        OsTaskState::Pend => {
            let status = k.tcbs[t].pend_status;
            os_pend_unblock(k, t, status);
        },
        OsTaskState::PendTimeout => {
            let status = k.tcbs[t].pend_status;
            os_pend_unblock(k, t, status);
        },
        OsTaskState::PendSuspended => {
            let status = k.tcbs[t].pend_status;
            os_pend_unblock(k, t, status);
        },
        OsTaskState::PendTimeoutSuspended => {
            let status = k.tcbs[t].pend_status;
            os_pend_unblock(k, t, status);
        },
        OsTaskState::Suspended => {},
    }
    proof {
        assert(k.tcbs@ =~= old(k).tcbs@.update(t as int, detached_tcb(old(k).tcb_of(t))));
    }
}

pub fn os_task_del(k: &mut Kernel, tcb: Option<usize>) -> (r: OsResult<()>)
    requires
        old(k).inv(),
    ensures
        final(k).inv(),
        !old(k).flags.running ==> r == Err::<(), OsError>(OsError::OsNotRunning) && *final(k)
            == *old(k),
        old(k).flags.running && old(k).flags.int_nesting > 0 ==> r == Err::<(), OsError>(
            OsError::TaskDelIsr,
        ) && *final(k) == *old(k),
        old(k).flags.running && old(k).flags.int_nesting == 0 && tcb is None && old(k).cpu.tcb_cur is None ==> r == Err::<(), OsError>(OsError::TcbInvalid) && *final(k)
            == *old(k),
        old(k).flags.running && old(k).flags.int_nesting == 0 ==> ((tcb matches Some(t)
            && !old(k).is_tid(t)) ==> r == Err::<(), OsError>(OsError::TcbInvalid) && *final(k)
            == *old(k)),
        (old(k).flags.running && old(k).flags.int_nesting == 0) ==> (del_target(*old(k), tcb)
            matches Some(t) ==> {
            if old(k).tcb_of(t).prio == CFG_PRIO_IDLE {
                r == Err::<(), OsError>(OsError::TaskDelIdle) && *final(k) == *old(k)
            } else {
                &&& r == Ok::<(), OsError>(())
                &&& final(k).n_tasks() == old(k).n_tasks()
                &&& final(k).tcbs@ == old(k).tcbs@.update(
                    t as int,
                    detached_tcb(old(k).tcb_of(t)),
                )
                &&& final(k).tcb_of(t).task_state == OsTaskState::Suspended
                &&& final(k).flags == old(k).flags
                &&& (old(k).tcb_of(t).task_state == OsTaskState::Ready ==> final(k).rdy(
                    old(k).tcb_of(t).prio as int,
                ) == old(k).rdy(old(k).tcb_of(t).prio as int).remove_value(t))
                &&& (Some(t) == old(k).cpu.tcb_cur && old(k).flags.sched_lock_nesting == 0
                    ==> sched_outcome_from(old(k).cpu, old(k).ctx_sw_pending, *final(k)))
                &&& (Some(t) != old(k).cpu.tcb_cur ==> final(k).cpu == old(k).cpu && final(k).ctx_sw_pending == old(k).ctx_sw_pending)
            }
        }),
{
    if !k.flags.is_running() {
        return Err(OsError::OsNotRunning);
    }
    if k.flags.int_nesting() > 0 {
        return Err(OsError::TaskDelIsr);
    }
    let t = match tcb {
        Some(t) => {
            if t >= k.tcbs.len() {
                return Err(OsError::TcbInvalid);
            }
            t
        },
        None => {
            match k.cpu.tcb_cur_ptr() {
                Some(c) => c,
                None => {
                    return Err(OsError::TcbInvalid);
                },
            }
        },
    };
    if k.tcbs[t].prio == CFG_PRIO_IDLE {
        return Err(OsError::TaskDelIdle);
    }
    os_task_detach(k, t);
    let is_current = match k.cpu.tcb_cur_ptr() {
        Some(c) => c == t,
        None => false,
    };
    let ghost m2 = *k;
    if is_current {
        os_sched(k);
    }
    proof {
        let a = *old(k);
        if Some(t) == a.cpu.tcb_cur && a.flags.sched_lock_nesting == 0 {
            assert(k.sched == m2.sched && k.tcbs == m2.tcbs);
            assert(sched_outcome_from(a.cpu, a.ctx_sw_pending, *k));
        }
    }
    Ok(())
}

/// The task a delete or suspend request addresses: the given task, or
/// the calling task when none is given
pub open spec fn del_target(a: Kernel, tcb: Option<usize>) -> Option<usize> {
    match tcb {
        Some(t) => if a.is_tid(t) {
            Some(t)
        } else {
            None
        },
        None => a.cpu.tcb_cur,
    }
}

/// Suspend a task (or the caller, for `None`): raise its suspend
/// nesting count; a ready task leaves the ready set, a blocked or
/// delayed task keeps its place and only gains the suspended mark.
/// The idle task cannot be suspended.
pub fn os_task_suspend(k: &mut Kernel, tcb: Option<usize>) -> (r: OsResult<()>)
    requires
        old(k).inv(),
    ensures
        final(k).inv(),
        !old(k).flags.running ==> r == Err::<(), OsError>(OsError::OsNotRunning) && *final(k)
            == *old(k),
        old(k).flags.running && old(k).flags.int_nesting > 0 ==> r == Err::<(), OsError>(
            OsError::TaskSuspendIsr,
        ) && *final(k) == *old(k),
        old(k).flags.running && old(k).flags.int_nesting == 0 && tcb is None && old(k).cpu.tcb_cur is None ==> r == Err::<(), OsError>(OsError::TcbInvalid) && *final(k)
            == *old(k),
        old(k).flags.running && old(k).flags.int_nesting == 0 ==> ((tcb matches Some(t)
            && !old(k).is_tid(t)) ==> r == Err::<(), OsError>(OsError::TcbInvalid) && *final(k)
            == *old(k)),
        (old(k).flags.running && old(k).flags.int_nesting == 0) ==> (del_target(*old(k), tcb)
            matches Some(t) ==> {
            if old(k).tcb_of(t).prio == CFG_PRIO_IDLE {
                r == Err::<(), OsError>(OsError::TaskSuspendIdle) && *final(k) == *old(k)
            } else {
                let c = old(k).tcb_of(t);
                let ctr2: u8 = if c.suspend_ctr == 255 {
                    255u8
                } else {
                    (c.suspend_ctr + 1) as u8
                };
                let st2 = suspended_version(c.task_state);
                &&& r == Ok::<(), OsError>(())
                &&& final(k).tcbs@ == old(k).tcbs@.update(
                    t as int,
                    (OsTcb { suspend_ctr: ctr2, task_state: st2, ..c }),
                )
                &&& final(k).flags == old(k).flags
                &&& final(k).pend_qs == old(k).pend_qs
                &&& final(k).sched.tick_wheel == old(k).sched.tick_wheel
                &&& (c.task_state == OsTaskState::Ready ==> final(k).rdy(c.prio as int) == old(k).rdy(c.prio as int).remove_value(t) && crate::kernel::rdy_unchanged_except(
                    *old(k),
                    *final(k),
                    c.prio as int,
                ))
                &&& (c.task_state != OsTaskState::Ready ==> final(k).sched.rdy_list == old(k).sched.rdy_list && final(k).sched.prio_tbl == old(k).sched.prio_tbl)
                &&& (Some(t) == old(k).cpu.tcb_cur && old(k).flags.sched_lock_nesting == 0
                    ==> sched_outcome_from(old(k).cpu, old(k).ctx_sw_pending, *final(k)))
                &&& (Some(t) != old(k).cpu.tcb_cur ==> final(k).cpu == old(k).cpu && final(k).ctx_sw_pending == old(k).ctx_sw_pending)
            }
        }),
{
    if !k.flags.is_running() {
        return Err(OsError::OsNotRunning);
    }
    if k.flags.int_nesting() > 0 {
        return Err(OsError::TaskSuspendIsr);
    }
    let t = match tcb {
        Some(t) => {
            if t >= k.tcbs.len() {
                return Err(OsError::TcbInvalid);
            }
            t
        },
        None => {
            match k.cpu.tcb_cur_ptr() {
                Some(c) => c,
                None => {
                    return Err(OsError::TcbInvalid);
                },
            }
        },
    };
    if k.tcbs[t].prio == CFG_PRIO_IDLE {
        return Err(OsError::TaskSuspendIdle);
    }
    proof {
        assert(old(k).tcb_fields_ok(t));
    }
    let mut c = k.tcbs[t];
    if c.suspend_ctr != 255 {
        c.suspend_ctr = c.suspend_ctr + 1;
    }
    let st = c.task_state;
    match st {
        OsTaskState::Ready => {
            os_tcb_write(k, t, c);
            os_rdy_list_remove(k, t);
        },
        OsTaskState::Delayed => {
            c.task_state = OsTaskState::DelayedSuspended;
            os_tcb_write(k, t, c);
        },
        OsTaskState::Pend => {
            c.task_state = OsTaskState::PendSuspended;
            os_tcb_write(k, t, c);
        },
        OsTaskState::PendTimeout => {
            c.task_state = OsTaskState::PendTimeoutSuspended;
            os_tcb_write(k, t, c);
        },
        _ => {
            os_tcb_write(k, t, c);
        },
    }
    proof {
        assert(k.tcbs@ =~= old(k).tcbs@.update(
            t as int,
            (OsTcb {
                suspend_ctr: k.tcb_of(t).suspend_ctr,
                task_state: suspended_version(old(k).tcb_of(t).task_state),
                ..old(k).tcb_of(t)
            }),
        ));
    }
    let is_current = match k.cpu.tcb_cur_ptr() {
        Some(cc) => cc == t,
        None => false,
    };
    let ghost m2 = *k;
    if is_current {
        os_sched(k);
    }
    proof {
        let a = *old(k);
        if a.tcb_of(t).task_state == OsTaskState::Ready {
            assert forall|p2: int|
                0 <= p2 < CFG_PRIO_MAX as int && p2 != a.tcb_of(t).prio as int implies k.rdy(p2)
                == a.rdy(p2) by {
                assert(m2.rdy(p2) == a.rdy(p2));
                assert(k.rdy(p2) == m2.rdy(p2));
            }
        }
        if Some(t) == a.cpu.tcb_cur && a.flags.sched_lock_nesting == 0 {
            assert(k.sched == m2.sched && k.tcbs == m2.tcbs);
            assert(sched_outcome_from(a.cpu, a.ctx_sw_pending, *k));
        }
    }
    Ok(())
}

/// The state a task takes when the suspended mark is added
pub open spec fn suspended_version(s: OsTaskState) -> OsTaskState {
    match s {
        OsTaskState::Ready => OsTaskState::Suspended,
        OsTaskState::Delayed => OsTaskState::DelayedSuspended,
        OsTaskState::Pend => OsTaskState::PendSuspended,
        OsTaskState::PendTimeout => OsTaskState::PendTimeoutSuspended,
        other => other,
    }
}

/// The state a task returns to when the suspended mark is removed
pub open spec fn resumed_version(s: OsTaskState) -> OsTaskState {
    match s {
        OsTaskState::Suspended => OsTaskState::Ready,
        OsTaskState::DelayedSuspended => OsTaskState::Delayed,
        OsTaskState::PendSuspended => OsTaskState::Pend,
        OsTaskState::PendTimeoutSuspended => OsTaskState::PendTimeout,
        other => other,
    }
}

/// Resume a suspended task: lower its suspend nesting count, and only
/// when the count reaches zero return it to the state it was suspended
/// in (re-queueing a plainly suspended task as ready) and reschedule.
pub fn os_task_resume(k: &mut Kernel, t: usize) -> (r: OsResult<()>)
    requires
        old(k).inv(),
    ensures
        final(k).inv(),
        !old(k).flags.running ==> r == Err::<(), OsError>(OsError::OsNotRunning) && *final(k)
            == *old(k),
        old(k).flags.running && old(k).flags.int_nesting > 0 ==> r == Err::<(), OsError>(
            OsError::TaskResumeIsr,
        ) && *final(k) == *old(k),
        old(k).flags.running && old(k).flags.int_nesting == 0 && !old(k).is_tid(t) ==> r == Err::<
            (),
            OsError,
        >(OsError::TcbInvalid) && *final(k) == *old(k),
        old(k).flags.running && old(k).flags.int_nesting == 0 && old(k).is_tid(t) && old(k).tcb_of(
            t,
        ).suspend_ctr == 0 ==> r == Err::<(), OsError>(OsError::TaskNotSuspended) && *final(k)
            == *old(k),
        (old(k).flags.running && old(k).flags.int_nesting == 0 && old(k).is_tid(t) && old(k).tcb_of(t).suspend_ctr > 0) ==> {
            let c = old(k).tcb_of(t);
            let ctr2: u8 = (c.suspend_ctr - 1) as u8;
            &&& r == Ok::<(), OsError>(())
            &&& final(k).flags == old(k).flags
            &&& final(k).pend_qs == old(k).pend_qs
            &&& final(k).sched.tick_wheel == old(k).sched.tick_wheel
            &&& (ctr2 > 0 ==> final(k).tcbs@ == old(k).tcbs@.update(
                t as int,
                (OsTcb { suspend_ctr: ctr2, ..c }),
            ) && final(k).sched == old(k).sched && final(k).cpu == old(k).cpu && final(k).ctx_sw_pending == old(k).ctx_sw_pending)
            &&& (ctr2 == 0 ==> {
                &&& final(k).tcbs@ == old(k).tcbs@.update(
                    t as int,
                    (OsTcb { suspend_ctr: 0, task_state: resumed_version(c.task_state), ..c }),
                )
                &&& (c.task_state == OsTaskState::Suspended ==> final(k).rdy(c.prio as int) == old(k).rdy(c.prio as int).push(t) && crate::kernel::rdy_unchanged_except(
                    *old(k),
                    *final(k),
                    c.prio as int,
                ))
                &&& (c.task_state != OsTaskState::Suspended ==> final(k).sched.rdy_list == old(k).sched.rdy_list && final(k).sched.prio_tbl == old(k).sched.prio_tbl)
                &&& (old(k).flags.sched_lock_nesting == 0 ==> sched_outcome_from(
                    old(k).cpu,
                    old(k).ctx_sw_pending,
                    *final(k),
                ))
                &&& (old(k).flags.sched_lock_nesting > 0 ==> final(k).cpu == old(k).cpu && final(k).ctx_sw_pending == old(k).ctx_sw_pending)
            })
        },
{
    if !k.flags.is_running() {
        return Err(OsError::OsNotRunning);
    }
    if k.flags.int_nesting() > 0 {
        return Err(OsError::TaskResumeIsr);
    }
    if t >= k.tcbs.len() {
        return Err(OsError::TcbInvalid);
    }
    proof {
        assert(old(k).tcb_fields_ok(t));
    }
    let mut c = k.tcbs[t];
    if c.suspend_ctr == 0 {
        return Err(OsError::TaskNotSuspended);
    }
    c.suspend_ctr = c.suspend_ctr - 1;
    if c.suspend_ctr > 0 {
        os_tcb_write(k, t, c);
        return Ok(());
    }
    let st = c.task_state;
    match st {
        OsTaskState::Suspended => {
            os_tcb_write(k, t, c);
            os_rdy_list_insert(k, t);
        },
        OsTaskState::DelayedSuspended => {
            c.task_state = OsTaskState::Delayed;
            os_tcb_write(k, t, c);
        },
        OsTaskState::PendSuspended => {
            c.task_state = OsTaskState::Pend;
            os_tcb_write(k, t, c);
        },
        OsTaskState::PendTimeoutSuspended => {
            c.task_state = OsTaskState::PendTimeout;
            os_tcb_write(k, t, c);
        },
        _ => {
            os_tcb_write(k, t, c);
        },
    }
    proof {
        assert(k.tcbs@ =~= old(k).tcbs@.update(
            t as int,
            (OsTcb {
                suspend_ctr: 0,
                task_state: resumed_version(old(k).tcb_of(t).task_state),
                ..old(k).tcb_of(t)
            }),
        ));
    }
    let ghost m2 = *k;
    os_sched(k);
    proof {
        let a = *old(k);
        if a.tcb_of(t).task_state == OsTaskState::Suspended {
            assert forall|p2: int|
                0 <= p2 < CFG_PRIO_MAX as int && p2 != a.tcb_of(t).prio as int implies k.rdy(p2)
                == a.rdy(p2) by {
                assert(m2.rdy(p2) == a.rdy(p2));
                assert(k.rdy(p2) == m2.rdy(p2));
            }
        }
        if a.flags.sched_lock_nesting == 0 {
            assert(k.sched == m2.sched && k.tcbs == m2.tcbs);
            assert(sched_outcome_from(a.cpu, a.ctx_sw_pending, *k));
        }
    }
    Ok(())
}

} // verus!
