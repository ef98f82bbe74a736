//! Time management: tick-based delays, the tick handler and the tick
//! wheel scan that promotes expired delays and timeouts.

use vstd::prelude::*;

use crate::config::CFG_PRIO_MAX;
use crate::config::CFG_TICK_RATE_HZ;
use crate::config::CFG_TICK_WHEEL_SIZE;
use crate::error::OsError;
use crate::error::OsResult;
use crate::kernel::Kernel;
use crate::kernel::os_delay_unblock;
use crate::kernel::os_pend_unblock;
use crate::kernel::os_tcb_write;
use crate::kernel::os_wheel_block;
use crate::sched::os_rdy_list_insert;
use crate::sched::os_rdy_list_remove;
use crate::sched::os_sched;
use crate::sched::os_sched_round_robin;
use crate::sched::sched_outcome_from;
use crate::seq_lemmas::lemma_remove_value_at;
use crate::tcb::OsTcb;
use crate::tcb::is_wheel_state;
use crate::types::OsPendOn;
use crate::types::OsPendStatus;
use crate::types::OsTaskState;
use crate::types::OsTick;

verus! {

/// The TCB of a task whose residual delay has run out, as the wheel
/// scan leaves it: delays become ready (or plain suspended when the
/// task was also explicitly suspended), and pend timeouts are woken
/// with a `Timeout` verdict and their pend bookkeeping cleared.
pub open spec fn promote_tcb(c: OsTcb) -> OsTcb {
    match c.task_state {
        OsTaskState::Delayed => OsTcb { task_state: OsTaskState::Ready, tick_remain: 0, ..c },
        OsTaskState::DelayedSuspended => OsTcb {
            task_state: OsTaskState::Suspended,
            tick_remain: 0,
            ..c
        },
        OsTaskState::PendTimeout => OsTcb {
            task_state: OsTaskState::Ready,
            tick_remain: 0,
            pend_on: OsPendOn::Nothing,
            pend_obj: None,
            pend_status: OsPendStatus::Timeout,
            ..c
        },
        OsTaskState::PendTimeoutSuspended => OsTcb {
            task_state: OsTaskState::Suspended,
            tick_remain: 0,
            pend_on: OsPendOn::Nothing,
            pend_obj: None,
            pend_status: OsPendStatus::Timeout,
            ..c
        },
        _ => c,
    }
}

/// The TCB of one task after one visit of the tick wheel: a task
/// hashed to the visited slot is promoted when its residual delay fits
/// in one wheel revolution, and otherwise keeps waiting with the
/// residual delay reduced by one revolution; every other task is
/// untouched.
pub open spec fn scanned_tcb(a: Kernel, s: int, t: usize) -> OsTcb {
    let c = a.tcb_of(t);
    if is_wheel_state(c.task_state) && c.tick_wheel_slot as int == s {
        if c.tick_remain <= CFG_TICK_WHEEL_SIZE as u32 {
            promote_tcb(c)
        } else {
            OsTcb { tick_remain: (c.tick_remain - CFG_TICK_WHEEL_SIZE as u32) as u32, ..c }
        }
    } else {
        c
    }
}

/// What one visit of the tick wheel does to one task
pub open spec fn scan_task_spec(a: Kernel, b: Kernel, s: int, t: usize) -> bool {
    b.tcb_of(t) == scanned_tcb(a, s, t)
}

/// The running task's TCB after round-robin accounting: one quantum is
/// charged, and used-up quanta are reloaded from the task's allotment.
pub open spec fn rr_charged(c: OsTcb) -> OsTcb {
    let q1: u32 = if c.time_quanta_ctr > 0 {
        (c.time_quanta_ctr - 1) as u32
    } else {
        0u32
    };
    OsTcb {
        time_quanta_ctr: if q1 == 0 {
            c.time_quanta
        } else {
            q1
        },
        ..c
    }
}

/// Delay the calling task for `ticks` system ticks: remove it from the
/// ready list and hang it in the tick wheel at its absolute expiry
/// tick, then reschedule. A delay of zero ticks is a no-op. Expiry
/// arithmetic wraps, so delays across the tick-counter wrap-around
/// still last exactly `ticks` ticks.
/// What a call of the delay operation does, given the kernel it ran
/// on, the kernel it left, the delay in ticks and its result: every
/// rejection leaves the kernel untouched, a zero delay is a no-op, and
/// a positive delay moves the ready running task into the tick wheel
/// and reschedules.
pub open spec fn time_dly_post(a: Kernel, b: Kernel, ticks: u32, r: OsResult<()>) -> bool {
    &&& (!a.flags.running ==> r == Err::<(), OsError>(OsError::OsNotRunning) && b == a)
    &&& (a.flags.running && a.flags.int_nesting > 0 ==> r == Err::<(), OsError>(
        OsError::TimeDlyIsr,
    ) && b == a)
    &&& (a.flags.running && a.flags.int_nesting == 0 && a.flags.sched_lock_nesting > 0 ==> r
        == Err::<(), OsError>(OsError::SchedLocked) && b == a)
    &&& (a.flags.running && a.flags.int_nesting == 0 && a.flags.sched_lock_nesting == 0 && ticks
        == 0 ==> r == Ok::<(), OsError>(()) && b == a)
    &&& ((a.flags.running && a.flags.int_nesting == 0 && a.flags.sched_lock_nesting == 0 && ticks
        > 0) ==> {
        &&& r == Ok::<(), OsError>(())
        &&& b.flags == a.flags
        &&& b.pend_qs == a.pend_qs
        &&& (if a.cpu.tcb_cur matches Some(c) && a.tcb_of(c).task_state == OsTaskState::Ready {
            let c = a.cpu.tcb_cur->0;
            let p = a.tcb_of(c).prio as int;
            let expiry = a.flags.tick_counter.wrapping_add(ticks);
            let s = (expiry as int) % (CFG_TICK_WHEEL_SIZE as int);
            &&& b.tcbs@ == a.tcbs@.update(
                c as int,
                (OsTcb {
                    task_state: OsTaskState::Delayed,
                    tick_remain: ticks,
                    tick_wheel_slot: s as u8,
                    ..a.tcb_of(c)
                }),
            )
            &&& b.rdy(p) == a.rdy(p).remove_value(c)
            &&& crate::kernel::rdy_unchanged_except(a, b, p)
            &&& b.wheel(s) == a.wheel(s).insert(0, c)
            &&& crate::kernel::wheel_unchanged_except(a, b, s)
        } else {
            &&& b.tcbs == a.tcbs
            &&& b.sched == a.sched
        })
        &&& sched_outcome_from(a.cpu, a.ctx_sw_pending, b)
    })
}

pub fn os_time_dly(k: &mut Kernel, ticks: OsTick) -> (r: OsResult<()>)
    requires
        old(k).inv(),
    ensures
        final(k).inv(),
        time_dly_post(*old(k), *final(k), ticks, r),
{
    if !k.flags.is_running() {
        return Err(OsError::OsNotRunning);
    }
    if k.flags.int_nesting() > 0 {
        return Err(OsError::TimeDlyIsr);
    }
    if k.flags.sched_lock_nesting() > 0 {
        return Err(OsError::SchedLocked);
    }
    if ticks == 0 {
        return Ok(());
    }
    let cur = k.cpu.tcb_cur_ptr();
    match cur {
        Some(c) => {
            if k.tcbs[c].is_ready() {
                let ghost a = *old(k);
                let ghost p = a.tcb_of(c).prio as int;
                os_rdy_list_remove(k, c);
                let ghost m1 = *k;
                let now = k.flags.tick_get();
                let expiry = now.wrapping_add(ticks);
                os_wheel_block(k, c, ticks, expiry);
                proof {
                    let s = (expiry as int) % (CFG_TICK_WHEEL_SIZE as int);
                    assert(k.tcbs@ =~= a.tcbs@.update(
                        c as int,
                        (OsTcb {
                            task_state: OsTaskState::Delayed,
                            tick_remain: ticks,
                            tick_wheel_slot: s as u8,
                            ..a.tcb_of(c)
                        }),
                    ));
                    assert forall|p2: int|
                        0 <= p2 < CFG_PRIO_MAX as int && p2 != p implies k.rdy(p2) == a.rdy(
                        p2,
                    ) by {
                        assert(m1.rdy(p2) == a.rdy(p2));
                        assert(k.rdy(p2) == m1.rdy(p2));
                    }
                    assert(k.rdy(p) == a.rdy(p).remove_value(c));
                    assert forall|s2: int|
                        0 <= s2 < CFG_TICK_WHEEL_SIZE as int && s2 != s implies k.wheel(s2)
                        == a.wheel(s2) by {
                        assert(k.wheel(s2) == m1.wheel(s2));
                        assert(m1.wheel(s2) == a.wheel(s2));
                    }
                }
            }
        },
        None => {},
    }
    let ghost m2 = *k;
    os_sched(k);
    proof {
        let a = *old(k);
        if a.flags.running && a.flags.int_nesting == 0 && a.flags.sched_lock_nesting == 0 {
            assert(k.sched == m2.sched && k.tcbs == m2.tcbs);
            assert forall|p2: int|
                0 <= p2 < CFG_PRIO_MAX as int implies k.rdy(p2) == m2.rdy(p2) by {}
            assert(sched_outcome_from(a.cpu, a.ctx_sw_pending, *k));
        }
    }
    Ok(())
}

/// A duration in hours, minutes, seconds and milliseconds, as ticks
/// at the configured tick rate
pub open spec fn hmsm_ticks(hours: u16, minutes: u8, seconds: u8, milliseconds: u16) -> u32 {
    ((((hours as int) * 3600000 + (minutes as int) * 60000 + (seconds as int) * 1000 + (
    milliseconds as int)) * (CFG_TICK_RATE_HZ as int)) / 1000) as u32
}

/// Delay the calling task for a duration in hours, minutes, seconds
/// and milliseconds, converted to ticks at the configured tick rate;
/// the delay itself behaves exactly like the tick-count delay.
pub fn os_time_dly_hmsm(k: &mut Kernel, hours: u16, minutes: u8, seconds: u8, milliseconds: u16)
    -> (r: OsResult<()>)
    requires
        old(k).inv(),
        hours <= 999,
    ensures
        final(k).inv(),
        (minutes > 59 || seconds > 59 || milliseconds > 999) ==> r == Err::<(), OsError>(
            OsError::StateInvalid,
        ) && *final(k) == *old(k),
        (minutes <= 59 && seconds <= 59 && milliseconds <= 999) ==> time_dly_post(
            *old(k),
            *final(k),
            hmsm_ticks(hours, minutes, seconds, milliseconds),
            r,
        ),
{
    if minutes > 59 {
        return Err(OsError::StateInvalid);
    }
    if seconds > 59 {
        return Err(OsError::StateInvalid);
    }
    if milliseconds > 999 {
        return Err(OsError::StateInvalid);
    }
    let total_ms: u32 = (hours as u32) * 3600000 + (minutes as u32) * 60000 + (seconds as u32)
        * 1000 + (milliseconds as u32);
    proof {
        let m = total_ms as int;
        assert(m <= 3600000000) by (nonlinear_arith)
            requires
                m == (hours as int) * 3600000 + (minutes as int) * 60000 + (seconds as int) * 1000
                    + (milliseconds as int),
                hours <= 999,
                minutes <= 59,
                seconds <= 59,
                milliseconds <= 999,
        ;
        assert((m * (CFG_TICK_RATE_HZ as int)) / 1000 <= 3600000000) by (nonlinear_arith)
            requires
                m <= 3600000000,
        ;
    }
    let ticks: u32 = (((total_ms as u64) * (CFG_TICK_RATE_HZ as u64)) / 1000) as u32;
    proof {
        assert(ticks == hmsm_ticks(hours, minutes, seconds, milliseconds));
    }
    os_time_dly(k, ticks)
}

/// Resume a delayed task before its delay expires: take it out of the
/// tick wheel, make it ready (unless it is also explicitly suspended)
/// and reschedule.
pub fn os_time_dly_resume(k: &mut Kernel, t: usize) -> (r: OsResult<()>)
    requires
        old(k).inv(),
    ensures
        final(k).inv(),
        !old(k).flags.running ==> r == Err::<(), OsError>(OsError::OsNotRunning) && *final(k)
            == *old(k),
        old(k).flags.running && old(k).flags.int_nesting > 0 ==> r == Err::<(), OsError>(
            OsError::TimeDlyIsr,
        ) && *final(k) == *old(k),
        old(k).flags.running && old(k).flags.int_nesting == 0 && !old(k).is_tid(t) ==> r == Err::<
            (),
            OsError,
        >(OsError::TcbInvalid) && *final(k) == *old(k),
        old(k).flags.running && old(k).flags.int_nesting == 0 && old(k).is_tid(t)
            && !crate::tcb::is_delayed_state(old(k).tcb_of(t).task_state) ==> r == Err::<
            (),
            OsError,
        >(OsError::TaskNotDly) && *final(k) == *old(k),
        (old(k).flags.running && old(k).flags.int_nesting == 0 && old(k).is_tid(t)
            && crate::tcb::is_delayed_state(old(k).tcb_of(t).task_state)) ==> {
            let s = old(k).tcb_of(t).tick_wheel_slot as int;
            let becomes = if old(k).tcb_of(t).task_state == OsTaskState::Delayed {
                OsTaskState::Ready
            } else {
                OsTaskState::Suspended
            };
            &&& r == Ok::<(), OsError>(())
            &&& final(k).tcbs@ == old(k).tcbs@.update(
                t as int,
                (OsTcb { task_state: becomes, tick_remain: 0, ..old(k).tcb_of(t) }),
            )
            &&& final(k).wheel(s) == old(k).wheel(s).remove_value(t)
            &&& crate::kernel::wheel_unchanged_except(*old(k), *final(k), s)
            &&& (becomes == OsTaskState::Ready ==> final(k).rdy(old(k).tcb_of(t).prio as int)
                == old(k).rdy(old(k).tcb_of(t).prio as int).push(t)
                && crate::kernel::rdy_unchanged_except(
                *old(k),
                *final(k),
                old(k).tcb_of(t).prio as int,
            ))
            &&& (becomes == OsTaskState::Suspended ==> final(k).sched.rdy_list == old(k).sched.rdy_list && final(k).sched.prio_tbl == old(k).sched.prio_tbl)
            &&& final(k).pend_qs == old(k).pend_qs
            &&& final(k).flags == old(k).flags
            &&& (old(k).flags.sched_lock_nesting == 0 ==> sched_outcome_from(
                old(k).cpu,
                old(k).ctx_sw_pending,
                *final(k),
            ))
            &&& (old(k).flags.sched_lock_nesting > 0 ==> final(k).cpu == old(k).cpu && final(k).ctx_sw_pending == old(k).ctx_sw_pending)
        },
{
    if !k.flags.is_running() {
        return Err(OsError::OsNotRunning);
    }
    if k.flags.int_nesting() > 0 {
        return Err(OsError::TimeDlyIsr);
    }
    if t >= k.tcbs.len() {
        return Err(OsError::TcbInvalid);
    }
    let was_delayed = k.tcbs[t].is_delayed();
    if !was_delayed {
        return Err(OsError::TaskNotDly);
    }
    let was_plain = k.tcbs[t].task_state == OsTaskState::Delayed;
    let ghost a = *old(k);
    let ghost s = a.tcb_of(t).tick_wheel_slot as int;
    let ghost p = a.tcb_of(t).prio as int;
    os_delay_unblock(k, t);
    let ghost m1 = *k;
    if was_plain {
        os_rdy_list_insert(k, t);
        proof {
            assert(k.tcbs@ =~= a.tcbs@.update(
                t as int,
                (OsTcb {
                    task_state: OsTaskState::Ready,
                    tick_remain: 0,
                    ..a.tcb_of(t)
                }),
            ));
            assert forall|p2: int|
                0 <= p2 < CFG_PRIO_MAX as int && p2 != p implies k.rdy(p2) == a.rdy(p2) by {
                assert(k.rdy(p2) == m1.rdy(p2));
                assert(m1.rdy(p2) == a.rdy(p2));
            }
            assert(k.rdy(p) == a.rdy(p).push(t));
            assert forall|s2: int|
                0 <= s2 < CFG_TICK_WHEEL_SIZE as int && s2 != s implies k.wheel(s2) == a.wheel(
                s2,
            ) by {
                assert(k.wheel(s2) == m1.wheel(s2));
                assert(m1.wheel(s2) == a.wheel(s2));
            }
            assert(k.wheel(s) == a.wheel(s).remove_value(t));
        }
    }
    let ghost m2 = *k;
    os_sched(k);
    proof {
        if a.flags.running && a.flags.int_nesting == 0 && a.flags.sched_lock_nesting == 0 {
            assert(k.sched == m2.sched && k.tcbs == m2.tcbs);
            assert(sched_outcome_from(a.cpu, a.ctx_sw_pending, *k));
        }
    }
    Ok(())
}

/// Get the current tick count
#[inline]
pub fn os_time_get(k: &Kernel) -> (r: OsTick)
    ensures
        r == k.flags.tick_counter,
{
    k.flags.tick_get()
}

// Walk the tick wheel slot of the current tick: promote every task
// whose residual delay fits within one wheel revolution, and charge
// one revolution to the others.
fn process_delayed_tasks(k: &mut Kernel)
    requires
        old(k).inv(),
    ensures
        final(k).inv(),
        final(k).flags == old(k).flags,
        final(k).cpu == old(k).cpu,
        final(k).ctx_sw_pending == old(k).ctx_sw_pending,
        final(k).n_tasks() == old(k).n_tasks(),
        final(k).n_qs() == old(k).n_qs(),
        forall|t: usize|
            old(k).is_tid(t) ==> scan_task_spec(
                *old(k),
                *final(k),
                (old(k).flags.tick_counter as int) % (CFG_TICK_WHEEL_SIZE as int),
                t,
            ),
{
    let ghost a = *old(k);
    let current_tick = k.flags.tick_get();
    let slot: usize = (current_tick as usize) % CFG_TICK_WHEEL_SIZE;
    let ghost s = slot as int;
    let ghost alen = a.wheel(s).len() as int;
    let mut i: usize = 0;
    let ghost mut j: int = 0;
    while i < k.sched.tick_wheel[slot].count()
        invariant
            k.inv(),
            k.flags == a.flags,
            k.cpu == a.cpu,
            k.ctx_sw_pending == a.ctx_sw_pending,
            k.n_tasks() == a.n_tasks(),
            k.n_qs() == a.n_qs(),
            a.inv(),
            k.sched.tick_wheel@.len() == CFG_TICK_WHEEL_SIZE as int,
            0 <= s < CFG_TICK_WHEEL_SIZE as int,
            slot as int == s,
            alen == a.wheel(s).len(),
            0 <= i as int <= k.wheel(s).len(),
            0 <= j <= alen,
            k.wheel(s).subrange(i as int, k.wheel(s).len() as int) == a.wheel(s).subrange(
                j,
                alen,
            ),
            forall|t: usize|
                a.is_tid(t) ==> (if a.wheel(s).subrange(0, j).contains(t) {
                    scan_task_spec(a, *k, s, t)
                } else {
                    k.tcb_of(t) == a.tcb_of(t)
                }),
        decreases alen - j,
    {
        proof {
            assert(k.wheel(s).subrange(i as int, k.wheel(s).len() as int).len() == alen - j);
            assert(j < alen);
        }
        let t = k.sched.tick_wheel[slot].get(i);
        let ghost kpre = *k;
        proof {
            assert(kpre.wheel(s)[i as int] == t);
            assert(kpre.wheel_member_ok(s, i as int));
            assert(a.wheel(s)[j] == t) by {
                assert(kpre.wheel(s).subrange(i as int, kpre.wheel(s).len() as int)[0] == a.wheel(
                    s,
                ).subrange(j, alen)[0]);
            }
            assert(a.wheel(s).subrange(0, j + 1) == a.wheel(s).subrange(0, j).push(t)) by {
                assert(a.wheel(s).subrange(0, j + 1) =~= a.wheel(s).subrange(0, j).push(t));
            }
            // the task at hand has not been processed yet
            assert(!a.wheel(s).subrange(0, j).contains(t)) by {
                assert(a.wheel(s).no_duplicates());
                if a.wheel(s).subrange(0, j).contains(t) {
                    let x = choose|x: int| 0 <= x < j && a.wheel(s).subrange(0, j)[x] == t;
                    assert(a.wheel(s)[x] == t && a.wheel(s)[j] == t && x != j);
                }
            }
            assert(k.tcb_of(t) == a.tcb_of(t));
        }
        let c = k.tcbs[t];
        if c.tick_remain <= CFG_TICK_WHEEL_SIZE as u32 {
            proof {
                lemma_remove_value_at(kpre.wheel(s), i as int);
            }
            match c.task_state {
                OsTaskState::Delayed => {
                    os_delay_unblock(k, t);
                    os_rdy_list_insert(k, t);
                },
                OsTaskState::DelayedSuspended => {
                    os_delay_unblock(k, t);
                },
                OsTaskState::PendTimeout => {
                    os_pend_unblock(k, t, OsPendStatus::Timeout);
                    os_rdy_list_insert(k, t);
                },
                OsTaskState::PendTimeoutSuspended => {
                    os_pend_unblock(k, t, OsPendStatus::Timeout);
                },
                _ => {
                    proof {
                        assert(false);
                    }
                },
            }
            proof {
                j = j + 1;
                assert(k.wheel(s) == kpre.wheel(s).remove(i as int));
                assert(k.wheel(s).subrange(i as int, k.wheel(s).len() as int) =~= a.wheel(
                    s,
                ).subrange(j, alen)) by {
                    crate::seq_lemmas::lemma_remove_effect(kpre.wheel(s), i as int);
                    assert forall|x: int|
                        0 <= x < k.wheel(s).len() - i implies k.wheel(s).subrange(
                        i as int,
                        k.wheel(s).len() as int,
                    )[x] == a.wheel(s).subrange(j, alen)[x] by {
                        assert(k.wheel(s)[i + x] == kpre.wheel(s)[i + x + 1]);
                        assert(kpre.wheel(s).subrange(i as int, kpre.wheel(s).len() as int)[x + 1]
                            == a.wheel(s).subrange(j - 1, alen)[x + 1]);
                    }
                }
                assert(scan_task_spec(a, *k, s, t));
                assert forall|u: usize|
                    a.is_tid(u) implies (if a.wheel(s).subrange(0, j).contains(u) {
                    scan_task_spec(a, *k, s, u)
                } else {
                    k.tcb_of(u) == a.tcb_of(u)
                }) by {
                    if u != t {
                        assert(k.tcb_of(u) == kpre.tcb_of(u));
                        assert(a.wheel(s).subrange(0, j).contains(u) == a.wheel(s).subrange(
                            0,
                            j - 1,
                        ).contains(u)) by {
                            crate::seq_lemmas::lemma_push_effect(a.wheel(s).subrange(0, j - 1), t);
                        }
                    } else {
                        assert(a.wheel(s).subrange(0, j)[j - 1] == t);
                        assert(a.wheel(s).subrange(0, j).contains(t));
                    }
                }
            }
        } else {
            proof {
                assert(kpre.tcb_fields_ok(t));
            }
            let mut c2 = c;
            c2.tick_remain = c.tick_remain - CFG_TICK_WHEEL_SIZE as u32;
            os_tcb_write(k, t, c2);
            i = i + 1;
            proof {
                j = j + 1;
                assert(k.wheel(s) == kpre.wheel(s));
                assert(k.wheel(s).subrange(i as int, k.wheel(s).len() as int) =~= a.wheel(
                    s,
                ).subrange(j, alen)) by {
                    assert forall|x: int|
                        0 <= x < k.wheel(s).len() - i implies k.wheel(s).subrange(
                        i as int,
                        k.wheel(s).len() as int,
                    )[x] == a.wheel(s).subrange(j, alen)[x] by {
                        assert(kpre.wheel(s).subrange(i - 1, kpre.wheel(s).len() as int)[x + 1]
                            == a.wheel(s).subrange(j - 1, alen)[x + 1]);
                    }
                }
                assert(scan_task_spec(a, *k, s, t));
                assert forall|u: usize|
                    a.is_tid(u) implies (if a.wheel(s).subrange(0, j).contains(u) {
                    scan_task_spec(a, *k, s, u)
                } else {
                    k.tcb_of(u) == a.tcb_of(u)
                }) by {
                    if u != t {
                        assert(k.tcb_of(u) == kpre.tcb_of(u));
                        assert(a.wheel(s).subrange(0, j).contains(u) == a.wheel(s).subrange(
                            0,
                            j - 1,
                        ).contains(u)) by {
                            crate::seq_lemmas::lemma_push_effect(a.wheel(s).subrange(0, j - 1), t);
                        }
                    } else {
                        assert(a.wheel(s).subrange(0, j)[j - 1] == t);
                        assert(a.wheel(s).subrange(0, j).contains(t));
                    }
                }
            }
        }
    }
    proof {
        assert(j == alen) by {
            assert(k.wheel(s).subrange(i as int, k.wheel(s).len() as int).len() == alen - j);
        }
        assert(a.wheel(s).subrange(0, alen) == a.wheel(s)) by {
            assert(a.wheel(s).subrange(0, alen) =~= a.wheel(s));
        }
        assert forall|t: usize| a.is_tid(t) implies scan_task_spec(a, *k, s, t) by {
            let c = a.tcb_of(t);
            if is_wheel_state(c.task_state) && c.tick_wheel_slot as int == s {
                assert(a.wheel(s).contains(t));
                assert(a.wheel(s).subrange(0, j).contains(t));
            } else {
                a.lemma_membership(t);
                if a.wheel(s).subrange(0, j).contains(t) {
                    assert(a.wheel(s).contains(t));
                    let x = choose|x: int| 0 <= x < a.wheel(s).len() && a.wheel(s)[x] == t;
                    assert(a.wheel_member_ok(s, x));
                }
            }
        }
    }
}

/// The tick handler, invoked once per tick from the tick source's ISR:
/// advance the tick counter, promote due delays and timeouts out of
/// the current wheel slot, drive round-robin accounting for the
/// running task, and on ISR exit request a switch if a higher-priority
/// task became ready.
pub fn os_tick_handler(k: &mut Kernel)
    requires
        old(k).inv(),
    ensures
        final(k).inv(),
        !old(k).flags.running ==> *final(k) == *old(k),
        old(k).flags.running ==> {
            let tick2 = old(k).flags.tick_counter.wrapping_add(1);
            let s = (tick2 as int) % (CFG_TICK_WHEEL_SIZE as int);
            &&& final(k).flags.tick_counter == tick2
            &&& final(k).flags.initialized == old(k).flags.initialized
            &&& final(k).flags.running
            &&& final(k).flags.sched_lock_nesting == old(k).flags.sched_lock_nesting
            &&& final(k).flags.int_nesting == (if old(k).flags.int_nesting == 255 {
                254u8
            } else {
                old(k).flags.int_nesting
            })
            &&& final(k).n_tasks() == old(k).n_tasks()
            &&& final(k).n_qs() == old(k).n_qs()
            &&& final(k).cpu.tcb_cur == old(k).cpu.tcb_cur
            &&& final(k).cpu.prio_cur == old(k).cpu.prio_cur
            &&& (forall|t: usize|
                old(k).is_tid(t) && Some(t) != old(k).cpu.tcb_cur ==> scan_task_spec(
                    *old(k),
                    *final(k),
                    s,
                    t,
                ))
            &&& (old(k).cpu.tcb_cur matches Some(c) ==> final(k).tcb_of(c) == (if old(
                k,
            ).flags.sched_lock_nesting == 0 {
                rr_charged(scanned_tcb(*old(k), s, c))
            } else {
                scanned_tcb(*old(k), s, c)
            }))
            &&& ((old(k).flags.int_nesting == 0 && old(k).flags.sched_lock_nesting == 0) ==> {
                let p = final(k).sched.prio_tbl.spec_highest();
                (p < old(k).cpu.prio_cur as int && final(k).rdy(p).len() > 0) ==> {
                    &&& final(k).cpu.prio_high_rdy as int == p
                    &&& final(k).cpu.tcb_high_rdy == Some(final(k).rdy(p)[0])
                    &&& final(k).ctx_sw_pending
                }
            })
        },
{
    if !k.flags.is_running() {
        return ;
    }
    k.flags.int_enter();
    let _tick = k.flags.tick_increment();
    proof {
        Kernel::lemma_inv_ctl_change(*old(k), *k);
    }
    let ghost pre_scan = *k;
    process_delayed_tasks(k);
    let ghost post_scan = *k;
    os_sched_round_robin(k);
    let ghost post_rr = *k;
    crate::kernel::os_int_exit(k);
    proof {
        let a = *old(k);
        let s = ((a.flags.tick_counter.wrapping_add(1)) as int) % (CFG_TICK_WHEEL_SIZE as int);
        let s2 = (pre_scan.flags.tick_counter as int) % (CFG_TICK_WHEEL_SIZE as int);
        assert(s2 == s);
        assert forall|t: usize|
            a.is_tid(t) && Some(t) != a.cpu.tcb_cur implies scan_task_spec(a, *k, s, t) by {
            assert(pre_scan.is_tid(t));
            assert(scan_task_spec(pre_scan, post_scan, s2, t));
            assert(pre_scan.tcb_of(t) == a.tcb_of(t));
            assert(post_rr.tcb_of(t) == post_scan.tcb_of(t)) by {
                match post_scan.cpu.tcb_cur {
                    Some(c) => {
                        assert(t != c);
                    },
                    None => {},
                }
            }
            assert(k.tcb_of(t) == post_rr.tcb_of(t));
        }
        match a.cpu.tcb_cur {
            Some(c) => {
                assert(pre_scan.is_tid(c));
                assert(scan_task_spec(pre_scan, post_scan, s2, c));
                assert(post_scan.tcb_of(c) == scanned_tcb(a, s, c));
                if a.flags.sched_lock_nesting == 0 {
                    assert(post_rr.tcb_of(c) == rr_charged(post_scan.tcb_of(c)));
                } else {
                    assert(post_rr.tcb_of(c) == post_scan.tcb_of(c));
                }
                assert(k.tcb_of(c) == post_rr.tcb_of(c));
            },
            None => {},
        }
        if a.flags.int_nesting == 0 && a.flags.sched_lock_nesting == 0 {
            let p = k.sched.prio_tbl.spec_highest();
            k.sched.prio_tbl.lemma_highest_is_min();
            assert(post_rr.sched == k.sched && post_rr.cpu.prio_cur == a.cpu.prio_cur);
            if p < a.cpu.prio_cur as int && k.rdy(p).len() > 0 {
                assert(post_rr.rdy(p) == k.rdy(p));
                assert(post_rr.sched.prio_tbl.spec_highest() == p);
            }
        }
    }
}

} // verus!
