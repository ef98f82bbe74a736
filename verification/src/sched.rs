//! Scheduler core: ready-list transitions, the reschedule entry point
//! and round-robin time slicing.
//!
//! The transition helpers here move one task between the ready set and
//! the other kernel structures atomically, so the kernel invariant
//! holds on entry and exit of every public operation.

use vstd::prelude::*;

use crate::config::CFG_PRIO_MAX;
use crate::config::CFG_SCHED_ROUND_ROBIN_EN;
use crate::config::CFG_TICK_WHEEL_SIZE;
use crate::kernel::Kernel;
use crate::kernel::CpuState;
use crate::kernel::rdy_unchanged_except;
use crate::port;
use crate::sem::pend_has_task;
use crate::sem::pend_sorted;
use crate::sem::pend_tasks_unique;
use crate::seq_lemmas::lemma_push_effect;
use crate::seq_lemmas::lemma_remove_value_effect;
use crate::tcb::OsTcb;
use crate::tcb::is_pending_state;
use crate::tcb::is_wheel_state;
use crate::types::OsPrio;
use crate::types::OsTaskState;

verus! {

/// Make a suspended (unlisted) task ready: set its state, queue it at
/// the tail of its priority's ready list and set the bitmap bit.
pub(crate) fn os_rdy_list_insert(k: &mut Kernel, t: usize)
    requires
        old(k).inv(),
        old(k).is_tid(t),
        old(k).tcb_of(t).task_state == OsTaskState::Suspended,
    ensures
        final(k).inv(),
        final(k).tcbs@ == old(k).tcbs@.update(
            t as int,
            (OsTcb { task_state: OsTaskState::Ready, ..old(k).tcb_of(t) }),
        ),
        final(k).rdy(old(k).tcb_of(t).prio as int) == old(k).rdy(
            old(k).tcb_of(t).prio as int,
        ).push(t),
        rdy_unchanged_except(*old(k), *final(k), old(k).tcb_of(t).prio as int),
        final(k).sched.tick_wheel == old(k).sched.tick_wheel,
        final(k).pend_qs == old(k).pend_qs,
        final(k).cpu == old(k).cpu,
        final(k).flags == old(k).flags,
        final(k).ctx_sw_pending == old(k).ctx_sw_pending,
{
    proof {
        assert(old(k).tcb_fields_ok(t));
    }
    let prio = k.tcbs[t].prio;
    let mut c = k.tcbs[t];
    c.task_state = OsTaskState::Ready;
    k.tcbs[t] = c;
    k.sched.rdy_list[prio as usize].insert_tail(t);
    k.sched.prio_tbl.insert(prio);
    proof {
        let a = *old(k);
        let b = *k;
        let p = a.tcb_of(t).prio as int;
        a.lemma_membership(t);
        lemma_push_effect(a.rdy(p), t);
        assert forall|u: usize| b.is_tid(u) implies #[trigger] b.tcb_fields_ok(u) by {
            if u != t {
                assert(a.tcb_fields_ok(u));
            } else {
                assert(a.tcb_fields_ok(t));
            }
        }
        assert forall|p2: int, i: int|
            0 <= p2 < CFG_PRIO_MAX as int && 0 <= i < b.rdy(p2).len() implies b.rdy_member_ok(
            p2,
            i,
        ) by {
            if p2 == p {
                if i < a.rdy(p).len() {
                    let u = a.rdy(p)[i];
                    assert(a.rdy_member_ok(p, i));
                    assert(b.rdy(p)[i] == u);
                    assert(u != t);
                } else {
                    assert(b.rdy(p)[i] == t);
                }
            } else {
                assert(b.rdy(p2) == a.rdy(p2));
                let u = a.rdy(p2)[i];
                assert(a.rdy_member_ok(p2, i));
                assert(u != t);
            }
        }
        assert forall|s: int, i: int|
            0 <= s < CFG_TICK_WHEEL_SIZE as int && 0 <= i < b.wheel(s).len()
            implies b.wheel_member_ok(s, i) by {
            let u = a.wheel(s)[i];
            assert(a.wheel_member_ok(s, i));
            assert(u != t);
        }
        assert forall|q: int, i: int|
            0 <= q < b.n_qs() && 0 <= i < b.pq(q).len() implies b.pq_member_ok(q, i) by {
            let e = a.pq(q)[i];
            assert(a.pq_member_ok(q, i));
            assert(e.task != t);
        }
        assert forall|u: usize|
            b.is_tid(u) && (#[trigger] b.tcb_of(u)).task_state == OsTaskState::Ready
            implies b.rdy(b.tcb_of(u).prio as int).contains(u) by {
            if u != t {
                assert(a.tcb_of(u).task_state == OsTaskState::Ready);
                assert(a.tcb_fields_ok(u));
                let pu = a.tcb_of(u).prio as int;
                assert(a.rdy(pu).contains(u));
                if pu == p {
                    assert(b.rdy(p) == a.rdy(p).push(t));
                } else {
                    assert(b.rdy(pu) == a.rdy(pu));
                }
                assert(b.tcb_of(u) == a.tcb_of(u));
            } else {
                assert(b.rdy(p).contains(t));
            }
        }
        assert forall|u: usize|
            b.is_tid(u) && is_wheel_state((#[trigger] b.tcb_of(u)).task_state) implies {
            &&& (b.tcb_of(u).tick_wheel_slot as int) < CFG_TICK_WHEEL_SIZE as int
            &&& b.wheel(b.tcb_of(u).tick_wheel_slot as int).contains(u)
        } by {
            assert(u != t);
            assert(is_wheel_state(a.tcb_of(u).task_state));
        }
        assert forall|u: usize|
            b.is_tid(u) && is_pending_state((#[trigger] b.tcb_of(u)).task_state) implies {
            &&& b.tcb_of(u).pend_obj matches Some(q)
            &&& (b.tcb_of(u).pend_obj matches Some(q) ==> (q as int) < b.n_qs() && pend_has_task(
                b.pq(q as int),
                u,
            ))
        } by {
            assert(u != t);
            assert(is_pending_state(a.tcb_of(u).task_state));
        }
        assert(b.lists_no_dup()) by {
            assert forall|p2: int| 0 <= p2 < CFG_PRIO_MAX as int implies (
            #[trigger] b.rdy(p2)).no_duplicates() by {
                if p2 != p {
                    assert(b.rdy(p2) == a.rdy(p2));
                } else {
                    assert(!a.rdy(p).contains(t));
                }
            }
            assert forall|s: int| 0 <= s < CFG_TICK_WHEEL_SIZE as int implies (
            #[trigger] b.wheel(s)).no_duplicates() by {
                assert(b.wheel(s) == a.wheel(s));
            }
            assert forall|q: int|
                0 <= q < b.n_qs() implies pend_tasks_unique(#[trigger] b.pq(q)) && pend_sorted(
                b.pq(q),
            ) by {
                assert(b.pq(q) == a.pq(q));
            }
        }
        assert(b.bitmap_ok()) by {
            assert forall|p2: int|
                0 <= p2 < CFG_PRIO_MAX as int implies (b.sched.prio_tbl.spec_is_set(p2) <==> (
            #[trigger] b.rdy(p2)).len() != 0) by {
                if p2 != p {
                    assert(b.rdy(p2) == a.rdy(p2));
                }
            }
        }
    }
}

/// Remove a ready task from the ready set: unqueue it from its
/// priority's ready list, clear the bitmap bit if the list drained,
/// and mark the task suspended (off every kernel list).
pub(crate) fn os_rdy_list_remove(k: &mut Kernel, t: usize)
    requires
        old(k).inv(),
        old(k).is_tid(t),
        old(k).tcb_of(t).task_state == OsTaskState::Ready,
    ensures
        final(k).inv(),
        final(k).tcbs@ == old(k).tcbs@.update(
            t as int,
            (OsTcb { task_state: OsTaskState::Suspended, ..old(k).tcb_of(t) }),
        ),
        final(k).rdy(old(k).tcb_of(t).prio as int) == old(k).rdy(
            old(k).tcb_of(t).prio as int,
        ).remove_value(t),
        rdy_unchanged_except(*old(k), *final(k), old(k).tcb_of(t).prio as int),
        final(k).sched.tick_wheel == old(k).sched.tick_wheel,
        final(k).pend_qs == old(k).pend_qs,
        final(k).cpu == old(k).cpu,
        final(k).flags == old(k).flags,
        final(k).ctx_sw_pending == old(k).ctx_sw_pending,
{
    proof {
        assert(old(k).tcb_fields_ok(t));
        assert(old(k).rdy(old(k).tcb_of(t).prio as int).contains(t));
        lemma_remove_value_effect(old(k).rdy(old(k).tcb_of(t).prio as int), t);
    }
    let prio = k.tcbs[t].prio;
    let mut c = k.tcbs[t];
    c.task_state = OsTaskState::Suspended;
    k.tcbs[t] = c;
    k.sched.rdy_list[prio as usize].remove(t);
    if k.sched.rdy_list[prio as usize].is_empty() {
        k.sched.prio_tbl.remove(prio);
    }
    proof {
        let a = *old(k);
        let b = *k;
        let p = a.tcb_of(t).prio as int;
        a.lemma_membership(t);
        assert forall|u: usize| b.is_tid(u) implies #[trigger] b.tcb_fields_ok(u) by {
            if u != t {
                assert(a.tcb_fields_ok(u));
            } else {
                assert(a.tcb_fields_ok(t));
            }
        }
        assert forall|p2: int, i: int|
            0 <= p2 < CFG_PRIO_MAX as int && 0 <= i < b.rdy(p2).len() implies b.rdy_member_ok(
            p2,
            i,
        ) by {
            if p2 == p {
                let u = b.rdy(p)[i];
                assert(b.rdy(p).contains(u));
                assert(a.rdy(p).contains(u) && u != t);
                let j = choose|j: int| 0 <= j < a.rdy(p).len() && a.rdy(p)[j] == u;
                assert(a.rdy_member_ok(p, j));
            } else {
                assert(b.rdy(p2) == a.rdy(p2));
                let u = a.rdy(p2)[i];
                assert(a.rdy_member_ok(p2, i));
                assert(u != t);
            }
        }
        assert forall|s: int, i: int|
            0 <= s < CFG_TICK_WHEEL_SIZE as int && 0 <= i < b.wheel(s).len()
            implies b.wheel_member_ok(s, i) by {
            let u = a.wheel(s)[i];
            assert(a.wheel_member_ok(s, i));
            assert(u != t);
        }
        assert forall|q: int, i: int|
            0 <= q < b.n_qs() && 0 <= i < b.pq(q).len() implies b.pq_member_ok(q, i) by {
            let e = a.pq(q)[i];
            assert(a.pq_member_ok(q, i));
            assert(e.task != t);
        }
        assert forall|u: usize|
            b.is_tid(u) && (#[trigger] b.tcb_of(u)).task_state == OsTaskState::Ready
            implies b.rdy(b.tcb_of(u).prio as int).contains(u) by {
            assert(u != t);
            assert(a.tcb_of(u).task_state == OsTaskState::Ready);
            assert(a.tcb_fields_ok(u));
            let pu = a.tcb_of(u).prio as int;
            assert(a.rdy(pu).contains(u));
            if pu == p {
                assert(b.rdy(p).contains(u));
            } else {
                assert(b.rdy(pu) == a.rdy(pu));
            }
            assert(b.tcb_of(u) == a.tcb_of(u));
        }
        assert forall|u: usize|
            b.is_tid(u) && is_wheel_state((#[trigger] b.tcb_of(u)).task_state) implies {
            &&& (b.tcb_of(u).tick_wheel_slot as int) < CFG_TICK_WHEEL_SIZE as int
            &&& b.wheel(b.tcb_of(u).tick_wheel_slot as int).contains(u)
        } by {
            assert(u != t);
            assert(is_wheel_state(a.tcb_of(u).task_state));
        }
        assert forall|u: usize|
            b.is_tid(u) && is_pending_state((#[trigger] b.tcb_of(u)).task_state) implies {
            &&& b.tcb_of(u).pend_obj matches Some(q)
            &&& (b.tcb_of(u).pend_obj matches Some(q) ==> (q as int) < b.n_qs() && pend_has_task(
                b.pq(q as int),
                u,
            ))
        } by {
            assert(u != t);
            assert(is_pending_state(a.tcb_of(u).task_state));
        }
        assert(b.lists_no_dup()) by {
            assert forall|p2: int| 0 <= p2 < CFG_PRIO_MAX as int implies (
            #[trigger] b.rdy(p2)).no_duplicates() by {
                if p2 != p {
                    assert(b.rdy(p2) == a.rdy(p2));
                }
            }
            assert forall|s: int| 0 <= s < CFG_TICK_WHEEL_SIZE as int implies (
            #[trigger] b.wheel(s)).no_duplicates() by {
                assert(b.wheel(s) == a.wheel(s));
            }
            assert forall|q: int|
                0 <= q < b.n_qs() implies pend_tasks_unique(#[trigger] b.pq(q)) && pend_sorted(
                b.pq(q),
            ) by {
                assert(b.pq(q) == a.pq(q));
            }
        }
        assert(b.bitmap_ok()) by {
            assert forall|p2: int|
                0 <= p2 < CFG_PRIO_MAX as int implies (b.sched.prio_tbl.spec_is_set(p2) <==> (
            #[trigger] b.rdy(p2)).len() != 0) by {
                if p2 != p {
                    assert(b.rdy(p2) == a.rdy(p2));
                }
            }
        }
    }
}

/// Write a new priority into a task that is not in the ready set; its
/// queued pend entry, if any, keeps the priority it was queued with.
pub(crate) fn os_set_prio_unlisted(k: &mut Kernel, t: usize, new_prio: OsPrio)
    requires
        old(k).inv(),
        old(k).is_tid(t),
        old(k).tcb_of(t).task_state != OsTaskState::Ready,
        (new_prio as int) < CFG_PRIO_MAX as int,
        new_prio <= old(k).tcb_of(t).base_prio,
    ensures
        final(k).inv(),
        final(k).tcbs@ == old(k).tcbs@.update(
            t as int,
            (OsTcb { prio: new_prio, ..old(k).tcb_of(t) }),
        ),
        final(k).sched == old(k).sched,
        final(k).pend_qs == old(k).pend_qs,
        final(k).cpu == old(k).cpu,
        final(k).flags == old(k).flags,
        final(k).ctx_sw_pending == old(k).ctx_sw_pending,
{
    let mut c = k.tcbs[t];
    c.prio = new_prio;
    k.tcbs[t] = c;
    proof {
        let a = *old(k);
        let b = *k;
        assert(a.tcb_fields_ok(t));
        if is_wheel_state(a.tcb_of(t).task_state) {
            let s = a.tcb_of(t).tick_wheel_slot as int;
            assert(a.wheel(s).contains(t));
            let i = choose|i: int| 0 <= i < a.wheel(s).len() && a.wheel(s)[i] == t;
            assert(a.wheel_member_ok(s, i));
        }
        Kernel::lemma_inv_tcb_field_change(a, b, t);
    }
}

/// Move a ready task to a different priority's ready list: unqueue it
/// from the old list, update its priority and queue it at the tail of
/// the new list, maintaining the bitmap on both sides.
pub(crate) fn os_rdy_list_change_prio(k: &mut Kernel, t: usize, new_prio: OsPrio)
    requires
        old(k).inv(),
        old(k).is_tid(t),
        old(k).tcb_of(t).task_state == OsTaskState::Ready,
        (new_prio as int) < CFG_PRIO_MAX as int,
        new_prio <= old(k).tcb_of(t).base_prio,
    ensures
        final(k).inv(),
        old(k).tcb_of(t).prio == new_prio ==> *final(k) == *old(k),
        old(k).tcb_of(t).prio != new_prio ==> {
            let po = old(k).tcb_of(t).prio as int;
            let pn = new_prio as int;
            &&& final(k).tcbs@ == old(k).tcbs@.update(
                t as int,
                (OsTcb { prio: new_prio, ..old(k).tcb_of(t) }),
            )
            &&& final(k).rdy(po) == old(k).rdy(po).remove_value(t)
            &&& final(k).rdy(pn) == old(k).rdy(pn).push(t)
            &&& forall|p2: int|
                0 <= p2 < CFG_PRIO_MAX as int && p2 != po && p2 != pn ==> final(k).rdy(p2) == old(k).rdy(p2)
            &&& final(k).sched.tick_wheel == old(k).sched.tick_wheel
            &&& final(k).pend_qs == old(k).pend_qs
            &&& final(k).cpu == old(k).cpu
            &&& final(k).flags == old(k).flags
            &&& final(k).ctx_sw_pending == old(k).ctx_sw_pending
        },
{
    proof {
        assert(old(k).tcb_fields_ok(t));
        assert(old(k).rdy(old(k).tcb_of(t).prio as int).contains(t));
        lemma_remove_value_effect(old(k).rdy(old(k).tcb_of(t).prio as int), t);
    }
    let old_prio = k.tcbs[t].prio;
    if old_prio == new_prio {
        return ;
    }
    k.sched.rdy_list[old_prio as usize].remove(t);
    if k.sched.rdy_list[old_prio as usize].is_empty() {
        k.sched.prio_tbl.remove(old_prio);
    }
    let mut c = k.tcbs[t];
    c.prio = new_prio;
    k.tcbs[t] = c;
    k.sched.rdy_list[new_prio as usize].insert_tail(t);
    k.sched.prio_tbl.insert(new_prio);
    proof {
        let a = *old(k);
        let b = *k;
        let po = a.tcb_of(t).prio as int;
        let pn = new_prio as int;
        a.lemma_membership(t);
        lemma_push_effect(a.rdy(pn).remove_value(t), t);
        assert(a.rdy(pn).remove_value(t) == a.rdy(pn)) by {
            lemma_remove_value_effect(a.rdy(pn), t);
            assert(!a.rdy(pn).contains(t));
        }
        assert(b.rdy(pn) == a.rdy(pn).push(t));
        assert forall|u: usize| b.is_tid(u) implies #[trigger] b.tcb_fields_ok(u) by {
            if u != t {
                assert(a.tcb_fields_ok(u));
            } else {
                assert(a.tcb_fields_ok(t));
            }
        }
        assert forall|p2: int, i: int|
            0 <= p2 < CFG_PRIO_MAX as int && 0 <= i < b.rdy(p2).len() implies b.rdy_member_ok(
            p2,
            i,
        ) by {
            if p2 == po {
                let u = b.rdy(po)[i];
                assert(b.rdy(po).contains(u));
                assert(a.rdy(po).contains(u) && u != t);
                let j = choose|j: int| 0 <= j < a.rdy(po).len() && a.rdy(po)[j] == u;
                assert(a.rdy_member_ok(po, j));
            } else if p2 == pn {
                if i < a.rdy(pn).len() {
                    let u = a.rdy(pn)[i];
                    assert(a.rdy_member_ok(pn, i));
                    assert(b.rdy(pn)[i] == u);
                    assert(u != t);
                } else {
                    assert(b.rdy(pn)[i] == t);
                }
            } else {
                assert(b.rdy(p2) == a.rdy(p2));
                let u = a.rdy(p2)[i];
                assert(a.rdy_member_ok(p2, i));
                assert(u != t);
            }
        }
        assert forall|s: int, i: int|
            0 <= s < CFG_TICK_WHEEL_SIZE as int && 0 <= i < b.wheel(s).len()
            implies b.wheel_member_ok(s, i) by {
            let u = a.wheel(s)[i];
            assert(a.wheel_member_ok(s, i));
            assert(u != t);
        }
        assert forall|q: int, i: int|
            0 <= q < b.n_qs() && 0 <= i < b.pq(q).len() implies b.pq_member_ok(q, i) by {
            let e = a.pq(q)[i];
            assert(a.pq_member_ok(q, i));
            assert(e.task != t);
        }
        assert forall|u: usize|
            b.is_tid(u) && (#[trigger] b.tcb_of(u)).task_state == OsTaskState::Ready
            implies b.rdy(b.tcb_of(u).prio as int).contains(u) by {
            if u != t {
                assert(a.tcb_of(u).task_state == OsTaskState::Ready);
                assert(a.tcb_fields_ok(u));
                let pu = a.tcb_of(u).prio as int;
                assert(a.rdy(pu).contains(u));
                if pu == po {
                    assert(b.rdy(po).contains(u));
                } else if pu == pn {
                    assert(b.rdy(pn).contains(u));
                } else {
                    assert(b.rdy(pu) == a.rdy(pu));
                }
                assert(b.tcb_of(u) == a.tcb_of(u));
            } else {
                assert(b.rdy(pn).contains(t));
            }
        }
        assert forall|u: usize|
            b.is_tid(u) && is_wheel_state((#[trigger] b.tcb_of(u)).task_state) implies {
            &&& (b.tcb_of(u).tick_wheel_slot as int) < CFG_TICK_WHEEL_SIZE as int
            &&& b.wheel(b.tcb_of(u).tick_wheel_slot as int).contains(u)
        } by {
            assert(u != t);
            assert(is_wheel_state(a.tcb_of(u).task_state));
        }
        assert forall|u: usize|
            b.is_tid(u) && is_pending_state((#[trigger] b.tcb_of(u)).task_state) implies {
            &&& b.tcb_of(u).pend_obj matches Some(q)
            &&& (b.tcb_of(u).pend_obj matches Some(q) ==> (q as int) < b.n_qs() && pend_has_task(
                b.pq(q as int),
                u,
            ))
        } by {
            assert(u != t);
            assert(is_pending_state(a.tcb_of(u).task_state));
        }
        assert(b.lists_no_dup()) by {
            assert forall|p2: int| 0 <= p2 < CFG_PRIO_MAX as int implies (
            #[trigger] b.rdy(p2)).no_duplicates() by {
                if p2 == po {
                } else if p2 == pn {
                    assert(!a.rdy(pn).contains(t));
                } else {
                    assert(b.rdy(p2) == a.rdy(p2));
                }
            }
            assert forall|s: int| 0 <= s < CFG_TICK_WHEEL_SIZE as int implies (
            #[trigger] b.wheel(s)).no_duplicates() by {
                assert(b.wheel(s) == a.wheel(s));
            }
            assert forall|q: int|
                0 <= q < b.n_qs() implies pend_tasks_unique(#[trigger] b.pq(q)) && pend_sorted(
                b.pq(q),
            ) by {
                assert(b.pq(q) == a.pq(q));
            }
        }
        assert(b.bitmap_ok()) by {
            assert forall|p2: int|
                0 <= p2 < CFG_PRIO_MAX as int implies (b.sched.prio_tbl.spec_is_set(p2) <==> (
            #[trigger] b.rdy(p2)).len() != 0) by {
                if p2 != po && p2 != pn {
                    assert(b.rdy(p2) == a.rdy(p2));
                }
            }
        }
    }
}

/// What one run of the scheduler does to the CPU registers and the
/// switch request, given the kernel state `a` it ran on: the highest
/// ready priority's head task becomes the switch target, and a switch
/// is requested when it is not the running task.
pub open spec fn sched_outcome_from(cpu0: CpuState, ctx0: bool, b: Kernel) -> bool {
    let p = b.sched.prio_tbl.spec_highest();
    if b.rdy(p).len() > 0 {
        &&& b.cpu == (CpuState {
            prio_high_rdy: p as u8,
            tcb_high_rdy: Some(b.rdy(p)[0]),
            ..cpu0
        })
        &&& b.ctx_sw_pending == (ctx0 || Some(b.rdy(p)[0]) != cpu0.tcb_cur)
    } else {
        &&& b.cpu == cpu0
        &&& b.ctx_sw_pending == ctx0
    }
}

/// Main scheduling point: find the highest-priority ready task,
/// record it as the switch target, and request a context switch if it
/// differs from the running task. A no-op when the kernel is not
/// running, when called from ISR context, or while the scheduler is
/// locked.
pub fn os_sched(k: &mut Kernel)
    requires
        old(k).inv(),
    ensures
        final(k).inv(),
        (!old(k).flags.running || old(k).flags.int_nesting > 0 || old(k).flags.sched_lock_nesting
            > 0) ==> *final(k) == *old(k),
        (old(k).flags.running && old(k).flags.int_nesting == 0 && old(k).flags.sched_lock_nesting
            == 0) ==> {
            let p = old(k).sched.prio_tbl.spec_highest();
            if old(k).rdy(p).len() > 0 {
                let h = old(k).rdy(p)[0];
                &&& final(k).cpu == (CpuState {
                    prio_high_rdy: p as u8,
                    tcb_high_rdy: Some(h),
                    ..old(k).cpu
                })
                &&& final(k).ctx_sw_pending == (old(k).ctx_sw_pending || Some(h) != old(k).cpu.tcb_cur)
                &&& final(k).flags == old(k).flags
                &&& final(k).sched == old(k).sched
                &&& final(k).tcbs == old(k).tcbs
                &&& final(k).pend_qs == old(k).pend_qs
            } else {
                *final(k) == *old(k)
            }
        },
{
    if !k.flags.is_running() {
        return ;
    }
    if k.flags.int_nesting() > 0 {
        return ;
    }
    if k.flags.sched_lock_nesting() > 0 {
        return ;
    }
    let high_prio = k.sched.prio_tbl.get_highest();
    let head = k.sched.rdy_list[high_prio as usize].head();
    match head {
        Some(h) => {
            proof {
                assert(old(k).rdy_member_ok(high_prio as int, 0));
            }
            k.cpu.set_prio_high_rdy(high_prio);
            k.cpu.set_tcb_high_rdy(Some(h));
            let cur = k.cpu.tcb_cur_ptr();
            let same = match cur {
                Some(c) => c == h,
                None => false,
            };
            if !same {
                port::os_ctx_sw(k);
            }
            proof {
                Kernel::lemma_inv_ctl_change(*old(k), *k);
            }
        },
        None => {},
    }
}

/// Round-robin time slicing among equal-priority ready tasks: charge
/// the running task one quantum; when its quanta are used up, reload
/// them and, if other tasks are ready at its priority, rotate it to
/// the tail of its ready list and request a switch to the new head.
pub fn os_sched_round_robin(k: &mut Kernel)
    requires
        old(k).inv(),
    ensures
        final(k).inv(),
        (!CFG_SCHED_ROUND_ROBIN_EN || !old(k).flags.running || old(k).flags.sched_lock_nesting > 0
            || old(k).cpu.tcb_cur is None) ==> *final(k) == *old(k),
        (CFG_SCHED_ROUND_ROBIN_EN && old(k).flags.running && old(k).flags.sched_lock_nesting == 0)
            ==> (old(k).cpu.tcb_cur matches Some(c) ==> {
            let q0 = old(k).tcb_of(c).time_quanta_ctr;
            let q1: u32 = if q0 > 0 {
                (q0 - 1) as u32
            } else {
                0u32
            };
            if q1 != 0 {
                &&& final(k).tcbs@ == old(k).tcbs@.update(
                    c as int,
                    (OsTcb { time_quanta_ctr: q1, ..old(k).tcb_of(c) }),
                )
                &&& final(k).sched == old(k).sched
                &&& final(k).cpu == old(k).cpu
                &&& final(k).flags == old(k).flags
                &&& final(k).pend_qs == old(k).pend_qs
                &&& final(k).ctx_sw_pending == old(k).ctx_sw_pending
            } else {
                let p = old(k).tcb_of(c).prio as int;
                &&& final(k).tcbs@ == old(k).tcbs@.update(
                    c as int,
                    (OsTcb { time_quanta_ctr: old(k).tcb_of(c).time_quanta, ..old(k).tcb_of(c) }),
                )
                &&& final(k).flags == old(k).flags
                &&& final(k).pend_qs == old(k).pend_qs
                &&& (if old(k).tcb_of(c).task_state == OsTaskState::Ready && old(k).rdy(p).len()
                    > 1 {
                    &&& final(k).rdy(p) == old(k).rdy(p).remove_value(c).push(c)
                    &&& rdy_unchanged_except(*old(k), *final(k), p)
                    &&& final(k).sched.tick_wheel == old(k).sched.tick_wheel
                    &&& final(k).sched.prio_tbl == old(k).sched.prio_tbl
                    &&& final(k).cpu == (CpuState {
                        tcb_high_rdy: Some(final(k).rdy(p)[0]),
                        ..old(k).cpu
                    })
                    &&& final(k).ctx_sw_pending
                } else {
                    &&& final(k).sched == old(k).sched
                    &&& final(k).cpu == old(k).cpu
                    &&& final(k).ctx_sw_pending == old(k).ctx_sw_pending
                })
            }
        }),
{
    if !CFG_SCHED_ROUND_ROBIN_EN {
        return ;
    }
    if !k.flags.is_running() {
        return ;
    }
    if k.flags.sched_lock_nesting() > 0 {
        return ;
    }
    let cur_opt = k.cpu.tcb_cur_ptr();
    let c = match cur_opt {
        Some(c) => c,
        None => {
            return ;
        },
    };
    let mut tcb = k.tcbs[c];
    if tcb.time_quanta_ctr > 0 {
        tcb.time_quanta_ctr = tcb.time_quanta_ctr - 1;
    }
    if tcb.time_quanta_ctr != 0 {
        k.tcbs[c] = tcb;
        proof {
            lemma_rr_tcb_update(*old(k), *k, c);
        }
        return ;
    }
    tcb.time_quanta_ctr = tcb.time_quanta;
    k.tcbs[c] = tcb;
    proof {
        lemma_rr_tcb_update(*old(k), *k, c);
    }
    let ghost mid = *k;
    proof {
        assert(mid.tcb_fields_ok(c));
    }
    let prio = k.tcbs[c].prio;
    let is_ready = k.tcbs[c].is_ready();
    if is_ready && k.sched.rdy_list[prio as usize].count() > 1 {
        proof {
            assert(mid.rdy(prio as int).contains(c));
            lemma_remove_value_effect(mid.rdy(prio as int), c);
            lemma_push_effect(mid.rdy(prio as int).remove_value(c), c);
        }
        k.sched.rdy_list[prio as usize].remove(c);
        k.sched.rdy_list[prio as usize].insert_tail(c);
        proof {
            lemma_rotation_inv(mid, *k, c);
        }
        let ghost rot = *k;
        let new_head = k.sched.rdy_list[prio as usize].head();
        match new_head {
            Some(h) => {
                proof {
                    assert(rot.rdy_member_ok(prio as int, 0));
                }
                k.cpu.set_tcb_high_rdy(Some(h));
            },
            None => {},
        }
        port::os_ctx_sw(k);
        proof {
            Kernel::lemma_inv_ctl_change(rot, *k);
            assert(final(k).rdy(prio as int) == old(k).rdy(prio as int).remove_value(c).push(c));
        }
    }
}

// Charging or reloading the running task's quanta only rewrites one
// counter field; the kernel invariant carries over unchanged.
proof fn lemma_rr_tcb_update(a: Kernel, b: Kernel, c: usize)
    requires
        a.inv(),
        a.is_tid(c),
        b.sched == a.sched,
        b.pend_qs == a.pend_qs,
        b.cpu == a.cpu,
        b.tcbs@ == a.tcbs@.update(c as int, b.tcb_of(c)),
        b.tcb_of(c) == (OsTcb { time_quanta_ctr: b.tcb_of(c).time_quanta_ctr, ..a.tcb_of(c) }),
    ensures
        b.inv(),
{
    assert(a.tcb_fields_ok(c));
    if is_wheel_state(a.tcb_of(c).task_state) {
        let s = a.tcb_of(c).tick_wheel_slot as int;
        assert(a.wheel(s).contains(c));
        let i = choose|i: int| 0 <= i < a.wheel(s).len() && a.wheel(s)[i] == c;
        assert(a.wheel_member_ok(s, i));
    }
    Kernel::lemma_inv_tcb_field_change(a, b, c);
}

// Rotating the running task from the head region of its ready list to
// its tail keeps the set of queued tasks, so the invariant holds.
proof fn lemma_rotation_inv(a: Kernel, b: Kernel, c: usize)
    requires
        a.inv(),
        a.is_tid(c),
        a.tcb_of(c).task_state == OsTaskState::Ready,
        b.tcbs == a.tcbs,
        b.pend_qs == a.pend_qs,
        b.cpu == a.cpu,
        b.sched.prio_tbl == a.sched.prio_tbl,
        b.sched.tick_wheel == a.sched.tick_wheel,
        b.sched.rdy_list@.len() == a.sched.rdy_list@.len(),
        b.rdy(a.tcb_of(c).prio as int) == a.rdy(a.tcb_of(c).prio as int).remove_value(c).push(c),
        forall|p2: int|
            0 <= p2 < CFG_PRIO_MAX as int && p2 != a.tcb_of(c).prio as int ==> b.rdy(p2) == a.rdy(
                p2,
            ),
    ensures
        b.inv(),
{
    let p = a.tcb_of(c).prio as int;
    assert(a.tcb_fields_ok(c));
    assert(a.rdy(p).contains(c));
    lemma_remove_value_effect(a.rdy(p), c);
    lemma_push_effect(a.rdy(p).remove_value(c), c);
    assert forall|x: usize| b.rdy(p).contains(x) <==> a.rdy(p).contains(x) by {}
    assert forall|u: usize| b.is_tid(u) implies #[trigger] b.tcb_fields_ok(u) by {
        assert(a.tcb_fields_ok(u));
    }
    assert forall|p2: int, i: int|
        0 <= p2 < CFG_PRIO_MAX as int && 0 <= i < b.rdy(p2).len() implies b.rdy_member_ok(
        p2,
        i,
    ) by {
        if p2 == p {
            let u = b.rdy(p)[i];
            assert(b.rdy(p).contains(u));
            assert(a.rdy(p).contains(u));
            let j = choose|j: int| 0 <= j < a.rdy(p).len() && a.rdy(p)[j] == u;
            assert(a.rdy_member_ok(p, j));
        } else {
            assert(b.rdy(p2) == a.rdy(p2));
            assert(a.rdy(p2)[i] == b.rdy(p2)[i]);
            assert(a.rdy_member_ok(p2, i));
        }
    }
    assert forall|s: int, i: int|
        0 <= s < CFG_TICK_WHEEL_SIZE as int && 0 <= i < b.wheel(s).len()
        implies b.wheel_member_ok(s, i) by {
        assert(a.wheel(s)[i] == b.wheel(s)[i]);
        assert(a.wheel_member_ok(s, i));
    }
    assert forall|q: int, i: int|
        0 <= q < b.n_qs() && 0 <= i < b.pq(q).len() implies b.pq_member_ok(q, i) by {
        assert(a.pq(q)[i] == b.pq(q)[i]);
        assert(a.pq_member_ok(q, i));
    }
    assert forall|u: usize|
        b.is_tid(u) && (#[trigger] b.tcb_of(u)).task_state == OsTaskState::Ready implies b.rdy(
        b.tcb_of(u).prio as int,
    ).contains(u) by {
        assert(a.tcb_of(u).task_state == OsTaskState::Ready);
        assert(a.tcb_fields_ok(u));
        let pu = a.tcb_of(u).prio as int;
        assert(a.rdy(pu).contains(u));
        if pu == p {
            assert(b.rdy(p).contains(u));
        } else {
            assert(b.rdy(pu) == a.rdy(pu));
        }
    }
    assert forall|u: usize|
        b.is_tid(u) && is_wheel_state((#[trigger] b.tcb_of(u)).task_state) implies {
        &&& (b.tcb_of(u).tick_wheel_slot as int) < CFG_TICK_WHEEL_SIZE as int
        &&& b.wheel(b.tcb_of(u).tick_wheel_slot as int).contains(u)
    } by {
        assert(is_wheel_state(a.tcb_of(u).task_state));
    }
    assert forall|u: usize|
        b.is_tid(u) && is_pending_state((#[trigger] b.tcb_of(u)).task_state) implies {
        &&& b.tcb_of(u).pend_obj matches Some(q)
        &&& (b.tcb_of(u).pend_obj matches Some(q) ==> (q as int) < b.n_qs() && pend_has_task(
            b.pq(q as int),
            u,
        ))
    } by {
        assert(is_pending_state(a.tcb_of(u).task_state));
    }
    assert(b.lists_no_dup()) by {
        assert forall|p2: int| 0 <= p2 < CFG_PRIO_MAX as int implies (
        #[trigger] b.rdy(p2)).no_duplicates() by {
            if p2 != p {
                assert(b.rdy(p2) == a.rdy(p2));
            }
        }
        assert forall|s: int| 0 <= s < CFG_TICK_WHEEL_SIZE as int implies (
        #[trigger] b.wheel(s)).no_duplicates() by {
            assert(b.wheel(s) == a.wheel(s));
        }
        assert forall|q: int|
            0 <= q < b.n_qs() implies pend_tasks_unique(#[trigger] b.pq(q)) && pend_sorted(
            b.pq(q),
        ) by {
            assert(b.pq(q) == a.pq(q));
        }
    }
    assert(b.bitmap_ok()) by {
        assert forall|p2: int|
            0 <= p2 < CFG_PRIO_MAX as int implies (b.sched.prio_tbl.spec_is_set(p2) <==> (
        #[trigger] b.rdy(p2)).len() != 0) by {
            if p2 != p {
                assert(b.rdy(p2) == a.rdy(p2));
            }
        }
    }
}

} // verus!
