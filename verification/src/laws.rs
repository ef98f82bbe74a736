//! Stated and proved properties of the kernel's data structures that
//! span more than one operation.

use vstd::prelude::*;

use crate::config::CFG_TICK_WHEEL_SIZE;
use crate::kernel::Kernel;
use crate::mutex::OsMutex;
use crate::mutex::mutex_acquired;
use crate::mutex::mutex_released;
use crate::mutex::restored_tcb;
use crate::sem::OsSem;
use crate::sem::pend_sorted;
use crate::sem::sem_given;
use crate::sem::sem_taken;
use crate::seq_lemmas::lemma_push_effect;

verus! {

/// Queueing a task at the tail of a ready list and then removing that
/// task leaves the list exactly as it was.
pub proof fn lemma_insert_tail_then_remove(s: Seq<usize>, t: usize)
    requires
        !s.contains(t),
    ensures
        s.push(t).remove_value(t) == s,
{
    lemma_push_effect(s, t);
    let p = s.push(t);
    p.index_of_first_ensures(t);
    match p.index_of_first(t) {
        Some(i) => {
            assert(p[i] == t);
            assert(i == s.len() as int);
            assert(p.remove(i) =~= s);
        },
        None => {
            assert(p[s.len() as int] == t);
        },
    }
}

/// Taking an available semaphore and posting it back with no waiter
/// restores the count, and so does posting first and taking after:
/// repeated alternation preserves the count.
pub proof fn lemma_sem_pend_post_counts(s1: OsSem, s2: OsSem, s3: OsSem)
    ensures
        sem_taken(s1, s2) && sem_given(s2, s3) ==> s3.count == s1.count,
        sem_given(s1, s2) && sem_taken(s2, s3) ==> s3.count == s1.count,
        sem_taken(s1, s2) ==> s2.count == s1.count - 1,
        sem_given(s1, s2) ==> s2.count == s1.count + 1,
{
}

/// Acquiring a free mutex and then releasing it completely, with no
/// waiter queued, returns the mutex to unowned at nesting zero, and
/// the release returns the owner to its base priority.
pub proof fn lemma_mutex_pend_post_restores(
    m1: OsMutex,
    m2: OsMutex,
    m3: OsMutex,
    c: usize,
    k2: Kernel,
    k3: Kernel,
)
    requires
        mutex_acquired(m1, m2, c),
        mutex_released(m2, m3),
        k2.is_tid(c),
        k3.tcbs@ == k2.tcbs@.update(c as int, restored_tcb(k2.tcb_of(c))),
    ensures
        m3.owner is None,
        m3.nesting_ctr == 0,
        m3 == (OsMutex { owner: None, nesting_ctr: 0, ..m1 }),
        k3.tcb_of(c).prio == k2.tcb_of(c).base_prio,
{
}

/// A kernel satisfying the invariant keeps the priority bitmap in step
/// with the ready lists: bit `p` is set exactly when ready list `p` is
/// non-empty.
pub proof fn lemma_bitmap_matches_ready(k: Kernel, p: int)
    requires
        k.inv(),
        0 <= p < crate::config::CFG_PRIO_MAX as int,
    ensures
        k.sched.prio_tbl.spec_is_set(p) <==> k.rdy(p).len() != 0,
{
}

/// A kernel satisfying the invariant keeps every pend queue in
/// non-decreasing priority order from head to tail.
pub proof fn lemma_pend_queue_sorted(k: Kernel, q: int)
    requires
        k.inv(),
        0 <= q < k.n_qs(),
    ensures
        pend_sorted(k.pq(q)),
{
}

/// An expiry tick computed with wrapping arithmetic hashes to the same
/// wheel slot as the unwrapped sum: the wheel size divides the
/// tick-counter modulus, so delays across the counter wrap-around
/// land where an exact sum would.
pub proof fn lemma_wrap_expiry_slot(now: u32, d: u32)
    ensures
        (now.wrapping_add(d) as int) % (CFG_TICK_WHEEL_SIZE as int) == ((now as int) + (d as int))
            % (CFG_TICK_WHEEL_SIZE as int),
{
    let x = (now as int) + (d as int);
    if x <= u32::MAX as int {
        assert(now.wrapping_add(d) == x);
    } else {
        assert(now.wrapping_add(d) == x - 0x1_0000_0000);
        let w = x - 0x1_0000_0000;
        vstd::arithmetic::div_mod::lemma_mod_multiples_vanish(
            0x1000_0000,
            w,
            CFG_TICK_WHEEL_SIZE as int,
        );
        assert((CFG_TICK_WHEEL_SIZE as int) * 0x1000_0000 + w == x);
    }
}

/// Number of visits the tick wheel makes to a waiting task's slot
/// before promoting it, for a delay of `d` ticks: each visit either
/// promotes the task (residual delay within one revolution) or
/// charges one full revolution, as the tick scan's contract states.
pub open spec fn wheel_visits(d: int) -> int
    decreases d,
{
    if d <= CFG_TICK_WHEEL_SIZE as int {
        1
    } else {
        1 + wheel_visits(d - CFG_TICK_WHEEL_SIZE as int)
    }
}

/// A delay longer than one wheel revolution takes exactly the
/// round-up of `d` over the wheel size many visits to its slot before
/// the task is promoted.
pub proof fn lemma_wheel_visits_ceil(d: int)
    requires
        d >= 1,
    ensures
        wheel_visits(d) == (d + CFG_TICK_WHEEL_SIZE as int - 1) / (CFG_TICK_WHEEL_SIZE as int),
    decreases d,
{
    let w = CFG_TICK_WHEEL_SIZE as int;
    if d <= w {
        assert((d + w - 1) / w == 1);
    } else {
        lemma_wheel_visits_ceil(d - w);
        assert((d + w - 1) / w == 1 + (d - 1) / w) by {
            vstd::arithmetic::div_mod::lemma_div_plus_one(d - 1, w);
        }
    }
}

} // verus!
