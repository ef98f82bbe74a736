//! Global kernel state: scheduler flags, priority table, ready lists,
//! tick wheel, pend queues and the TCB table, together with the
//! structural invariant that ties them together.
//!
//! Tasks are identified by their index in the TCB table. Pend queues of
//! kernel objects (semaphores, mutexes) are identified by their index
//! in the pend-queue table; a blocked task's `pend_obj` field holds
//! that index.

use vstd::prelude::*;

use crate::config::CFG_PRIO_MAX;
use crate::config::CFG_TICK_WHEEL_SIZE;
use crate::error::OsError;
use crate::error::OsResult;
use crate::prio::PrioTable;
use crate::rdy_list::ReadyList;
use crate::sem::PendEntry;
use crate::sem::PendList;
use crate::sem::pend_has_task;
use crate::sem::pend_sorted;
use crate::sem::pend_tasks_unique;
use crate::tcb::OsTcb;
use crate::tcb::is_pending_state;
use crate::tcb::is_wheel_state;
use crate::types::OsNestingCtr;
use crate::types::OsPrio;
use crate::types::OsTaskState;
use crate::types::OsTick;

verus! {

/// Kernel status flags and counters
#[derive(Debug, Clone, Copy, PartialEq, Eq, Structural)]
pub struct KernelFlags {
    pub initialized: bool,
    pub running: bool,
    pub int_nesting: OsNestingCtr,
    pub sched_lock_nesting: OsNestingCtr,
    pub tick_counter: OsTick,
}

impl KernelFlags {
    pub fn new() -> (r: Self)
        ensures
            r == KernelFlags::spec_default(),
    {
        KernelFlags {
            initialized: false,
            running: false,
            int_nesting: 0,
            sched_lock_nesting: 0,
            tick_counter: 0,
        }
    }

    /// The flag values of a freshly reset kernel
    pub open spec fn spec_default() -> KernelFlags {
        KernelFlags {
            initialized: false,
            running: false,
            int_nesting: 0,
            sched_lock_nesting: 0,
            tick_counter: 0,
        }
    }

    pub fn reset(&mut self)
        ensures
            *final(self) == KernelFlags::spec_default(),
    {
        *self = Self::new();
    }

    /// Check if the kernel is running
    #[inline]
    pub fn is_running(&self) -> (r: bool)
        ensures
            r == self.running,
    {
        self.running
    }

    /// Check if the kernel is initialized
    #[inline]
    pub fn is_initialized(&self) -> (r: bool)
        ensures
            r == self.initialized,
    {
        self.initialized
    }

    /// Get current tick count
    #[inline]
    pub fn tick_get(&self) -> (r: OsTick)
        ensures
            r == self.tick_counter,
    {
        self.tick_counter
    }

    /// Get interrupt nesting level
    #[inline]
    pub fn int_nesting(&self) -> (r: OsNestingCtr)
        ensures
            r == self.int_nesting,
    {
        self.int_nesting
    }

    /// Get scheduler lock nesting level
    #[inline]
    pub fn sched_lock_nesting(&self) -> (r: OsNestingCtr)
        ensures
            r == self.sched_lock_nesting,
    {
        self.sched_lock_nesting
    }

    /// Advance and return the tick counter; wraps at the integer limit
    pub fn tick_increment(&mut self) -> (r: OsTick)
        ensures
            final(self).tick_counter == old(self).tick_counter.wrapping_add(1),
            r == final(self).tick_counter,
            *final(self) == (KernelFlags {
                tick_counter: final(self).tick_counter,
                ..*old(self)
            }),
    {
        self.tick_counter = self.tick_counter.wrapping_add(1);
        self.tick_counter
    }

    /// Note ISR entry while running; the nesting counter saturates
    pub fn int_enter(&mut self)
        ensures
            final(self).int_nesting == (if old(self).running {
                if old(self).int_nesting == 255 {
                    255u8
                } else {
                    (old(self).int_nesting + 1) as u8
                }
            } else {
                old(self).int_nesting
            }),
            *final(self) == (KernelFlags { int_nesting: final(self).int_nesting, ..*old(self) }),
    {
        if self.running {
            if self.int_nesting != 255 {
                self.int_nesting = self.int_nesting + 1;
            }
        }
    }

    /// Set the initialized flag
    #[inline]
    pub fn set_initialized(&mut self, val: bool)
        ensures
            *final(self) == (KernelFlags { initialized: val, ..*old(self) }),
    {
        self.initialized = val;
    }

    /// Set the running flag
    #[inline]
    pub fn set_running(&mut self, val: bool)
        ensures
            *final(self) == (KernelFlags { running: val, ..*old(self) }),
    {
        self.running = val;
    }

    /// Decrement the ISR nesting counter, saturating at zero, and
    /// return the new value
    pub fn int_nesting_dec(&mut self) -> (r: OsNestingCtr)
        ensures
            final(self).int_nesting == (if old(self).int_nesting > 0 {
                (old(self).int_nesting - 1) as u8
            } else {
                0u8
            }),
            r == final(self).int_nesting,
            *final(self) == (KernelFlags { int_nesting: final(self).int_nesting, ..*old(self) }),
    {
        if self.int_nesting > 0 {
            self.int_nesting = self.int_nesting - 1;
        }
        self.int_nesting
    }

    /// Raise the scheduler lock nesting; fails when the counter is full
    pub fn try_sched_lock(&mut self) -> (r: OsResult<()>)
        ensures
            old(self).sched_lock_nesting == 255 ==> r == Err::<(), OsError>(
                OsError::LockNestingOvf,
            ) && *final(self) == *old(self),
            old(self).sched_lock_nesting < 255 ==> r == Ok::<(), OsError>(()) && *final(self) == (
            KernelFlags {
                sched_lock_nesting: (old(self).sched_lock_nesting + 1) as u8,
                ..*old(self)
            }),
    {
        if self.sched_lock_nesting == 255 {
            return Err(OsError::LockNestingOvf);
        }
        self.sched_lock_nesting = self.sched_lock_nesting + 1;
        Ok(())
    }

    /// Lower the scheduler lock nesting; fails when it is not locked
    pub fn try_sched_unlock(&mut self) -> (r: OsResult<OsNestingCtr>)
        ensures
            old(self).sched_lock_nesting == 0 ==> r == Err::<OsNestingCtr, OsError>(
                OsError::SchedNotLocked,
            ) && *final(self) == *old(self),
            old(self).sched_lock_nesting > 0 ==> r == Ok::<OsNestingCtr, OsError>(
                (old(self).sched_lock_nesting - 1) as u8,
            ) && *final(self) == (KernelFlags {
                sched_lock_nesting: (old(self).sched_lock_nesting - 1) as u8,
                ..*old(self)
            }),
    {
        if self.sched_lock_nesting == 0 {
            return Err(OsError::SchedNotLocked);
        }
        self.sched_lock_nesting = self.sched_lock_nesting - 1;
        Ok(self.sched_lock_nesting)
    }
}

/// Scheduler data structures: priority table, per-priority ready
/// lists, and the hashed tick wheel
pub struct SchedState {
    pub prio_tbl: PrioTable,
    pub rdy_list: Vec<ReadyList>,
    pub tick_wheel: Vec<ReadyList>,
}

impl SchedState {
    /// Lengths of the tables match the configuration
    pub open spec fn wf(self) -> bool {
        &&& self.prio_tbl.wf()
        &&& self.rdy_list@.len() == CFG_PRIO_MAX as int
        &&& self.tick_wheel@.len() == CFG_TICK_WHEEL_SIZE as int
    }

    pub fn new() -> (r: Self)
        ensures
            r.wf(),
            forall|q: int| !r.prio_tbl.spec_is_set(q),
            forall|p: int| 0 <= p < CFG_PRIO_MAX as int ==> (#[trigger] r.rdy_list@[p])@.len()
                == 0,
            forall|s: int|
                0 <= s < CFG_TICK_WHEEL_SIZE as int ==> (#[trigger] r.tick_wheel@[s])@.len() == 0,
    {
        let prio_tbl = PrioTable::new();
        let mut rdy_list: Vec<ReadyList> = Vec::new();
        while rdy_list.len() < CFG_PRIO_MAX
            invariant
                rdy_list@.len() <= CFG_PRIO_MAX as int,
                forall|p: int| 0 <= p < rdy_list@.len() ==> (#[trigger] rdy_list@[p])@.len() == 0,
            decreases CFG_PRIO_MAX - rdy_list.len(),
        {
            rdy_list.push(ReadyList::new());
        }
        let mut tick_wheel: Vec<ReadyList> = Vec::new();
        while tick_wheel.len() < CFG_TICK_WHEEL_SIZE
            invariant
                tick_wheel@.len() <= CFG_TICK_WHEEL_SIZE as int,
                forall|s: int| 0 <= s < tick_wheel@.len() ==> (#[trigger] tick_wheel@[s])@.len()
                    == 0,
            decreases CFG_TICK_WHEEL_SIZE - tick_wheel.len(),
        {
            tick_wheel.push(ReadyList::new());
        }
        SchedState { prio_tbl, rdy_list, tick_wheel }
    }

    pub fn reset(&mut self)
        ensures
            final(self).wf(),
            forall|q: int| !final(self).prio_tbl.spec_is_set(q),
            forall|p: int|
                0 <= p < CFG_PRIO_MAX as int ==> (#[trigger] final(self).rdy_list@[p])@.len() == 0,
            forall|s: int|
                0 <= s < CFG_TICK_WHEEL_SIZE as int
                    ==> (#[trigger] final(self).tick_wheel@[s])@.len() == 0,
    {
        *self = Self::new();
    }

    /// The priority table
    #[inline]
    pub fn prio_table(&self) -> (r: &PrioTable)
        ensures
            *r == self.prio_tbl,
    {
        &self.prio_tbl
    }

    /// The ready list for one priority
    #[inline]
    pub fn rdy_list(&self, prio: OsPrio) -> (r: &ReadyList)
        requires
            self.wf(),
            (prio as int) < CFG_PRIO_MAX as int,
        ensures
            *r == self.rdy_list@[prio as int],
    {
        &self.rdy_list[prio as usize]
    }

    /// Head of the tick wheel at the given slot
    #[inline]
    pub fn tick_wheel_head(&self, slot: usize) -> (r: Option<usize>)
        requires
            self.wf(),
            (slot as int) < CFG_TICK_WHEEL_SIZE as int,
        ensures
            r == (if self.tick_wheel@[slot as int]@.len() == 0 {
                Option::<usize>::None
            } else {
                Option::Some(self.tick_wheel@[slot as int]@[0])
            }),
    {
        self.tick_wheel[slot].head()
    }

    /// Add a task to the tick wheel slot its expiry tick hashes to,
    /// at the head of the slot's list; returns the slot
    pub fn tick_wheel_insert(&mut self, t: usize, expiry_tick: OsTick) -> (slot: u8)
        requires
            old(self).wf(),
        ensures
            final(self).wf(),
            slot as int == (expiry_tick as int) % (CFG_TICK_WHEEL_SIZE as int),
            final(self).tick_wheel@[slot as int]@ == old(self).tick_wheel@[slot as int]@.insert(
                0,
                t,
            ),
            forall|s2: int|
                0 <= s2 < CFG_TICK_WHEEL_SIZE as int && s2 != slot as int ==> final(self).tick_wheel@[s2] == old(self).tick_wheel@[s2],
            final(self).prio_tbl == old(self).prio_tbl,
            final(self).rdy_list == old(self).rdy_list,
    {
        let slot: usize = (expiry_tick as usize) % CFG_TICK_WHEEL_SIZE;
        self.tick_wheel[slot].insert_head(t);
        slot as u8
    }

    /// Remove a task from the given tick wheel slot
    pub fn tick_wheel_remove(&mut self, t: usize, slot: u8)
        requires
            old(self).wf(),
            (slot as int) < CFG_TICK_WHEEL_SIZE as int,
        ensures
            final(self).wf(),
            final(self).tick_wheel@[slot as int]@ == old(self).tick_wheel@[slot as
                int]@.remove_value(t),
            forall|s2: int|
                0 <= s2 < CFG_TICK_WHEEL_SIZE as int && s2 != slot as int ==> final(self).tick_wheel@[s2] == old(self).tick_wheel@[s2],
            final(self).prio_tbl == old(self).prio_tbl,
            final(self).rdy_list == old(self).rdy_list,
    {
        self.tick_wheel[slot as usize].remove(t);
    }
}

/// CPU context-switch bookkeeping
#[derive(Debug, Clone, Copy, PartialEq, Eq, Structural)]
pub struct CpuState {
    /// Currently running task
    pub tcb_cur: Option<usize>,
    /// Target of the next context switch
    pub tcb_high_rdy: Option<usize>,
    /// Priority of the running task
    pub prio_cur: OsPrio,
    /// Highest ready priority found by the scheduler
    pub prio_high_rdy: OsPrio,
    /// Exception stack base
    pub except_stk_base: usize,
}

impl CpuState {
    pub fn new() -> (r: Self)
        ensures
            r == CpuState::spec_default(),
    {
        CpuState {
            tcb_cur: None,
            tcb_high_rdy: None,
            prio_cur: 0,
            prio_high_rdy: 0,
            except_stk_base: 0,
        }
    }

    /// The reset CPU state
    pub open spec fn spec_default() -> CpuState {
        CpuState {
            tcb_cur: None,
            tcb_high_rdy: None,
            prio_cur: 0,
            prio_high_rdy: 0,
            except_stk_base: 0,
        }
    }

    pub fn reset(&mut self)
        ensures
            *final(self) == (CpuState { except_stk_base: old(self).except_stk_base, ..CpuState::spec_default() }),
    {
        self.tcb_cur = None;
        self.tcb_high_rdy = None;
        self.prio_cur = 0;
        self.prio_high_rdy = 0;
    }

    /// Get the current task
    #[inline]
    pub fn tcb_cur_ptr(&self) -> (r: Option<usize>)
        ensures
            r == self.tcb_cur,
    {
        self.tcb_cur
    }

    /// Set the current task
    #[inline]
    pub fn set_tcb_cur(&mut self, t: Option<usize>)
        ensures
            *final(self) == (CpuState { tcb_cur: t, ..*old(self) }),
    {
        self.tcb_cur = t;
    }

    /// Get the next-switch target task
    #[inline]
    pub fn tcb_high_rdy_ptr(&self) -> (r: Option<usize>)
        ensures
            r == self.tcb_high_rdy,
    {
        self.tcb_high_rdy
    }

    /// Set the next-switch target task
    #[inline]
    pub fn set_tcb_high_rdy(&mut self, t: Option<usize>)
        ensures
            *final(self) == (CpuState { tcb_high_rdy: t, ..*old(self) }),
    {
        self.tcb_high_rdy = t;
    }

    /// Get the running priority
    #[inline]
    pub fn get_prio_cur(&self) -> (r: OsPrio)
        ensures
            r == self.prio_cur,
    {
        self.prio_cur
    }

    /// Set the running priority
    #[inline]
    pub fn set_prio_cur(&mut self, prio: OsPrio)
        ensures
            *final(self) == (CpuState { prio_cur: prio, ..*old(self) }),
    {
        self.prio_cur = prio;
    }

    /// Get the highest ready priority
    #[inline]
    pub fn get_prio_high_rdy(&self) -> (r: OsPrio)
        ensures
            r == self.prio_high_rdy,
    {
        self.prio_high_rdy
    }

    /// Set the highest ready priority
    #[inline]
    pub fn set_prio_high_rdy(&mut self, prio: OsPrio)
        ensures
            *final(self) == (CpuState { prio_high_rdy: prio, ..*old(self) }),
    {
        self.prio_high_rdy = prio;
    }
}

/// The whole kernel state record
pub struct Kernel {
    pub flags: KernelFlags,
    pub sched: SchedState,
    pub cpu: CpuState,
    /// Task control blocks; a task id is an index into this table
    pub tcbs: Vec<OsTcb>,
    /// Pend queues of kernel objects; an object id is an index here
    pub pend_qs: Vec<PendList>,
    /// A context switch has been requested from the port
    pub ctx_sw_pending: bool,
    /// The critical section (interrupts disabled) is active
    pub in_critical: bool,
}

impl Kernel {
    pub open spec fn n_tasks(self) -> int {
        self.tcbs@.len() as int
    }

    pub open spec fn is_tid(self, t: usize) -> bool {
        (t as int) < self.tcbs@.len()
    }

    pub open spec fn tcb_of(self, t: usize) -> OsTcb {
        self.tcbs@[t as int]
    }

    /// The ready queue at one priority, as a sequence of task ids
    pub open spec fn rdy(self, p: int) -> Seq<usize> {
        self.sched.rdy_list@[p]@
    }

    /// One tick wheel slot, as a sequence of task ids
    pub open spec fn wheel(self, s: int) -> Seq<usize> {
        self.sched.tick_wheel@[s]@
    }

    /// One pend queue, as a sequence of waiter entries
    pub open spec fn pq(self, q: int) -> Seq<PendEntry> {
        self.pend_qs@[q]@
    }

    pub open spec fn n_qs(self) -> int {
        self.pend_qs@.len() as int
    }

    /// Basic field bounds of one TCB: priorities are in range, and the
    /// effective priority is never numerically above the base priority
    pub open spec fn tcb_fields_ok(self, t: usize) -> bool {
        let c = self.tcb_of(t);
        &&& (c.prio as int) < CFG_PRIO_MAX as int
        &&& (c.base_prio as int) < CFG_PRIO_MAX as int
        &&& c.prio <= c.base_prio
    }

    /// A ready list member is a valid Ready task queued at its own
    /// priority
    pub open spec fn rdy_member_ok(self, p: int, i: int) -> bool {
        let t = self.rdy(p)[i];
        &&& self.is_tid(t)
        &&& (self.tcb_of(t).prio as int) == p
        &&& self.tcb_of(t).task_state == OsTaskState::Ready
    }

    /// A tick wheel member is a valid waiting task hashed to its own
    /// slot with a positive residual delay
    pub open spec fn wheel_member_ok(self, s: int, i: int) -> bool {
        let t = self.wheel(s)[i];
        &&& self.is_tid(t)
        &&& (self.tcb_of(t).tick_wheel_slot as int) == s
        &&& is_wheel_state(self.tcb_of(t).task_state)
        &&& self.tcb_of(t).tick_remain > 0
    }

    /// A pend queue member is a valid pending task blocked on this
    /// very queue
    pub open spec fn pq_member_ok(self, q: int, i: int) -> bool {
        let e = self.pq(q)[i];
        &&& self.is_tid(e.task)
        &&& is_pending_state(self.tcb_of(e.task).task_state)
        &&& self.tcb_of(e.task).pend_obj == Some(q as usize)
    }

    pub open spec fn rdy_lists_ok(self) -> bool {
        forall|p: int, i: int|
            #![trigger self.rdy(p)[i]]
            0 <= p < CFG_PRIO_MAX as int && 0 <= i < self.rdy(p).len() ==> self.rdy_member_ok(p, i)
    }

    pub open spec fn wheel_lists_ok(self) -> bool {
        forall|s: int, i: int|
            #![trigger self.wheel(s)[i]]
            0 <= s < CFG_TICK_WHEEL_SIZE as int && 0 <= i < self.wheel(s).len()
                ==> self.wheel_member_ok(s, i)
    }

    pub open spec fn pq_lists_ok(self) -> bool {
        forall|q: int, i: int|
            #![trigger self.pq(q)[i]]
            0 <= q < self.n_qs() && 0 <= i < self.pq(q).len() ==> self.pq_member_ok(q, i)
    }

    /// Every Ready task sits in the ready list of its priority (I1)
    pub open spec fn ready_listed(self) -> bool {
        forall|t: usize|
            #![trigger self.tcb_of(t)]
            self.is_tid(t) && self.tcb_of(t).task_state == OsTaskState::Ready ==> self.rdy(
                self.tcb_of(t).prio as int,
            ).contains(t)
    }

    /// Every delayed or timed-out pending task sits in its wheel slot (I3)
    pub open spec fn wheel_listed(self) -> bool {
        forall|t: usize|
            #![trigger self.tcb_of(t)]
            self.is_tid(t) && is_wheel_state(self.tcb_of(t).task_state) ==> {
                &&& (self.tcb_of(t).tick_wheel_slot as int) < CFG_TICK_WHEEL_SIZE as int
                &&& self.wheel(self.tcb_of(t).tick_wheel_slot as int).contains(t)
            }
    }

    /// Every pending task sits in the pend queue of the object it
    /// blocks on (I2)
    pub open spec fn pend_listed(self) -> bool {
        forall|t: usize|
            #![trigger self.tcb_of(t)]
            self.is_tid(t) && is_pending_state(self.tcb_of(t).task_state) ==> {
                &&& self.tcb_of(t).pend_obj matches Some(q)
                &&& (self.tcb_of(t).pend_obj matches Some(q) ==> (q as int) < self.n_qs()
                    && pend_has_task(self.pq(q as int), t))
            }
    }

    /// No list holds a task twice; pend queues are priority-ordered
    pub open spec fn lists_no_dup(self) -> bool {
        &&& forall|p: int|
            0 <= p < CFG_PRIO_MAX as int ==> (#[trigger] self.rdy(p)).no_duplicates()
        &&& forall|s: int|
            0 <= s < CFG_TICK_WHEEL_SIZE as int ==> (#[trigger] self.wheel(s)).no_duplicates()
        &&& forall|q: int|
            0 <= q < self.n_qs() ==> pend_tasks_unique(#[trigger] self.pq(q)) && pend_sorted(
                self.pq(q),
            )
    }

    /// A priority's bitmap bit is set iff its ready list is non-empty (I4)
    pub open spec fn bitmap_ok(self) -> bool {
        forall|p: int|
            0 <= p < CFG_PRIO_MAX as int ==> (self.sched.prio_tbl.spec_is_set(p) <==> (
            #[trigger] self.rdy(p)).len() != 0)
    }

    /// The CPU registers reference valid tasks and priorities
    pub open spec fn cpu_ok(self) -> bool {
        &&& (self.cpu.tcb_cur matches Some(c) ==> self.is_tid(c))
        &&& (self.cpu.tcb_high_rdy matches Some(c) ==> self.is_tid(c))
        &&& (self.cpu.prio_cur as int) < CFG_PRIO_MAX as int
        &&& (self.cpu.prio_high_rdy as int) < CFG_PRIO_MAX as int
    }

    /// The kernel's structural invariant, preserved by every operation
    pub open spec fn inv(self) -> bool {
        &&& self.sched.wf()
        &&& forall|t: usize| self.is_tid(t) ==> #[trigger] self.tcb_fields_ok(t)
        &&& self.rdy_lists_ok()
        &&& self.wheel_lists_ok()
        &&& self.pq_lists_ok()
        &&& self.ready_listed()
        &&& self.wheel_listed()
        &&& self.pend_listed()
        &&& self.lists_no_dup()
        &&& self.bitmap_ok()
        &&& self.cpu_ok()
    }

    /// A task is listed nowhere but in the place its state assigns it:
    /// outside its own priority's ready list, its own wheel slot and
    /// its own pend queue it never occurs.
    pub proof fn lemma_membership(self, t: usize)
        requires
            self.inv(),
            self.is_tid(t),
        ensures
            forall|p: int|
                0 <= p < CFG_PRIO_MAX as int && (self.tcb_of(t).task_state != OsTaskState::Ready
                    || p != self.tcb_of(t).prio as int) ==> !(#[trigger] self.rdy(p)).contains(t),
            forall|s: int|
                0 <= s < CFG_TICK_WHEEL_SIZE as int && (!is_wheel_state(self.tcb_of(t).task_state)
                    || s != self.tcb_of(t).tick_wheel_slot as int) ==> !(
                #[trigger] self.wheel(s)).contains(t),
            forall|q: int|
                0 <= q < self.n_qs() && (!is_pending_state(self.tcb_of(t).task_state) || Some(
                    q as usize,
                ) != self.tcb_of(t).pend_obj) ==> !pend_has_task(#[trigger] self.pq(q), t),
    {
        assert forall|p: int|
            0 <= p < CFG_PRIO_MAX as int && (self.tcb_of(t).task_state != OsTaskState::Ready || p
                != self.tcb_of(t).prio as int) implies !(#[trigger] self.rdy(p)).contains(t) by {
            if self.rdy(p).contains(t) {
                let i = choose|i: int| 0 <= i < self.rdy(p).len() && self.rdy(p)[i] == t;
                assert(self.rdy_member_ok(p, i));
            }
        }
        assert forall|s: int|
            0 <= s < CFG_TICK_WHEEL_SIZE as int && (!is_wheel_state(self.tcb_of(t).task_state) || s
                != self.tcb_of(t).tick_wheel_slot as int) implies !(#[trigger] self.wheel(
            s,
        )).contains(t) by {
            if self.wheel(s).contains(t) {
                let i = choose|i: int| 0 <= i < self.wheel(s).len() && self.wheel(s)[i] == t;
                assert(self.wheel_member_ok(s, i));
            }
        }
        assert forall|q: int|
            0 <= q < self.n_qs() && (!is_pending_state(self.tcb_of(t).task_state) || Some(
                q as usize,
            ) != self.tcb_of(t).pend_obj) implies !pend_has_task(#[trigger] self.pq(q), t) by {
            if pend_has_task(self.pq(q), t) {
                let i = choose|i: int| 0 <= i < self.pq(q).len() && self.pq(q)[i].task == t;
                assert(self.pq_member_ok(q, i));
            }
        }
    }
}

impl Kernel {
    /// Changing only flags, CPU registers or the switch-request flag
    /// keeps the structural invariant, as long as the CPU registers
    /// stay valid.
    pub proof fn lemma_inv_ctl_change(a: Kernel, b: Kernel)
        requires
            a.inv(),
            b.sched == a.sched,
            b.tcbs == a.tcbs,
            b.pend_qs == a.pend_qs,
            b.cpu_ok(),
        ensures
            b.inv(),
    {
        assert forall|t: usize| b.is_tid(t) implies #[trigger] b.tcb_fields_ok(t) by {
            assert(a.tcb_fields_ok(t));
        }
        assert forall|p: int, i: int|
            0 <= p < CFG_PRIO_MAX as int && 0 <= i < b.rdy(p).len() implies b.rdy_member_ok(
            p,
            i,
        ) by {
            assert(a.rdy(p)[i] == b.rdy(p)[i]);
            assert(a.rdy_member_ok(p, i));
        }
        assert forall|s: int, i: int|
            0 <= s < CFG_TICK_WHEEL_SIZE as int && 0 <= i < b.wheel(s).len()
            implies b.wheel_member_ok(s, i) by {
            assert(a.wheel(s)[i] == b.wheel(s)[i]);
            assert(a.wheel_member_ok(s, i));
        }
        assert forall|q: int, i: int|
            0 <= q < b.n_qs() && 0 <= i < b.pq(q).len() implies b.pq_member_ok(q, i) by {
            assert(a.pq(q)[i] == b.pq(q)[i]);
            assert(a.pq_member_ok(q, i));
        }
        assert forall|t: usize|
            b.is_tid(t) && (#[trigger] b.tcb_of(t)).task_state == OsTaskState::Ready
            implies b.rdy(b.tcb_of(t).prio as int).contains(t) by {
            assert(a.tcb_of(t) == b.tcb_of(t));
            assert(a.rdy(a.tcb_of(t).prio as int).contains(t));
        }
        assert forall|t: usize|
            b.is_tid(t) && is_wheel_state((#[trigger] b.tcb_of(t)).task_state) implies {
            &&& (b.tcb_of(t).tick_wheel_slot as int) < CFG_TICK_WHEEL_SIZE as int
            &&& b.wheel(b.tcb_of(t).tick_wheel_slot as int).contains(t)
        } by {
            assert(a.tcb_of(t) == b.tcb_of(t));
        }
        assert forall|t: usize|
            b.is_tid(t) && is_pending_state((#[trigger] b.tcb_of(t)).task_state) implies {
            &&& b.tcb_of(t).pend_obj matches Some(q)
            &&& (b.tcb_of(t).pend_obj matches Some(q) ==> (q as int) < b.n_qs() && pend_has_task(
                b.pq(q as int),
                t,
            ))
        } by {
            assert(a.tcb_of(t) == b.tcb_of(t));
        }
        assert(b.lists_no_dup()) by {
            assert forall|p: int| 0 <= p < CFG_PRIO_MAX as int implies (
            #[trigger] b.rdy(p)).no_duplicates() by {
                assert(b.rdy(p) == a.rdy(p));
            }
            assert forall|s: int| 0 <= s < CFG_TICK_WHEEL_SIZE as int implies (
            #[trigger] b.wheel(s)).no_duplicates() by {
                assert(b.wheel(s) == a.wheel(s));
            }
            assert forall|q: int| 0 <= q < b.n_qs() implies pend_tasks_unique(#[trigger] b.pq(q))
                && pend_sorted(b.pq(q)) by {
                assert(b.pq(q) == a.pq(q));
            }
        }
        assert(b.bitmap_ok()) by {
            assert forall|p: int|
                0 <= p < CFG_PRIO_MAX as int implies (b.sched.prio_tbl.spec_is_set(p) <==> (
            #[trigger] b.rdy(p)).len() != 0) by {
                assert(b.rdy(p) == a.rdy(p));
            }
        }
    }

    /// Rewriting fields of one TCB keeps the structural invariant, as
    /// long as the task's placement does not change: its membership
    /// class is preserved, and while listed its priority, wheel slot or
    /// pend queue stays what it was.
    pub proof fn lemma_inv_tcb_field_change(a: Kernel, b: Kernel, t: usize)
        requires
            a.inv(),
            a.is_tid(t),
            b.sched == a.sched,
            b.pend_qs == a.pend_qs,
            b.cpu == a.cpu,
            b.tcbs@ == a.tcbs@.update(t as int, b.tcb_of(t)),
            (b.tcb_of(t).prio as int) < CFG_PRIO_MAX as int,
            (b.tcb_of(t).base_prio as int) < CFG_PRIO_MAX as int,
            b.tcb_of(t).prio <= b.tcb_of(t).base_prio,
            (b.tcb_of(t).task_state == OsTaskState::Ready) <==> (a.tcb_of(t).task_state
                == OsTaskState::Ready),
            a.tcb_of(t).task_state == OsTaskState::Ready ==> b.tcb_of(t).prio == a.tcb_of(t).prio,
            is_wheel_state(b.tcb_of(t).task_state) <==> is_wheel_state(a.tcb_of(t).task_state),
            is_wheel_state(a.tcb_of(t).task_state) ==> b.tcb_of(t).tick_wheel_slot == a.tcb_of(
                t,
            ).tick_wheel_slot && b.tcb_of(t).tick_remain > 0,
            is_pending_state(b.tcb_of(t).task_state) <==> is_pending_state(
                a.tcb_of(t).task_state,
            ),
            is_pending_state(a.tcb_of(t).task_state) ==> b.tcb_of(t).pend_obj == a.tcb_of(
                t,
            ).pend_obj,
        ensures
            b.inv(),
    {
        assert forall|u: usize| b.is_tid(u) implies #[trigger] b.tcb_fields_ok(u) by {
            if u != t {
                assert(a.tcb_fields_ok(u));
            }
        }
        assert forall|p: int, i: int|
            0 <= p < CFG_PRIO_MAX as int && 0 <= i < b.rdy(p).len() implies b.rdy_member_ok(
            p,
            i,
        ) by {
            assert(a.rdy(p)[i] == b.rdy(p)[i]);
            assert(a.rdy_member_ok(p, i));
        }
        assert forall|s: int, i: int|
            0 <= s < CFG_TICK_WHEEL_SIZE as int && 0 <= i < b.wheel(s).len()
            implies b.wheel_member_ok(s, i) by {
            assert(a.wheel(s)[i] == b.wheel(s)[i]);
            assert(a.wheel_member_ok(s, i));
        }
        assert forall|q: int, i: int|
            0 <= q < b.n_qs() && 0 <= i < b.pq(q).len() implies b.pq_member_ok(q, i) by {
            assert(a.pq(q)[i] == b.pq(q)[i]);
            assert(a.pq_member_ok(q, i));
        }
        assert forall|u: usize|
            b.is_tid(u) && (#[trigger] b.tcb_of(u)).task_state == OsTaskState::Ready
            implies b.rdy(b.tcb_of(u).prio as int).contains(u) by {
            assert(a.tcb_of(u).task_state == OsTaskState::Ready);
            assert(a.rdy(a.tcb_of(u).prio as int).contains(u));
            assert(b.tcb_of(u).prio == a.tcb_of(u).prio);
        }
        assert forall|u: usize|
            b.is_tid(u) && is_wheel_state((#[trigger] b.tcb_of(u)).task_state) implies {
            &&& (b.tcb_of(u).tick_wheel_slot as int) < CFG_TICK_WHEEL_SIZE as int
            &&& b.wheel(b.tcb_of(u).tick_wheel_slot as int).contains(u)
        } by {
            assert(is_wheel_state(a.tcb_of(u).task_state));
            assert(b.tcb_of(u).tick_wheel_slot == a.tcb_of(u).tick_wheel_slot);
        }
        assert forall|u: usize|
            b.is_tid(u) && is_pending_state((#[trigger] b.tcb_of(u)).task_state) implies {
            &&& b.tcb_of(u).pend_obj matches Some(q)
            &&& (b.tcb_of(u).pend_obj matches Some(q) ==> (q as int) < b.n_qs() && pend_has_task(
                b.pq(q as int),
                u,
            ))
        } by {
            assert(is_pending_state(a.tcb_of(u).task_state));
            assert(b.tcb_of(u).pend_obj == a.tcb_of(u).pend_obj);
        }
        assert(b.lists_no_dup()) by {
            assert forall|p: int| 0 <= p < CFG_PRIO_MAX as int implies (
            #[trigger] b.rdy(p)).no_duplicates() by {
                assert(b.rdy(p) == a.rdy(p));
            }
            assert forall|s: int| 0 <= s < CFG_TICK_WHEEL_SIZE as int implies (
            #[trigger] b.wheel(s)).no_duplicates() by {
                assert(b.wheel(s) == a.wheel(s));
            }
            assert forall|q: int| 0 <= q < b.n_qs() implies pend_tasks_unique(#[trigger] b.pq(q))
                && pend_sorted(b.pq(q)) by {
                assert(b.pq(q) == a.pq(q));
            }
        }
        assert(b.bitmap_ok()) by {
            assert forall|p: int|
                0 <= p < CFG_PRIO_MAX as int implies (b.sched.prio_tbl.spec_is_set(p) <==> (
            #[trigger] b.rdy(p)).len() != 0) by {
                assert(b.rdy(p) == a.rdy(p));
            }
        }
    }
}

/// Rewrite the fields of one TCB without changing its placement: the
/// membership class, and while listed the priority, wheel slot and
/// pend queue, must stay what they were.
pub(crate) fn os_tcb_write(k: &mut Kernel, t: usize, c2: OsTcb)
    requires
        old(k).inv(),
        old(k).is_tid(t),
        (c2.prio as int) < CFG_PRIO_MAX as int,
        (c2.base_prio as int) < CFG_PRIO_MAX as int,
        c2.prio <= c2.base_prio,
        (c2.task_state == OsTaskState::Ready) <==> (old(k).tcb_of(t).task_state
            == OsTaskState::Ready),
        old(k).tcb_of(t).task_state == OsTaskState::Ready ==> c2.prio == old(k).tcb_of(t).prio,
        is_wheel_state(c2.task_state) <==> is_wheel_state(old(k).tcb_of(t).task_state),
        is_wheel_state(old(k).tcb_of(t).task_state) ==> c2.tick_wheel_slot == old(k).tcb_of(
            t,
        ).tick_wheel_slot && c2.tick_remain > 0,
        is_pending_state(c2.task_state) <==> is_pending_state(old(k).tcb_of(t).task_state),
        is_pending_state(old(k).tcb_of(t).task_state) ==> c2.pend_obj == old(k).tcb_of(
            t,
        ).pend_obj,
    ensures
        final(k).inv(),
        final(k).tcbs@ == old(k).tcbs@.update(t as int, c2),
        final(k).sched == old(k).sched,
        final(k).pend_qs == old(k).pend_qs,
        final(k).cpu == old(k).cpu,
        final(k).flags == old(k).flags,
        final(k).ctx_sw_pending == old(k).ctx_sw_pending,
{
    k.tcbs[t] = c2;
    proof {
        let a = *old(k);
        Kernel::lemma_inv_tcb_field_change(a, *k, t);
    }
}

/// Put a suspended (unlisted) task to sleep: mark it delayed with the
/// full residual delay and hang it at the head of the wheel slot its
/// absolute expiry tick hashes to.
pub(crate) fn os_wheel_block(k: &mut Kernel, t: usize, ticks: OsTick, expiry: OsTick)
    requires
        old(k).inv(),
        old(k).is_tid(t),
        old(k).tcb_of(t).task_state == OsTaskState::Suspended,
        ticks > 0,
    ensures
        final(k).inv(),
        ({
            let s = (expiry as int) % (CFG_TICK_WHEEL_SIZE as int);
            &&& final(k).tcbs@ == old(k).tcbs@.update(
                t as int,
                (OsTcb {
                    task_state: OsTaskState::Delayed,
                    tick_remain: ticks,
                    tick_wheel_slot: s as u8,
                    ..old(k).tcb_of(t)
                }),
            )
            &&& final(k).wheel(s) == old(k).wheel(s).insert(0, t)
            &&& wheel_unchanged_except(*old(k), *final(k), s)
        }),
        final(k).sched.rdy_list == old(k).sched.rdy_list,
        final(k).sched.prio_tbl == old(k).sched.prio_tbl,
        final(k).pend_qs == old(k).pend_qs,
        final(k).cpu == old(k).cpu,
        final(k).flags == old(k).flags,
        final(k).ctx_sw_pending == old(k).ctx_sw_pending,
{
    let slot = k.sched.tick_wheel_insert(t, expiry);
    let mut c = k.tcbs[t];
    c.task_state = OsTaskState::Delayed;
    c.tick_remain = ticks;
    c.tick_wheel_slot = slot;
    k.tcbs[t] = c;
    proof {
        let a = *old(k);
        let b = *k;
        let s = (expiry as int) % (CFG_TICK_WHEEL_SIZE as int);
        a.lemma_membership(t);
        crate::seq_lemmas::lemma_insert_effect(a.wheel(s), 0, t);
        assert(a.tcb_fields_ok(t));
        assert forall|u: usize| b.is_tid(u) implies #[trigger] b.tcb_fields_ok(u) by {
            if u != t {
                assert(a.tcb_fields_ok(u));
            }
        }
        assert forall|p2: int, i: int|
            0 <= p2 < CFG_PRIO_MAX as int && 0 <= i < b.rdy(p2).len() implies b.rdy_member_ok(
            p2,
            i,
        ) by {
            let u = a.rdy(p2)[i];
            assert(a.rdy_member_ok(p2, i));
            assert(u != t);
        }
        assert forall|s2: int, i: int|
            0 <= s2 < CFG_TICK_WHEEL_SIZE as int && 0 <= i < b.wheel(s2).len()
            implies b.wheel_member_ok(s2, i) by {
            if s2 == s {
                let u = b.wheel(s)[i];
                assert(b.wheel(s).contains(u));
                if u != t {
                    assert(a.wheel(s).contains(u));
                    let j = choose|j: int| 0 <= j < a.wheel(s).len() && a.wheel(s)[j] == u;
                    assert(a.wheel_member_ok(s, j));
                }
            } else {
                assert(b.wheel(s2) == a.wheel(s2));
                let u = a.wheel(s2)[i];
                assert(a.wheel_member_ok(s2, i));
                assert(u != t);
            }
        }
        assert forall|q: int, i: int|
            0 <= q < b.n_qs() && 0 <= i < b.pq(q).len() implies b.pq_member_ok(q, i) by {
            let e = a.pq(q)[i];
            assert(a.pq_member_ok(q, i));
            assert(e.task != t);
        }
        assert forall|u: usize|
            b.is_tid(u) && (#[trigger] b.tcb_of(u)).task_state == OsTaskState::Ready
            implies b.rdy(b.tcb_of(u).prio as int).contains(u) by {
            assert(u != t);
            assert(a.tcb_of(u).task_state == OsTaskState::Ready);
            assert(a.rdy(a.tcb_of(u).prio as int).contains(u));
        }
        assert forall|u: usize|
            b.is_tid(u) && is_wheel_state((#[trigger] b.tcb_of(u)).task_state) implies {
            &&& (b.tcb_of(u).tick_wheel_slot as int) < CFG_TICK_WHEEL_SIZE as int
            &&& b.wheel(b.tcb_of(u).tick_wheel_slot as int).contains(u)
        } by {
            if u != t {
                assert(is_wheel_state(a.tcb_of(u).task_state));
                let su = a.tcb_of(u).tick_wheel_slot as int;
                assert(a.wheel(su).contains(u));
                if su == s {
                    assert(b.wheel(s).contains(u));
                } else {
                    assert(b.wheel(su) == a.wheel(su));
                }
            } else {
                assert(b.wheel(s).contains(t));
            }
        }
        assert forall|u: usize|
            b.is_tid(u) && is_pending_state((#[trigger] b.tcb_of(u)).task_state) implies {
            &&& b.tcb_of(u).pend_obj matches Some(q)
            &&& (b.tcb_of(u).pend_obj matches Some(q) ==> (q as int) < b.n_qs() && pend_has_task(
                b.pq(q as int),
                u,
            ))
        } by {
            assert(u != t);
            assert(is_pending_state(a.tcb_of(u).task_state));
        }
        assert(b.lists_no_dup()) by {
            assert forall|p2: int| 0 <= p2 < CFG_PRIO_MAX as int implies (
            #[trigger] b.rdy(p2)).no_duplicates() by {
                assert(b.rdy(p2) == a.rdy(p2));
            }
            assert forall|s2: int| 0 <= s2 < CFG_TICK_WHEEL_SIZE as int implies (
            #[trigger] b.wheel(s2)).no_duplicates() by {
                if s2 == s {
                    assert(!a.wheel(s).contains(t));
                } else {
                    assert(b.wheel(s2) == a.wheel(s2));
                }
            }
            assert forall|q: int|
                0 <= q < b.n_qs() implies pend_tasks_unique(#[trigger] b.pq(q)) && pend_sorted(
                b.pq(q),
            ) by {
                assert(b.pq(q) == a.pq(q));
            }
        }
        assert(b.bitmap_ok()) by {
            assert forall|p2: int|
                0 <= p2 < CFG_PRIO_MAX as int implies (b.sched.prio_tbl.spec_is_set(p2) <==> (
            #[trigger] b.rdy(p2)).len() != 0) by {
                assert(b.rdy(p2) == a.rdy(p2));
            }
        }
    }
}

/// Wake a delayed task out of the tick wheel and leave it suspended
/// (unlisted); the caller makes it ready when the task was not also
/// explicitly suspended.
pub(crate) fn os_delay_unblock(k: &mut Kernel, t: usize)
    requires
        old(k).inv(),
        old(k).is_tid(t),
        crate::tcb::is_delayed_state(old(k).tcb_of(t).task_state),
    ensures
        final(k).inv(),
        ({
            let s = old(k).tcb_of(t).tick_wheel_slot as int;
            &&& final(k).tcbs@ == old(k).tcbs@.update(
                t as int,
                (OsTcb {
                    task_state: OsTaskState::Suspended,
                    tick_remain: 0,
                    ..old(k).tcb_of(t)
                }),
            )
            &&& final(k).wheel(s) == old(k).wheel(s).remove_value(t)
            &&& wheel_unchanged_except(*old(k), *final(k), s)
        }),
        final(k).sched.rdy_list == old(k).sched.rdy_list,
        final(k).sched.prio_tbl == old(k).sched.prio_tbl,
        final(k).pend_qs == old(k).pend_qs,
        final(k).cpu == old(k).cpu,
        final(k).flags == old(k).flags,
        final(k).ctx_sw_pending == old(k).ctx_sw_pending,
{
    proof {
        let a = *old(k);
        assert(a.wheel(a.tcb_of(t).tick_wheel_slot as int).contains(t));
        crate::seq_lemmas::lemma_remove_value_effect(
            a.wheel(a.tcb_of(t).tick_wheel_slot as int),
            t,
        );
    }
    let slot = k.tcbs[t].tick_wheel_slot;
    k.sched.tick_wheel_remove(t, slot);
    let mut c = k.tcbs[t];
    c.task_state = OsTaskState::Suspended;
    c.tick_remain = 0;
    k.tcbs[t] = c;
    proof {
        let a = *old(k);
        let b = *k;
        let s = a.tcb_of(t).tick_wheel_slot as int;
        a.lemma_membership(t);
        assert(a.tcb_fields_ok(t));
        assert forall|u: usize| b.is_tid(u) implies #[trigger] b.tcb_fields_ok(u) by {
            if u != t {
                assert(a.tcb_fields_ok(u));
            }
        }
        assert forall|p2: int, i: int|
            0 <= p2 < CFG_PRIO_MAX as int && 0 <= i < b.rdy(p2).len() implies b.rdy_member_ok(
            p2,
            i,
        ) by {
            let u = a.rdy(p2)[i];
            assert(a.rdy_member_ok(p2, i));
            assert(u != t);
        }
        assert forall|s2: int, i: int|
            0 <= s2 < CFG_TICK_WHEEL_SIZE as int && 0 <= i < b.wheel(s2).len()
            implies b.wheel_member_ok(s2, i) by {
            if s2 == s {
                let u = b.wheel(s)[i];
                assert(b.wheel(s).contains(u));
                assert(a.wheel(s).contains(u) && u != t);
                let j = choose|j: int| 0 <= j < a.wheel(s).len() && a.wheel(s)[j] == u;
                assert(a.wheel_member_ok(s, j));
            } else {
                assert(b.wheel(s2) == a.wheel(s2));
                let u = a.wheel(s2)[i];
                assert(a.wheel_member_ok(s2, i));
                assert(u != t);
            }
        }
        assert forall|q: int, i: int|
            0 <= q < b.n_qs() && 0 <= i < b.pq(q).len() implies b.pq_member_ok(q, i) by {
            let e = a.pq(q)[i];
            assert(a.pq_member_ok(q, i));
            assert(e.task != t);
        }
        assert forall|u: usize|
            b.is_tid(u) && (#[trigger] b.tcb_of(u)).task_state == OsTaskState::Ready
            implies b.rdy(b.tcb_of(u).prio as int).contains(u) by {
            assert(u != t);
            assert(a.tcb_of(u).task_state == OsTaskState::Ready);
            assert(a.rdy(a.tcb_of(u).prio as int).contains(u));
        }
        assert forall|u: usize|
            b.is_tid(u) && is_wheel_state((#[trigger] b.tcb_of(u)).task_state) implies {
            &&& (b.tcb_of(u).tick_wheel_slot as int) < CFG_TICK_WHEEL_SIZE as int
            &&& b.wheel(b.tcb_of(u).tick_wheel_slot as int).contains(u)
        } by {
            assert(u != t);
            assert(is_wheel_state(a.tcb_of(u).task_state));
            let su = a.tcb_of(u).tick_wheel_slot as int;
            assert(a.wheel(su).contains(u));
            if su == s {
                assert(b.wheel(s).contains(u));
            } else {
                assert(b.wheel(su) == a.wheel(su));
            }
        }
        assert forall|u: usize|
            b.is_tid(u) && is_pending_state((#[trigger] b.tcb_of(u)).task_state) implies {
            &&& b.tcb_of(u).pend_obj matches Some(q)
            &&& (b.tcb_of(u).pend_obj matches Some(q) ==> (q as int) < b.n_qs() && pend_has_task(
                b.pq(q as int),
                u,
            ))
        } by {
            assert(u != t);
            assert(is_pending_state(a.tcb_of(u).task_state));
        }
        assert(b.lists_no_dup()) by {
            assert forall|p2: int| 0 <= p2 < CFG_PRIO_MAX as int implies (
            #[trigger] b.rdy(p2)).no_duplicates() by {
                assert(b.rdy(p2) == a.rdy(p2));
            }
            assert forall|s2: int| 0 <= s2 < CFG_TICK_WHEEL_SIZE as int implies (
            #[trigger] b.wheel(s2)).no_duplicates() by {
                if s2 != s {
                    assert(b.wheel(s2) == a.wheel(s2));
                }
            }
            assert forall|q: int|
                0 <= q < b.n_qs() implies pend_tasks_unique(#[trigger] b.pq(q)) && pend_sorted(
                b.pq(q),
            ) by {
                assert(b.pq(q) == a.pq(q));
            }
        }
        assert(b.bitmap_ok()) by {
            assert forall|p2: int|
                0 <= p2 < CFG_PRIO_MAX as int implies (b.sched.prio_tbl.spec_is_set(p2) <==> (
            #[trigger] b.rdy(p2)).len() != 0) by {
                assert(b.rdy(p2) == a.rdy(p2));
            }
        }
    }
}

/// Block a suspended (unlisted) task on a pend queue: queue it in
/// priority order, record what it pends on, and when a timeout is
/// given also hang it in the tick wheel.
pub(crate) fn os_pend_block(
    k: &mut Kernel,
    t: usize,
    q: usize,
    on: crate::types::OsPendOn,
    timeout: OsTick,
    expiry: OsTick,
)
    requires
        old(k).inv(),
        old(k).is_tid(t),
        old(k).tcb_of(t).task_state == OsTaskState::Suspended,
        (q as int) < old(k).n_qs(),
    ensures
        final(k).inv(),
        ({
            let st = if timeout > 0 {
                OsTaskState::PendTimeout
            } else {
                OsTaskState::Pend
            };
            let s = (expiry as int) % (CFG_TICK_WHEEL_SIZE as int);
            let slot8 = if timeout > 0 {
                s as u8
            } else {
                old(k).tcb_of(t).tick_wheel_slot
            };
            let e = (PendEntry { task: t, prio: old(k).tcb_of(t).prio });
            &&& final(k).tcbs@ == old(k).tcbs@.update(
                t as int,
                (OsTcb {
                    task_state: st,
                    pend_on: on,
                    pend_status: crate::types::OsPendStatus::PendOk,
                    pend_obj: Some(q),
                    tick_remain: timeout,
                    tick_wheel_slot: slot8,
                    ..old(k).tcb_of(t)
                }),
            )
            &&& final(k).pq(q as int).len() == old(k).pq(q as int).len() + 1
            &&& (forall|u: usize|
                pend_has_task(final(k).pq(q as int), u) <==> (u == t || pend_has_task(
                    old(k).pq(q as int),
                    u,
                )))
            &&& (exists|kk: int|
                #![auto]
                {
                    &&& 0 <= kk <= old(k).pq(q as int).len()
                    &&& final(k).pq(q as int) == old(k).pq(q as int).insert(kk, e)
                    &&& (forall|i: int|
                        0 <= i < kk ==> old(k).pq(q as int)[i].prio <= e.prio)
                    &&& (kk == old(k).pq(q as int).len() || old(k).pq(q as int)[kk].prio > e.prio)
                })
            &&& final(k).n_qs() == old(k).n_qs()
            &&& pq_unchanged_except(*old(k), *final(k), q as int)
            &&& (timeout > 0 ==> final(k).wheel(s) == old(k).wheel(s).insert(0, t)
                && wheel_unchanged_except(*old(k), *final(k), s))
            &&& (timeout == 0 ==> final(k).sched.tick_wheel == old(k).sched.tick_wheel)
        }),
        final(k).sched.rdy_list == old(k).sched.rdy_list,
        final(k).sched.prio_tbl == old(k).sched.prio_tbl,
        final(k).cpu == old(k).cpu,
        final(k).flags == old(k).flags,
        final(k).ctx_sw_pending == old(k).ctx_sw_pending,
{
    proof {
        assert(old(k).tcb_fields_ok(t));
        old(k).lemma_membership(t);
    }
    let prio = k.tcbs[t].prio;
    k.pend_qs[q].insert_by_prio(t, prio);
    let mut c = k.tcbs[t];
    c.pend_on = on;
    c.pend_status = crate::types::OsPendStatus::PendOk;
    c.pend_obj = Some(q);
    c.tick_remain = timeout;
    if timeout > 0 {
        c.task_state = OsTaskState::PendTimeout;
        let slot = k.sched.tick_wheel_insert(t, expiry);
        c.tick_wheel_slot = slot;
    } else {
        c.task_state = OsTaskState::Pend;
    }
    k.tcbs[t] = c;
    proof {
        let a = *old(k);
        let b = *k;
        let qi = q as int;
        let s = (expiry as int) % (CFG_TICK_WHEEL_SIZE as int);
        let e = (PendEntry { task: t, prio: a.tcb_of(t).prio });
        let kk = choose|kk: int|
            #![auto]
            {
                &&& 0 <= kk <= a.pq(qi).len()
                &&& b.pq(qi) == a.pq(qi).insert(kk, e)
                &&& (forall|i: int| 0 <= i < kk ==> a.pq(qi)[i].prio <= e.prio)
                &&& (kk == a.pq(qi).len() || a.pq(qi)[kk].prio > e.prio)
            };
        crate::seq_lemmas::lemma_insert_effect(a.pq(qi), kk, e);
        if timeout > 0 {
            crate::seq_lemmas::lemma_insert_effect(a.wheel(s), 0, t);
        }
        assert forall|u: usize| b.is_tid(u) implies #[trigger] b.tcb_fields_ok(u) by {
            if u != t {
                assert(a.tcb_fields_ok(u));
            }
        }
        assert forall|p2: int, i: int|
            0 <= p2 < CFG_PRIO_MAX as int && 0 <= i < b.rdy(p2).len() implies b.rdy_member_ok(
            p2,
            i,
        ) by {
            let u = a.rdy(p2)[i];
            assert(a.rdy_member_ok(p2, i));
            assert(u != t);
        }
        assert forall|s2: int, i: int|
            0 <= s2 < CFG_TICK_WHEEL_SIZE as int && 0 <= i < b.wheel(s2).len()
            implies b.wheel_member_ok(s2, i) by {
            if timeout > 0 && s2 == s {
                let u = b.wheel(s)[i];
                assert(b.wheel(s).contains(u));
                if u != t {
                    assert(a.wheel(s).contains(u));
                    let j = choose|j: int| 0 <= j < a.wheel(s).len() && a.wheel(s)[j] == u;
                    assert(a.wheel_member_ok(s, j));
                }
            } else {
                assert(b.wheel(s2) == a.wheel(s2));
                let u = a.wheel(s2)[i];
                assert(a.wheel_member_ok(s2, i));
                assert(u != t);
            }
        }
        assert forall|q2: int, i: int|
            0 <= q2 < b.n_qs() && 0 <= i < b.pq(q2).len() implies b.pq_member_ok(q2, i) by {
            if q2 == qi {
                if i < kk {
                    assert(b.pq(qi)[i] == a.pq(qi)[i]);
                    assert(a.pq_member_ok(qi, i));
                    assert(a.pq(qi)[i].task != t);
                } else if i == kk {
                    assert(b.pq(qi)[i] == e);
                } else {
                    assert(b.pq(qi)[i] == a.pq(qi)[i - 1]);
                    assert(a.pq_member_ok(qi, i - 1));
                    assert(a.pq(qi)[i - 1].task != t);
                }
            } else {
                assert(b.pq(q2) == a.pq(q2));
                let ee = a.pq(q2)[i];
                assert(a.pq_member_ok(q2, i));
                assert(ee.task != t);
            }
        }
        assert forall|u: usize|
            b.is_tid(u) && (#[trigger] b.tcb_of(u)).task_state == OsTaskState::Ready
            implies b.rdy(b.tcb_of(u).prio as int).contains(u) by {
            assert(u != t);
            assert(a.tcb_of(u).task_state == OsTaskState::Ready);
            assert(a.rdy(a.tcb_of(u).prio as int).contains(u));
        }
        assert forall|u: usize|
            b.is_tid(u) && is_wheel_state((#[trigger] b.tcb_of(u)).task_state) implies {
            &&& (b.tcb_of(u).tick_wheel_slot as int) < CFG_TICK_WHEEL_SIZE as int
            &&& b.wheel(b.tcb_of(u).tick_wheel_slot as int).contains(u)
        } by {
            if u != t {
                assert(is_wheel_state(a.tcb_of(u).task_state));
                let su = a.tcb_of(u).tick_wheel_slot as int;
                assert(a.wheel(su).contains(u));
                if timeout > 0 && su == s {
                    assert(b.wheel(s).contains(u));
                } else {
                    assert(b.wheel(su) == a.wheel(su));
                }
            } else {
                assert(timeout > 0);
                assert(b.wheel(s).contains(t));
            }
        }
        assert forall|u: usize|
            b.is_tid(u) && is_pending_state((#[trigger] b.tcb_of(u)).task_state) implies {
            &&& b.tcb_of(u).pend_obj matches Some(qq)
            &&& (b.tcb_of(u).pend_obj matches Some(qq) ==> (qq as int) < b.n_qs()
                && pend_has_task(b.pq(qq as int), u))
        } by {
            if u != t {
                assert(is_pending_state(a.tcb_of(u).task_state));
                assert(a.tcb_of(u).pend_obj matches Some(qq) ==> (qq as int) < a.n_qs()
                    && pend_has_task(a.pq(qq as int), u));
                match a.tcb_of(u).pend_obj {
                    Some(qq) => {
                        if qq as int == qi {
                            assert(pend_has_task(b.pq(qi), u));
                        } else {
                            assert(b.pq(qq as int) == a.pq(qq as int));
                        }
                    },
                    None => {},
                }
            } else {
                assert(b.pq(qi)[kk] == e);
                assert(pend_has_task(b.pq(qi), t));
            }
        }
        assert(b.lists_no_dup()) by {
            assert forall|p2: int| 0 <= p2 < CFG_PRIO_MAX as int implies (
            #[trigger] b.rdy(p2)).no_duplicates() by {
                assert(b.rdy(p2) == a.rdy(p2));
            }
            assert forall|s2: int| 0 <= s2 < CFG_TICK_WHEEL_SIZE as int implies (
            #[trigger] b.wheel(s2)).no_duplicates() by {
                if timeout > 0 && s2 == s {
                    assert(!a.wheel(s).contains(t));
                } else {
                    assert(b.wheel(s2) == a.wheel(s2));
                }
            }
            assert forall|q2: int|
                0 <= q2 < b.n_qs() implies pend_tasks_unique(#[trigger] b.pq(q2)) && pend_sorted(
                b.pq(q2),
            ) by {
                if q2 != qi {
                    assert(b.pq(q2) == a.pq(q2));
                } else {
                    assert(pend_tasks_unique(a.pq(qi)) && pend_sorted(a.pq(qi)));
                    assert(!pend_has_task(a.pq(qi), t));
                }
            }
        }
        assert(b.bitmap_ok()) by {
            assert forall|p2: int|
                0 <= p2 < CFG_PRIO_MAX as int implies (b.sched.prio_tbl.spec_is_set(p2) <==> (
            #[trigger] b.rdy(p2)).len() != 0) by {
                assert(b.rdy(p2) == a.rdy(p2));
            }
        }
    }
}

/// Take a pending task out of its pend queue (and out of the tick
/// wheel if it had a timeout), record the waker's verdict in its
/// `pend_status`, and leave it suspended (unlisted); the caller makes
/// it ready when the wake should schedule it.
pub(crate) fn os_pend_unblock(k: &mut Kernel, t: usize, status: crate::types::OsPendStatus)
    requires
        old(k).inv(),
        old(k).is_tid(t),
        is_pending_state(old(k).tcb_of(t).task_state),
    ensures
        final(k).inv(),
        ({
            let q = old(k).tcb_of(t).pend_obj->0;
            let qi = q as int;
            let s = old(k).tcb_of(t).tick_wheel_slot as int;
            &&& final(k).tcbs@ == old(k).tcbs@.update(
                t as int,
                (OsTcb {
                    task_state: OsTaskState::Suspended,
                    pend_on: crate::types::OsPendOn::Nothing,
                    pend_obj: None,
                    pend_status: status,
                    tick_remain: 0,
                    ..old(k).tcb_of(t)
                }),
            )
            &&& final(k).pq(qi).len() == old(k).pq(qi).len() - 1
            &&& !pend_has_task(final(k).pq(qi), t)
            &&& (forall|u: usize|
                u != t ==> (pend_has_task(final(k).pq(qi), u) == pend_has_task(
                    old(k).pq(qi),
                    u,
                )))
            &&& final(k).n_qs() == old(k).n_qs()
            &&& (exists|kk: int|
                #![auto]
                {
                    &&& 0 <= kk < old(k).pq(qi).len()
                    &&& old(k).pq(qi)[kk].task == t
                    &&& final(k).pq(qi) == old(k).pq(qi).remove(kk)
                })
            &&& pq_unchanged_except(*old(k), *final(k), qi)
            &&& (is_wheel_state(old(k).tcb_of(t).task_state) ==> final(k).wheel(s) == old(k).wheel(
                s,
            ).remove_value(t) && wheel_unchanged_except(*old(k), *final(k), s))
            &&& (!is_wheel_state(old(k).tcb_of(t).task_state) ==> final(k).sched.tick_wheel == old(k).sched.tick_wheel)
        }),
        final(k).sched.rdy_list == old(k).sched.rdy_list,
        final(k).sched.prio_tbl == old(k).sched.prio_tbl,
        final(k).cpu == old(k).cpu,
        final(k).flags == old(k).flags,
        final(k).ctx_sw_pending == old(k).ctx_sw_pending,
{
    proof {
        assert(old(k).tcb_fields_ok(t));
        let a = *old(k);
        assert(a.tcb_of(t).pend_obj matches Some(qq) && (qq as int) < a.n_qs() && pend_has_task(
            a.pq(qq as int),
            t,
        ));
        if is_wheel_state(a.tcb_of(t).task_state) {
            assert(a.wheel(a.tcb_of(t).tick_wheel_slot as int).contains(t));
            crate::seq_lemmas::lemma_remove_value_effect(
                a.wheel(a.tcb_of(t).tick_wheel_slot as int),
                t,
            );
        }
    }
    let c0 = k.tcbs[t];
    let q = match c0.pend_obj {
        Some(qq) => qq,
        None => {
            proof {
                assert(false);
            }
            0
        },
    };
    k.pend_qs[q].remove(t);
    let timed = match c0.task_state {
        OsTaskState::PendTimeout => true,
        OsTaskState::PendTimeoutSuspended => true,
        _ => false,
    };
    if timed {
        k.sched.tick_wheel_remove(t, c0.tick_wheel_slot);
    }
    let mut c = c0;
    c.task_state = OsTaskState::Suspended;
    c.pend_on = crate::types::OsPendOn::Nothing;
    c.pend_obj = None;
    c.pend_status = status;
    c.tick_remain = 0;
    k.tcbs[t] = c;
    proof {
        let a = *old(k);
        let b = *k;
        let qi = q as int;
        let s = a.tcb_of(t).tick_wheel_slot as int;
        a.lemma_membership(t);
        let kk = choose|kk: int|
            #![auto]
            {
                &&& 0 <= kk < a.pq(qi).len()
                &&& a.pq(qi)[kk].task == t
                &&& b.pq(qi) == a.pq(qi).remove(kk)
            };
        crate::seq_lemmas::lemma_remove_effect(a.pq(qi), kk);
        assert forall|u: usize| b.is_tid(u) implies #[trigger] b.tcb_fields_ok(u) by {
            if u != t {
                assert(a.tcb_fields_ok(u));
            }
        }
        assert forall|p2: int, i: int|
            0 <= p2 < CFG_PRIO_MAX as int && 0 <= i < b.rdy(p2).len() implies b.rdy_member_ok(
            p2,
            i,
        ) by {
            let u = a.rdy(p2)[i];
            assert(a.rdy_member_ok(p2, i));
            assert(u != t);
        }
        assert forall|s2: int, i: int|
            0 <= s2 < CFG_TICK_WHEEL_SIZE as int && 0 <= i < b.wheel(s2).len()
            implies b.wheel_member_ok(s2, i) by {
            if is_wheel_state(a.tcb_of(t).task_state) && s2 == s {
                let u = b.wheel(s)[i];
                assert(b.wheel(s).contains(u));
                assert(a.wheel(s).contains(u) && u != t);
                let j = choose|j: int| 0 <= j < a.wheel(s).len() && a.wheel(s)[j] == u;
                assert(a.wheel_member_ok(s, j));
            } else {
                assert(b.wheel(s2) == a.wheel(s2));
                let u = a.wheel(s2)[i];
                assert(a.wheel_member_ok(s2, i));
                assert(u != t);
            }
        }
        assert forall|q2: int, i: int|
            0 <= q2 < b.n_qs() && 0 <= i < b.pq(q2).len() implies b.pq_member_ok(q2, i) by {
            if q2 == qi {
                let i0: int = if i < kk {
                    i
                } else {
                    i + 1
                };
                assert(b.pq(qi)[i] == a.pq(qi)[i0]);
                assert(a.pq_member_ok(qi, i0));
                assert(a.pq(qi)[i0].task != t) by {
                    assert(pend_tasks_unique(a.pq(qi)));
                    if a.pq(qi)[i0].task == t {
                        assert(i0 != kk);
                    }
                }
            } else {
                assert(b.pq(q2) == a.pq(q2));
                let ee = a.pq(q2)[i];
                assert(a.pq_member_ok(q2, i));
                assert(a.tcb_of(t).pend_obj == Some(q));
                vstd::std_specs::vec::axiom_spec_len(&a.pend_qs);
                assert((q2 as usize) as int == q2);
                assert(Some(q2 as usize) != a.tcb_of(t).pend_obj);
                assert(!pend_has_task(a.pq(q2), t));
                if ee.task == t {
                    assert(pend_has_task(a.pq(q2), t));
                }
            }
        }
        assert forall|u: usize|
            b.is_tid(u) && (#[trigger] b.tcb_of(u)).task_state == OsTaskState::Ready
            implies b.rdy(b.tcb_of(u).prio as int).contains(u) by {
            assert(u != t);
            assert(a.tcb_of(u).task_state == OsTaskState::Ready);
            assert(a.rdy(a.tcb_of(u).prio as int).contains(u));
        }
        assert forall|u: usize|
            b.is_tid(u) && is_wheel_state((#[trigger] b.tcb_of(u)).task_state) implies {
            &&& (b.tcb_of(u).tick_wheel_slot as int) < CFG_TICK_WHEEL_SIZE as int
            &&& b.wheel(b.tcb_of(u).tick_wheel_slot as int).contains(u)
        } by {
            assert(u != t);
            assert(is_wheel_state(a.tcb_of(u).task_state));
            let su = a.tcb_of(u).tick_wheel_slot as int;
            assert(a.wheel(su).contains(u));
            if is_wheel_state(a.tcb_of(t).task_state) && su == s {
                assert(b.wheel(s).contains(u));
            } else {
                assert(b.wheel(su) == a.wheel(su));
            }
        }
        assert forall|u: usize|
            b.is_tid(u) && is_pending_state((#[trigger] b.tcb_of(u)).task_state) implies {
            &&& b.tcb_of(u).pend_obj matches Some(qq)
            &&& (b.tcb_of(u).pend_obj matches Some(qq) ==> (qq as int) < b.n_qs()
                && pend_has_task(b.pq(qq as int), u))
        } by {
            assert(u != t);
            assert(is_pending_state(a.tcb_of(u).task_state));
            assert(a.tcb_of(u).pend_obj matches Some(qq) ==> (qq as int) < a.n_qs()
                && pend_has_task(a.pq(qq as int), u));
            match a.tcb_of(u).pend_obj {
                Some(qq) => {
                    if qq as int == qi {
                        let j = choose|j: int| 0 <= j < a.pq(qi).len() && a.pq(qi)[j].task == u;
                        assert(j != kk);
                        if j < kk {
                            assert(b.pq(qi)[j].task == u);
                        } else {
                            assert(b.pq(qi)[j - 1].task == u);
                        }
                        assert(pend_has_task(b.pq(qi), u));
                    } else {
                        assert(b.pq(qq as int) == a.pq(qq as int));
                    }
                },
                None => {},
            }
        }
        assert(b.lists_no_dup()) by {
            assert forall|p2: int| 0 <= p2 < CFG_PRIO_MAX as int implies (
            #[trigger] b.rdy(p2)).no_duplicates() by {
                assert(b.rdy(p2) == a.rdy(p2));
            }
            assert forall|s2: int| 0 <= s2 < CFG_TICK_WHEEL_SIZE as int implies (
            #[trigger] b.wheel(s2)).no_duplicates() by {
                if !(is_wheel_state(a.tcb_of(t).task_state) && s2 == s) {
                    assert(b.wheel(s2) == a.wheel(s2));
                }
            }
            assert forall|q2: int|
                0 <= q2 < b.n_qs() implies pend_tasks_unique(#[trigger] b.pq(q2)) && pend_sorted(
                b.pq(q2),
            ) by {
                if q2 != qi {
                    assert(b.pq(q2) == a.pq(q2));
                } else {
                    assert(pend_tasks_unique(a.pq(qi)) && pend_sorted(a.pq(qi)));
                    crate::sem::PendList::lemma_remove_at(a.pq(qi), kk, t);
                }
            }
        }
        assert(b.bitmap_ok()) by {
            assert forall|p2: int|
                0 <= p2 < CFG_PRIO_MAX as int implies (b.sched.prio_tbl.spec_is_set(p2) <==> (
            #[trigger] b.rdy(p2)).len() != 0) by {
                assert(b.rdy(p2) == a.rdy(p2));
            }
        }
        assert(!pend_has_task(b.pq(qi), t)) by {
            crate::sem::PendList::lemma_remove_at(a.pq(qi), kk, t);
        }
        assert forall|u: usize|
            u != t implies (pend_has_task(b.pq(qi), u) == pend_has_task(a.pq(qi), u)) by {
            crate::sem::PendList::lemma_remove_at(a.pq(qi), kk, t);
        }
    }
}

/// Append a new TCB to the task table; the new task starts suspended
/// (unlisted) and is returned by its task id.
pub(crate) fn os_alloc_tcb(k: &mut Kernel, c: OsTcb) -> (t: usize)
    requires
        old(k).inv(),
        c.task_state == OsTaskState::Suspended,
        (c.prio as int) < CFG_PRIO_MAX as int,
        (c.base_prio as int) < CFG_PRIO_MAX as int,
        c.prio <= c.base_prio,
        old(k).n_tasks() < usize::MAX,
    ensures
        final(k).inv(),
        t as int == old(k).n_tasks(),
        final(k).tcbs@ == old(k).tcbs@.push(c),
        final(k).sched == old(k).sched,
        final(k).pend_qs == old(k).pend_qs,
        final(k).cpu == old(k).cpu,
        final(k).flags == old(k).flags,
        final(k).ctx_sw_pending == old(k).ctx_sw_pending,
{
    let t = k.tcbs.len();
    k.tcbs.push(c);
    proof {
        let a = *old(k);
        let b = *k;
        assert forall|u: usize| b.is_tid(u) implies #[trigger] b.tcb_fields_ok(u) by {
            if (u as int) < a.n_tasks() {
                assert(a.tcb_fields_ok(u));
            }
        }
        assert forall|p2: int, i: int|
            0 <= p2 < CFG_PRIO_MAX as int && 0 <= i < b.rdy(p2).len() implies b.rdy_member_ok(
            p2,
            i,
        ) by {
            assert(a.rdy(p2)[i] == b.rdy(p2)[i]);
            assert(a.rdy_member_ok(p2, i));
        }
        assert forall|s2: int, i: int|
            0 <= s2 < CFG_TICK_WHEEL_SIZE as int && 0 <= i < b.wheel(s2).len()
            implies b.wheel_member_ok(s2, i) by {
            assert(a.wheel(s2)[i] == b.wheel(s2)[i]);
            assert(a.wheel_member_ok(s2, i));
        }
        assert forall|q2: int, i: int|
            0 <= q2 < b.n_qs() && 0 <= i < b.pq(q2).len() implies b.pq_member_ok(q2, i) by {
            assert(a.pq(q2)[i] == b.pq(q2)[i]);
            assert(a.pq_member_ok(q2, i));
        }
        assert forall|u: usize|
            b.is_tid(u) && (#[trigger] b.tcb_of(u)).task_state == OsTaskState::Ready
            implies b.rdy(b.tcb_of(u).prio as int).contains(u) by {
            assert(u != t);
            assert(a.tcb_of(u) == b.tcb_of(u));
            assert(a.rdy(a.tcb_of(u).prio as int).contains(u));
        }
        assert forall|u: usize|
            b.is_tid(u) && is_wheel_state((#[trigger] b.tcb_of(u)).task_state) implies {
            &&& (b.tcb_of(u).tick_wheel_slot as int) < CFG_TICK_WHEEL_SIZE as int
            &&& b.wheel(b.tcb_of(u).tick_wheel_slot as int).contains(u)
        } by {
            assert(u != t);
            assert(a.tcb_of(u) == b.tcb_of(u));
            assert(is_wheel_state(a.tcb_of(u).task_state));
        }
        assert forall|u: usize|
            b.is_tid(u) && is_pending_state((#[trigger] b.tcb_of(u)).task_state) implies {
            &&& b.tcb_of(u).pend_obj matches Some(qq)
            &&& (b.tcb_of(u).pend_obj matches Some(qq) ==> (qq as int) < b.n_qs()
                && pend_has_task(b.pq(qq as int), u))
        } by {
            assert(u != t);
            assert(a.tcb_of(u) == b.tcb_of(u));
            assert(is_pending_state(a.tcb_of(u).task_state));
        }
        assert(b.lists_no_dup()) by {
            assert forall|p2: int| 0 <= p2 < CFG_PRIO_MAX as int implies (
            #[trigger] b.rdy(p2)).no_duplicates() by {
                assert(b.rdy(p2) == a.rdy(p2));
            }
            assert forall|s2: int| 0 <= s2 < CFG_TICK_WHEEL_SIZE as int implies (
            #[trigger] b.wheel(s2)).no_duplicates() by {
                assert(b.wheel(s2) == a.wheel(s2));
            }
            assert forall|q2: int|
                0 <= q2 < b.n_qs() implies pend_tasks_unique(#[trigger] b.pq(q2)) && pend_sorted(
                b.pq(q2),
            ) by {
                assert(b.pq(q2) == a.pq(q2));
            }
        }
        assert(b.bitmap_ok()) by {
            assert forall|p2: int|
                0 <= p2 < CFG_PRIO_MAX as int implies (b.sched.prio_tbl.spec_is_set(p2) <==> (
            #[trigger] b.rdy(p2)).len() != 0) by {
                assert(b.rdy(p2) == a.rdy(p2));
            }
        }
    }
    t
}

/// Register a fresh, empty pend queue and return its object id.
pub(crate) fn os_alloc_pend_q(k: &mut Kernel) -> (q: usize)
    requires
        old(k).inv(),
        old(k).n_qs() < usize::MAX,
    ensures
        final(k).inv(),
        q as int == old(k).n_qs(),
        final(k).n_qs() == old(k).n_qs() + 1,
        final(k).pq(q as int).len() == 0,
        pq_unchanged_except(*old(k), *final(k), q as int),
        final(k).sched == old(k).sched,
        final(k).tcbs == old(k).tcbs,
        final(k).cpu == old(k).cpu,
        final(k).flags == old(k).flags,
        final(k).ctx_sw_pending == old(k).ctx_sw_pending,
{
    let q = k.pend_qs.len();
    let fresh = PendList::new();
    k.pend_qs.push(fresh);
    proof {
        let a = *old(k);
        let b = *k;
        assert forall|u: usize| b.is_tid(u) implies #[trigger] b.tcb_fields_ok(u) by {
            assert(a.tcb_fields_ok(u));
        }
        assert forall|p2: int, i: int|
            0 <= p2 < CFG_PRIO_MAX as int && 0 <= i < b.rdy(p2).len() implies b.rdy_member_ok(
            p2,
            i,
        ) by {
            assert(a.rdy(p2)[i] == b.rdy(p2)[i]);
            assert(a.rdy_member_ok(p2, i));
        }
        assert forall|s2: int, i: int|
            0 <= s2 < CFG_TICK_WHEEL_SIZE as int && 0 <= i < b.wheel(s2).len()
            implies b.wheel_member_ok(s2, i) by {
            assert(a.wheel(s2)[i] == b.wheel(s2)[i]);
            assert(a.wheel_member_ok(s2, i));
        }
        assert forall|q2: int, i: int|
            0 <= q2 < b.n_qs() && 0 <= i < b.pq(q2).len() implies b.pq_member_ok(q2, i) by {
            assert(q2 < a.n_qs());
            assert(a.pq(q2)[i] == b.pq(q2)[i]);
            assert(a.pq_member_ok(q2, i));
        }
        assert forall|u: usize|
            b.is_tid(u) && (#[trigger] b.tcb_of(u)).task_state == OsTaskState::Ready
            implies b.rdy(b.tcb_of(u).prio as int).contains(u) by {
            assert(a.tcb_of(u) == b.tcb_of(u));
            assert(a.rdy(a.tcb_of(u).prio as int).contains(u));
        }
        assert forall|u: usize|
            b.is_tid(u) && is_wheel_state((#[trigger] b.tcb_of(u)).task_state) implies {
            &&& (b.tcb_of(u).tick_wheel_slot as int) < CFG_TICK_WHEEL_SIZE as int
            &&& b.wheel(b.tcb_of(u).tick_wheel_slot as int).contains(u)
        } by {
            assert(a.tcb_of(u) == b.tcb_of(u));
            assert(is_wheel_state(a.tcb_of(u).task_state));
        }
        assert forall|u: usize|
            b.is_tid(u) && is_pending_state((#[trigger] b.tcb_of(u)).task_state) implies {
            &&& b.tcb_of(u).pend_obj matches Some(qq)
            &&& (b.tcb_of(u).pend_obj matches Some(qq) ==> (qq as int) < b.n_qs()
                && pend_has_task(b.pq(qq as int), u))
        } by {
            assert(a.tcb_of(u) == b.tcb_of(u));
            assert(is_pending_state(a.tcb_of(u).task_state));
            match a.tcb_of(u).pend_obj {
                Some(qq) => {
                    assert(b.pq(qq as int) == a.pq(qq as int));
                },
                None => {},
            }
        }
        assert(b.lists_no_dup()) by {
            assert forall|p2: int| 0 <= p2 < CFG_PRIO_MAX as int implies (
            #[trigger] b.rdy(p2)).no_duplicates() by {
                assert(b.rdy(p2) == a.rdy(p2));
            }
            assert forall|s2: int| 0 <= s2 < CFG_TICK_WHEEL_SIZE as int implies (
            #[trigger] b.wheel(s2)).no_duplicates() by {
                assert(b.wheel(s2) == a.wheel(s2));
            }
            assert forall|q2: int|
                0 <= q2 < b.n_qs() implies pend_tasks_unique(#[trigger] b.pq(q2)) && pend_sorted(
                b.pq(q2),
            ) by {
                if q2 < a.n_qs() {
                    assert(b.pq(q2) == a.pq(q2));
                } else {
                    assert(b.pq(q2).len() == 0);
                }
            }
        }
        assert(b.bitmap_ok()) by {
            assert forall|p2: int|
                0 <= p2 < CFG_PRIO_MAX as int implies (b.sched.prio_tbl.spec_is_set(p2) <==> (
            #[trigger] b.rdy(p2)).len() != 0) by {
                assert(b.rdy(p2) == a.rdy(p2));
            }
        }
    }
    q
}

/// Initialize the kernel: fresh tables, an empty pend-queue registry,
/// and the idle task created ready at the lowest priority.
pub fn os_init() -> (r: OsResult<Kernel>)
    ensures
        r matches Ok(k) ==> {
            &&& k.inv()
            &&& k.flags == (KernelFlags { initialized: true, ..KernelFlags::spec_default() })
            &&& k.n_tasks() == 1
            &&& k.tcb_of(0).prio == crate::config::CFG_PRIO_IDLE
            &&& k.tcb_of(0).base_prio == crate::config::CFG_PRIO_IDLE
            &&& k.tcb_of(0).task_state == OsTaskState::Ready
            &&& k.rdy(crate::config::CFG_PRIO_IDLE as int) =~= seq![0usize]
            &&& (forall|p: int|
                0 <= p < CFG_PRIO_MAX as int && p != crate::config::CFG_PRIO_IDLE as int ==> (
                #[trigger] k.rdy(p)).len() == 0)
            &&& (forall|s: int|
                0 <= s < CFG_TICK_WHEEL_SIZE as int ==> (#[trigger] k.wheel(s)).len() == 0)
            &&& k.n_qs() == 0
            &&& k.cpu == CpuState::spec_default()
            &&& !k.ctx_sw_pending
        },
        r is Ok,
{
    let flags = KernelFlags::new();
    let sched = SchedState::new();
    let cpu = CpuState::new();
    let mut k = Kernel {
        flags,
        sched,
        cpu,
        tcbs: Vec::new(),
        pend_qs: Vec::new(),
        ctx_sw_pending: false,
        in_critical: false,
    };
    proof {
        assert forall|p: int|
            0 <= p < CFG_PRIO_MAX as int implies (#[trigger] k.rdy(p)).len() == 0 by {
            assert(k.sched.rdy_list@[p]@.len() == 0);
        }
        assert forall|s: int|
            0 <= s < CFG_TICK_WHEEL_SIZE as int implies (#[trigger] k.wheel(s)).len() == 0 by {
            assert(k.sched.tick_wheel@[s]@.len() == 0);
        }
        assert(k.inv());
    }
    let mut idle = OsTcb::new();
    idle.name = "Idle";
    idle.prio = crate::config::CFG_PRIO_IDLE;
    idle.base_prio = crate::config::CFG_PRIO_IDLE;
    idle.task_state = OsTaskState::Suspended;
    let ghost k0 = k;
    let t = os_alloc_tcb(&mut k, idle);
    let ghost k1 = k;
    crate::sched::os_rdy_list_insert(&mut k, t);
    let ghost k2 = k;
    k.flags.set_initialized(true);
    proof {
        Kernel::lemma_inv_ctl_change(k2, k);
        assert(k.rdy(crate::config::CFG_PRIO_IDLE as int) =~= seq![0usize]);
        assert forall|p: int|
            0 <= p < CFG_PRIO_MAX as int && p != crate::config::CFG_PRIO_IDLE as int implies (
        #[trigger] k.rdy(p)).len() == 0 by {
            assert(k.rdy(p) == k1.rdy(p));
            assert(k1.rdy(p) == k0.rdy(p));
            assert(k0.sched.rdy_list@[p]@.len() == 0);
        }
        assert forall|s: int|
            0 <= s < CFG_TICK_WHEEL_SIZE as int implies (#[trigger] k.wheel(s)).len() == 0 by {
            assert(k.wheel(s) == k0.wheel(s));
            assert(k0.sched.tick_wheel@[s]@.len() == 0);
        }
    }
    Ok(k)
}

/// Start multitasking: require an initialized, not yet running kernel
/// with at least one application task beside idle; pick the highest
/// ready task as both current and switch target and mark the kernel
/// running. The port's first-task switch then runs it.
pub fn os_start(k: &mut Kernel) -> (r: OsResult<()>)
    requires
        old(k).inv(),
    ensures
        final(k).inv(),
        !old(k).flags.initialized ==> r == Err::<(), OsError>(OsError::OsNotInit) && *final(k)
            == *old(k),
        old(k).flags.initialized && old(k).flags.running ==> r == Err::<(), OsError>(
            OsError::OsRunning,
        ) && *final(k) == *old(k),
        old(k).flags.initialized && !old(k).flags.running && old(k).n_tasks() < 2 ==> r == Err::<
            (),
            OsError,
        >(OsError::OsNoAppTask) && *final(k) == *old(k),
        (old(k).flags.initialized && !old(k).flags.running && old(k).n_tasks() >= 2) ==> {
            let p = old(k).sched.prio_tbl.spec_highest();
            if old(k).rdy(p).len() > 0 {
                let h = old(k).rdy(p)[0];
                &&& r == Ok::<(), OsError>(())
                &&& final(k).cpu == (CpuState {
                    prio_cur: p as u8,
                    prio_high_rdy: p as u8,
                    tcb_cur: Some(h),
                    tcb_high_rdy: Some(h),
                    ..old(k).cpu
                })
                &&& final(k).flags == (KernelFlags { running: true, ..old(k).flags })
                &&& final(k).sched == old(k).sched
                &&& final(k).tcbs == old(k).tcbs
                &&& final(k).pend_qs == old(k).pend_qs
                &&& final(k).ctx_sw_pending == old(k).ctx_sw_pending
            } else {
                r == Err::<(), OsError>(OsError::OsNoAppTask) && *final(k) == *old(k)
            }
        },
{
    if !k.flags.is_initialized() {
        return Err(OsError::OsNotInit);
    }
    if k.flags.is_running() {
        return Err(OsError::OsRunning);
    }
    if k.tcbs.len() < 2 {
        return Err(OsError::OsNoAppTask);
    }
    let high_prio = k.sched.prio_tbl.get_highest();
    let head = k.sched.rdy_list[high_prio as usize].head();
    match head {
        Some(h) => {
            proof {
                assert(old(k).rdy_member_ok(high_prio as int, 0));
            }
            k.cpu.set_prio_high_rdy(high_prio);
            k.cpu.set_prio_cur(high_prio);
            k.cpu.set_tcb_high_rdy(Some(h));
            k.cpu.set_tcb_cur(Some(h));
            k.flags.set_running(true);
            proof {
                Kernel::lemma_inv_ctl_change(*old(k), *k);
            }
            Ok(())
        },
        None => Err(OsError::OsNoAppTask),
    }
}

/// Leave an ISR: drop the interrupt nesting level and, when leaving
/// the last nested interrupt with the scheduler unlocked, request an
/// interrupt-level switch if a higher-priority task became ready.
pub fn os_int_exit(k: &mut Kernel)
    requires
        old(k).inv(),
    ensures
        final(k).inv(),
        (!old(k).flags.running || old(k).flags.int_nesting == 0) ==> *final(k) == *old(k),
        (old(k).flags.running && old(k).flags.int_nesting > 0) ==> {
            let f2 = (KernelFlags {
                int_nesting: (old(k).flags.int_nesting - 1) as u8,
                ..old(k).flags
            });
            let p = old(k).sched.prio_tbl.spec_highest();
            &&& final(k).flags == f2
            &&& final(k).sched == old(k).sched
            &&& final(k).tcbs == old(k).tcbs
            &&& final(k).pend_qs == old(k).pend_qs
            &&& (if f2.int_nesting == 0 && f2.sched_lock_nesting == 0 && p < old(k).cpu.prio_cur as int && old(k).rdy(p).len() > 0 {
                &&& final(k).cpu == (CpuState {
                    prio_high_rdy: p as u8,
                    tcb_high_rdy: Some(old(k).rdy(p)[0]),
                    ..old(k).cpu
                })
                &&& final(k).ctx_sw_pending
            } else {
                &&& final(k).cpu == old(k).cpu
                &&& final(k).ctx_sw_pending == old(k).ctx_sw_pending
            })
        },
{
    if !k.flags.is_running() {
        return ;
    }
    if k.flags.int_nesting() == 0 {
        return ;
    }
    let new_nesting = k.flags.int_nesting_dec();
    if new_nesting == 0 && k.flags.sched_lock_nesting() == 0 {
        let high_prio = k.sched.prio_tbl.get_highest();
        if high_prio < k.cpu.get_prio_cur() {
            let head = k.sched.rdy_list[high_prio as usize].head();
            match head {
                Some(h) => {
                    proof {
                        assert(old(k).rdy_member_ok(high_prio as int, 0));
                    }
                    k.cpu.set_prio_high_rdy(high_prio);
                    k.cpu.set_tcb_high_rdy(Some(h));
                    crate::port::os_int_ctx_sw(k);
                },
                None => {},
            }
        }
    }
    proof {
        Kernel::lemma_inv_ctl_change(*old(k), *k);
    }
}

/// Lock the scheduler (recursive); rejected while not running or from
/// ISR context.
pub fn os_sched_lock(k: &mut Kernel) -> (r: OsResult<()>)
    requires
        old(k).inv(),
    ensures
        final(k).inv(),
        !old(k).flags.running ==> r == Err::<(), OsError>(OsError::OsNotRunning) && *final(k)
            == *old(k),
        old(k).flags.running && old(k).flags.int_nesting > 0 ==> r == Err::<(), OsError>(
            OsError::SchedLockIsr,
        ) && *final(k) == *old(k),
        old(k).flags.running && old(k).flags.int_nesting == 0 ==> {
            if old(k).flags.sched_lock_nesting == 255 {
                r == Err::<(), OsError>(OsError::LockNestingOvf) && *final(k) == *old(k)
            } else {
                &&& r == Ok::<(), OsError>(())
                &&& *final(k) == (Kernel {
                    flags: (KernelFlags {
                        sched_lock_nesting: (old(k).flags.sched_lock_nesting + 1) as u8,
                        ..old(k).flags
                    }),
                    ..*old(k)
                })
            }
        },
{
    if !k.flags.is_running() {
        return Err(OsError::OsNotRunning);
    }
    if k.flags.int_nesting() > 0 {
        return Err(OsError::SchedLockIsr);
    }
    let r = k.flags.try_sched_lock();
    proof {
        Kernel::lemma_inv_ctl_change(*old(k), *k);
    }
    r
}

/// Unlock the scheduler; the unlock that brings the nesting back to
/// zero runs the scheduler. Rejected while not running, from ISR
/// context, or when the scheduler is not locked.
pub fn os_sched_unlock(k: &mut Kernel) -> (r: OsResult<()>)
    requires
        old(k).inv(),
    ensures
        final(k).inv(),
        !old(k).flags.running ==> r == Err::<(), OsError>(OsError::OsNotRunning) && *final(k)
            == *old(k),
        old(k).flags.running && old(k).flags.int_nesting > 0 ==> r == Err::<(), OsError>(
            OsError::SchedUnlockIsr,
        ) && *final(k) == *old(k),
        old(k).flags.running && old(k).flags.int_nesting == 0 && old(k).flags.sched_lock_nesting
            == 0 ==> r == Err::<(), OsError>(OsError::SchedNotLocked) && *final(k) == *old(k),
        (old(k).flags.running && old(k).flags.int_nesting == 0 && old(k).flags.sched_lock_nesting
            > 0) ==> {
            let f2 = (KernelFlags {
                sched_lock_nesting: (old(k).flags.sched_lock_nesting - 1) as u8,
                ..old(k).flags
            });
            let p = old(k).sched.prio_tbl.spec_highest();
            &&& r == Ok::<(), OsError>(())
            &&& final(k).flags == f2
            &&& final(k).sched == old(k).sched
            &&& final(k).tcbs == old(k).tcbs
            &&& final(k).pend_qs == old(k).pend_qs
            &&& (if f2.sched_lock_nesting == 0 && old(k).rdy(p).len() > 0 {
                &&& final(k).cpu == (CpuState {
                    prio_high_rdy: p as u8,
                    tcb_high_rdy: Some(old(k).rdy(p)[0]),
                    ..old(k).cpu
                })
                &&& final(k).ctx_sw_pending == (old(k).ctx_sw_pending || Some(
                    old(k).rdy(p)[0],
                ) != old(k).cpu.tcb_cur)
            } else {
                &&& final(k).cpu == old(k).cpu
                &&& final(k).ctx_sw_pending == old(k).ctx_sw_pending
            })
        },
{
    if !k.flags.is_running() {
        return Err(OsError::OsNotRunning);
    }
    if k.flags.int_nesting() > 0 {
        return Err(OsError::SchedUnlockIsr);
    }
    let r = k.flags.try_sched_unlock();
    match r {
        Err(e) => {
            proof {
                Kernel::lemma_inv_ctl_change(*old(k), *k);
            }
            Err(e)
        },
        Ok(remaining) => {
            proof {
                Kernel::lemma_inv_ctl_change(*old(k), *k);
            }
            if remaining == 0 {
                crate::sched::os_sched(k);
            }
            Ok(())
        },
    }
}

/// Kernels unchanged outside ready list `p`
pub open spec fn rdy_unchanged_except(a: Kernel, b: Kernel, p: int) -> bool {
    forall|p2: int| 0 <= p2 < CFG_PRIO_MAX as int && p2 != p ==> b.rdy(p2) == a.rdy(p2)
}

/// Kernels unchanged outside wheel slot `s`
pub open spec fn wheel_unchanged_except(a: Kernel, b: Kernel, s: int) -> bool {
    forall|s2: int| 0 <= s2 < CFG_TICK_WHEEL_SIZE as int && s2 != s ==> b.wheel(s2) == a.wheel(s2)
}

/// Kernels unchanged outside pend queue `q`
pub open spec fn pq_unchanged_except(a: Kernel, b: Kernel, q: int) -> bool {
    forall|q2: int| 0 <= q2 < a.n_qs() && q2 != q ==> b.pq(q2) == a.pq(q2)
}

} // verus!
