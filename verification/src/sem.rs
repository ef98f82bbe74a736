//! Counting semaphore and the priority-ordered pend queue shared by
//! all kernel objects that tasks can block on.

use vstd::prelude::*;

use crate::seq_lemmas::lemma_insert_effect;
use crate::seq_lemmas::lemma_remove_effect;
use crate::types::OsPrio;

verus! {

/// One waiter in a pend queue: the waiting task and the priority it
/// had when it was queued
#[derive(Debug, Clone, Copy, PartialEq, Eq, Structural)]
pub struct PendEntry {
    pub task: usize,
    pub prio: OsPrio,
}

/// Waiters are queued in non-decreasing priority number (highest
/// priority first); equal priorities keep insertion order
pub open spec fn pend_sorted(s: Seq<PendEntry>) -> bool {
    forall|i: int, j: int| 0 <= i < j < s.len() ==> s[i].prio <= s[j].prio
}

/// No task is queued twice
pub open spec fn pend_tasks_unique(s: Seq<PendEntry>) -> bool {
    forall|i: int, j: int| 0 <= i < j < s.len() ==> s[i].task != s[j].task
}

/// Some entry of the queue is for task `t`
pub open spec fn pend_has_task(s: Seq<PendEntry>, t: usize) -> bool {
    exists|i: int| 0 <= i < s.len() && s[i].task == t
}

/// Pend queue for tasks waiting on a kernel object, kept in strict
/// priority order; viewed abstractly (`list@`) as the sequence of
/// entries from head to tail
pub struct PendList {
    entries: Vec<PendEntry>,
}

impl View for PendList {
    type V = Seq<PendEntry>;

    closed spec fn view(&self) -> Seq<PendEntry> {
        self.entries@
    }
}

impl PendList {
    /// Create a new empty pend queue
    pub fn new() -> (r: PendList)
        ensures
            r@ =~= Seq::<PendEntry>::empty(),
            r@.len() == 0,
    {
        PendList { entries: Vec::new() }
    }

    /// Reset the pend queue to empty
    pub fn init(&mut self)
        ensures
            final(self)@ =~= Seq::<PendEntry>::empty(),
            final(self)@.len() == 0,
    {
        self.entries = Vec::new();
    }

    /// Check if the queue is empty
    pub fn is_empty(&self) -> (r: bool)
        ensures
            r == (self@.len() == 0),
    {
        self.entries.len() == 0
    }

    /// Head of the queue: the highest-priority waiter
    pub fn head(&self) -> (r: Option<usize>)
        ensures
            r == (if self@.len() == 0 {
                Option::<usize>::None
            } else {
                Option::Some(self@[0].task)
            }),
    {
        if self.entries.len() == 0 {
            None
        } else {
            Some(self.entries[0].task)
        }
    }

    /// Number of queued waiters
    pub fn count(&self) -> (r: usize)
        ensures
            r == self@.len(),
    {
        self.entries.len()
    }

    /// The entry at a given position from the head
    pub fn get(&self, i: usize) -> (r: PendEntry)
        requires
            (i as int) < self@.len(),
        ensures
            r == self@[i as int],
    {
        self.entries[i]
    }

    /// Append a waiter at the tail, regardless of priority order
    pub fn insert(&mut self, task: usize, prio: OsPrio)
        ensures
            final(self)@ == old(self)@.push((PendEntry { task, prio })),
    {
        self.entries.push(PendEntry { task, prio });
    }

    /// Insert a waiter in priority order: before the first queued entry
    /// with a strictly larger priority number, so waiters of equal
    /// priority keep FIFO order
    pub fn insert_by_prio(&mut self, task: usize, prio: OsPrio)
        ensures
            final(self)@.len() == old(self)@.len() + 1,
            pend_sorted(old(self)@) ==> pend_sorted(final(self)@),
            forall|u: usize|
                pend_has_task(final(self)@, u) <==> (u == task || pend_has_task(old(self)@, u)),
            !pend_has_task(old(self)@, task) && pend_tasks_unique(old(self)@)
                ==> pend_tasks_unique(final(self)@),
            exists|k: int|
                #![auto]
                {
                    &&& 0 <= k <= old(self)@.len()
                    &&& final(self)@ == old(self)@.insert(k, (PendEntry { task, prio }))
                    &&& forall|i: int| 0 <= i < k ==> old(self)@[i].prio <= prio
                    &&& (k == old(self)@.len() || old(self)@[k].prio > prio)
                },
    {
        let ghost s = self.entries@;
        let ghost e = PendEntry { task, prio };
        let mut k: usize = 0;
        while k < self.entries.len() && self.entries[k].prio <= prio
            invariant
                self.entries@ == s,
                s == old(self)@,
                k <= s.len(),
                forall|i: int| 0 <= i < k ==> s[i].prio <= prio,
            decreases s.len() - k,
        {
            k = k + 1;
        }
        self.entries.insert(k, PendEntry { task, prio });
        proof {
            assert(k == s.len() || s[k as int].prio > prio);
            lemma_insert_effect(s, k as int, e);
            assert forall|u: usize|
                pend_has_task(final(self)@, u) <==> (u == task || pend_has_task(s, u)) by {
                let t2 = final(self)@;
                if pend_has_task(t2, u) {
                    let i = choose|i: int| 0 <= i < t2.len() && t2[i].task == u;
                    if i < k {
                        assert(s[i].task == u);
                    } else if i > k {
                        assert(s[i - 1].task == u);
                    }
                }
                if u == task {
                    assert(t2[k as int].task == u);
                }
                if pend_has_task(s, u) {
                    let i = choose|i: int| 0 <= i < s.len() && s[i].task == u;
                    if i < k {
                        assert(t2[i].task == u);
                    } else {
                        assert(t2[i + 1].task == u);
                    }
                }
            }
            let t2 = final(self)@;
            if pend_sorted(s) {
                assert forall|i: int, j: int|
                    0 <= i < j < t2.len() implies t2[i].prio <= t2[j].prio by {
                    let i0: int = if i < k {
                        i
                    } else {
                        i - 1
                    };
                    let j0: int = if j < k {
                        j
                    } else {
                        j - 1
                    };
                    if i == k {
                        assert(t2[i] == e);
                        assert(t2[j] == s[j0] && j0 >= k && j0 < s.len());
                        assert(s[k as int].prio <= s[j0].prio);
                    } else if j == k {
                        assert(t2[j] == e);
                        assert(t2[i] == s[i0] && i0 < k);
                    } else {
                        assert(t2[i] == s[i0] && t2[j] == s[j0]);
                    }
                }
            }
            if !pend_has_task(s, task) && pend_tasks_unique(s) {
                assert forall|i: int, j: int|
                    0 <= i < j < t2.len() implies t2[i].task != t2[j].task by {
                    let i0: int = if i < k {
                        i
                    } else {
                        i - 1
                    };
                    let j0: int = if j < k {
                        j
                    } else {
                        j - 1
                    };
                    if i == k {
                        assert(t2[j] == s[j0]);
                        assert(!(s[j0].task == task));
                    } else if j == k {
                        assert(t2[i] == s[i0]);
                        assert(!(s[i0].task == task));
                    } else {
                        assert(t2[i] == s[i0] && t2[j] == s[j0]);
                    }
                }
            }
        }
    }

    /// Remove the waiter entry of a task; a task that is not queued
    /// leaves the queue unchanged
    pub fn remove(&mut self, task: usize)
        ensures
            !pend_has_task(old(self)@, task) ==> final(self)@ == old(self)@,
            pend_has_task(old(self)@, task) ==> {
                &&& final(self)@.len() == old(self)@.len() - 1
                &&& exists|k: int|
                    #![auto]
                    {
                        &&& 0 <= k < old(self)@.len()
                        &&& old(self)@[k].task == task
                        &&& final(self)@ == old(self)@.remove(k)
                    }
            },
            pend_sorted(old(self)@) ==> pend_sorted(final(self)@),
            pend_tasks_unique(old(self)@) ==> {
                &&& pend_tasks_unique(final(self)@)
                &&& !pend_has_task(final(self)@, task)
                &&& forall|u: usize|
                    u != task ==> (pend_has_task(final(self)@, u) == pend_has_task(
                        old(self)@,
                        u,
                    ))
            },
    {
        let ghost s = self.entries@;
        let mut k: usize = 0;
        while k < self.entries.len()
            invariant
                self.entries@ == s,
                s == old(self)@,
                k <= s.len(),
                forall|i: int| 0 <= i < k ==> s[i].task != task,
            decreases s.len() - k,
        {
            if self.entries[k].task == task {
                self.entries.remove(k);
                proof {
                    lemma_remove_effect(s, k as int);
                    Self::lemma_remove_at(s, k as int, task);
                    assert(old(self)@ == s);
                    assert(pend_has_task(old(self)@, task));
                    assert(old(self)@[k as int].task == task);
                    assert(final(self)@ == old(self)@.remove(k as int));
                }
                return ;
            }
            k = k + 1;
        }
        proof {
            assert(!pend_has_task(s, task));
        }
    }

    // Removing the entry at index k preserves order, and with unique
    // tasks it removes exactly task `t` from the queue's task set.
    pub(crate) proof fn lemma_remove_at(s: Seq<PendEntry>, k: int, t: usize)
        requires
            0 <= k < s.len(),
            s[k].task == t,
        ensures
            pend_has_task(s, t),
            pend_sorted(s) ==> pend_sorted(s.remove(k)),
            pend_tasks_unique(s) ==> {
                &&& pend_tasks_unique(s.remove(k))
                &&& !pend_has_task(s.remove(k), t)
                &&& forall|u: usize|
                    u != t ==> (pend_has_task(s.remove(k), u) == pend_has_task(s, u))
            },
    {
        lemma_remove_effect(s, k);
        let r = s.remove(k);
        if pend_sorted(s) {
            assert forall|i: int, j: int| 0 <= i < j < r.len() implies r[i].prio <= r[j].prio by {
                let i0: int = if i < k {
                    i
                } else {
                    i + 1
                };
                let j0: int = if j < k {
                    j
                } else {
                    j + 1
                };
                assert(r[i] == s[i0] && r[j] == s[j0]);
            }
        }
        if pend_tasks_unique(s) {
            assert forall|i: int, j: int| 0 <= i < j < r.len() implies r[i].task != r[j].task by {
                let i0: int = if i < k {
                    i
                } else {
                    i + 1
                };
                let j0: int = if j < k {
                    j
                } else {
                    j + 1
                };
                assert(r[i] == s[i0] && r[j] == s[j0]);
            }
            assert forall|i: int| 0 <= i < r.len() implies r[i].task != t by {
                let i0: int = if i < k {
                    i
                } else {
                    i + 1
                };
                assert(r[i] == s[i0] && i0 != k);
            }
            assert forall|u: usize| u != t implies (pend_has_task(r, u) == pend_has_task(
                s,
                u,
            )) by {
                if pend_has_task(r, u) {
                    let i = choose|i: int| 0 <= i < r.len() && r[i].task == u;
                    let i0: int = if i < k {
                        i
                    } else {
                        i + 1
                    };
                    assert(s[i0].task == u);
                }
                if pend_has_task(s, u) {
                    let i = choose|i: int| 0 <= i < s.len() && s[i].task == u;
                    if i < k {
                        assert(r[i].task == u);
                    } else {
                        assert(i != k);
                        assert(r[i - 1].task == u);
                    }
                }
            }
        }
    }
}

impl Default for PendList {
    fn default() -> (r: Self)
        ensures
            r@.len() == 0,
    {
        Self::new()
    }
}

/// A task control block as a pend operation leaves it while the task
/// blocks on a kernel object's pend queue
pub open spec fn blocked_tcb(
    c: crate::tcb::OsTcb,
    q: usize,
    on: crate::types::OsPendOn,
    timeout: u32,
    slot: int,
) -> crate::tcb::OsTcb {
    crate::tcb::OsTcb {
        task_state: if timeout > 0 {
            crate::types::OsTaskState::PendTimeout
        } else {
            crate::types::OsTaskState::Pend
        },
        pend_on: on,
        pend_status: crate::types::OsPendStatus::PendOk,
        pend_obj: Some(q),
        tick_remain: timeout,
        tick_wheel_slot: if timeout > 0 {
            slot as u8
        } else {
            c.tick_wheel_slot
        },
        ..c
    }
}

/// Taking an available semaphore decreases its count by exactly one.
pub open spec fn sem_taken(s1: OsSem, s2: OsSem) -> bool {
    &&& s1.count > 0
    &&& s2 == (OsSem { count: (s1.count - 1) as u32, ..s1 })
}

/// Posting a semaphore with no waiter increases its count by exactly
/// one.
pub open spec fn sem_given(s1: OsSem, s2: OsSem) -> bool {
    &&& s1.count < u32::MAX
    &&& s2 == (OsSem { count: (s1.count + 1) as u32, ..s1 })
}

/// Counting semaphore. The waiters' pend queue lives in the kernel's
/// pend-queue table; the semaphore holds its id.
pub struct OsSem {
    /// Object type marker
    pub obj_type: crate::types::OsObjType,
    /// The semaphore's pend queue in the kernel, once a waiter needed one
    pub pend_q: Option<usize>,
    /// Current count
    pub count: crate::types::OsSemCtr,
}

/// What a call of the semaphore pend does, given the kernel and
/// semaphore it ran on (`ak`, `s1`), the kernel and semaphore it left
/// (`bk`, `s2`), the timeout and options, and its result: each
/// rejection leaves both untouched, an available count is taken, and
/// otherwise the running task blocks in the pend queue.
pub open spec fn sem_pend_post(
    ak: crate::kernel::Kernel,
    bk: crate::kernel::Kernel,
    s1: OsSem,
    s2: OsSem,
    timeout: crate::types::OsTick,
    pend_opt: crate::types::OsOpt,
    r: crate::error::OsResult<crate::types::OsSemCtr>,
) -> bool {
    &&& (ak.flags.int_nesting > 0 ==> r == Err::<u32, crate::error::OsError>(
        crate::error::OsError::PendIsr,
    ) && bk == ak && s2 == s1)
    &&& (ak.flags.int_nesting == 0 && !ak.flags.running ==> r == Err::<u32, crate::error::OsError>(
        crate::error::OsError::OsNotRunning,
    ) && bk == ak && s2 == s1)
    &&& (ak.flags.int_nesting == 0 && ak.flags.running && s1.obj_type
        != crate::types::OsObjType::Sem ==> r == Err::<u32, crate::error::OsError>(
        crate::error::OsError::ObjType,
    ) && bk == ak && s2 == s1)
    &&& ((ak.flags.int_nesting == 0 && ak.flags.running && s1.obj_type
        == crate::types::OsObjType::Sem) ==> {
        if s1.count > 0 {
            &&& r == Ok::<u32, crate::error::OsError>((s1.count - 1) as u32)
            &&& sem_taken(s1, s2)
            &&& bk == ak
        } else if pend_opt & crate::types::opt::PEND_NON_BLOCKING != 0 {
            r == Err::<u32, crate::error::OsError>(crate::error::OsError::PendWouldBlock) && bk
                == ak && s2 == s1
        } else if ak.flags.sched_lock_nesting > 0 {
            r == Err::<u32, crate::error::OsError>(crate::error::OsError::SchedLocked) && bk == ak
                && s2 == s1
        } else if ak.cpu.tcb_cur is None {
            r == Err::<u32, crate::error::OsError>(crate::error::OsError::TcbInvalid) && bk == ak
                && s2 == s1
        } else if ak.tcb_of(ak.cpu.tcb_cur->0).task_state != crate::types::OsTaskState::Ready {
            r == Err::<u32, crate::error::OsError>(crate::error::OsError::StateInvalid) && bk == ak
                && s2 == s1
        } else {
            let c = ak.cpu.tcb_cur->0;
            let p = ak.tcb_of(c).prio as int;
            let q = s2.pend_q->0;
            let expiry = ak.flags.tick_counter.wrapping_add(timeout);
            let s = (expiry as int) % (crate::config::CFG_TICK_WHEEL_SIZE as int);
            &&& r == Ok::<u32, crate::error::OsError>(s1.count)
            &&& s2.count == s1.count
            &&& s2.obj_type == s1.obj_type
            &&& (s1.pend_q is Some ==> s2.pend_q == s1.pend_q && bk.n_qs() == ak.n_qs())
            &&& (s1.pend_q is None ==> s2.pend_q == Some(ak.n_qs() as usize) && bk.n_qs()
                == ak.n_qs() + 1)
            &&& bk.tcbs@ == ak.tcbs@.update(
                c as int,
                blocked_tcb(ak.tcb_of(c), q, crate::types::OsPendOn::Semaphore, timeout, s),
            )
            &&& bk.rdy(p) == ak.rdy(p).remove_value(c)
            &&& crate::kernel::rdy_unchanged_except(ak, bk, p)
            &&& bk.flags == ak.flags
            &&& pend_has_task(bk.pq(q as int), c)
            &&& (s1.pend_q matches Some(q0) ==> bk.pq(q0 as int).len() == ak.pq(q0 as int).len()
                + 1 && (forall|u: usize|
                pend_has_task(bk.pq(q0 as int), u) <==> (u == c || pend_has_task(
                    ak.pq(q0 as int),
                    u,
                ))))
            &&& (timeout > 0 ==> bk.wheel(s) == ak.wheel(s).insert(0, c)
                && crate::kernel::wheel_unchanged_except(ak, bk, s))
            &&& (timeout == 0 ==> bk.sched.tick_wheel == ak.sched.tick_wheel)
            &&& crate::sched::sched_outcome_from(ak.cpu, ak.ctx_sw_pending, bk)
        }
    })
}

/// What a call of the semaphore post does, given the kernel and
/// semaphore it ran on (`ak`, `s1`), the kernel and semaphore it left
/// (`bk`, `s2`), the options, and its result: the highest-priority
/// waiter is woken if one is queued, otherwise the count grows unless
/// it is already full.
pub open spec fn sem_post_post(
    ak: crate::kernel::Kernel,
    bk: crate::kernel::Kernel,
    s1: OsSem,
    s2: OsSem,
    post_opt: crate::types::OsOpt,
    r: crate::error::OsResult<crate::types::OsSemCtr>,
) -> bool {
    &&& (s1.obj_type != crate::types::OsObjType::Sem ==> r == Err::<u32, crate::error::OsError>(
        crate::error::OsError::ObjType,
    ) && bk == ak && s2 == s1)
    &&& ((s1.obj_type == crate::types::OsObjType::Sem) ==> {
        if s1.waiters(ak).len() > 0 {
            let q = s1.pend_q->0;
            let w = ak.pq(q as int)[0].task;
            &&& r == Ok::<u32, crate::error::OsError>(s1.count)
            &&& s2 == s1
            &&& bk.tcbs@ == ak.tcbs@.update(w as int, woken_tcb(ak.tcb_of(w)))
            &&& bk.pq(q as int) == ak.pq(q as int).remove(0)
            &&& bk.rdy(ak.tcb_of(w).prio as int) == ak.rdy(ak.tcb_of(w).prio as int).push(w)
            &&& crate::kernel::rdy_unchanged_except(ak, bk, ak.tcb_of(w).prio as int)
            &&& bk.flags == ak.flags
            &&& (post_opt & crate::types::opt::POST_NO_SCHED == 0 && ak.flags.int_nesting == 0
                && ak.flags.running && ak.flags.sched_lock_nesting == 0
                ==> crate::sched::sched_outcome_from(ak.cpu, ak.ctx_sw_pending, bk))
            &&& (post_opt & crate::types::opt::POST_NO_SCHED != 0 ==> bk.cpu == ak.cpu
                && bk.ctx_sw_pending == ak.ctx_sw_pending)
        } else if s1.count == u32::MAX {
            r == Err::<u32, crate::error::OsError>(crate::error::OsError::SemOvf) && bk == ak && s2
                == s1
        } else {
            &&& r == Ok::<u32, crate::error::OsError>((s1.count + 1) as u32)
            &&& sem_given(s1, s2)
            &&& bk == ak
        }
    })
}

impl OsSem {
    /// The semaphore's pend queue id, if allocated, is a queue of the
    /// kernel
    pub open spec fn wf(self, k: crate::kernel::Kernel) -> bool {
        self.pend_q matches Some(q) ==> (q as int) < k.n_qs()
    }

    /// The semaphore's waiters in the kernel: its pend queue, or empty
    /// while it never had a waiter
    pub open spec fn waiters(self, k: crate::kernel::Kernel) -> Seq<PendEntry> {
        match self.pend_q {
            Some(q) => k.pq(q as int),
            None => Seq::empty(),
        }
    }

    /// Create a new semaphore with an initial count
    pub fn new(count: crate::types::OsSemCtr) -> (r: OsSem)
        ensures
            r == (OsSem { obj_type: crate::types::OsObjType::Sem, pend_q: None, count }),
    {
        OsSem { obj_type: crate::types::OsObjType::Sem, pend_q: None, count }
    }

    /// Initialize the semaphore: give it a fresh, empty pend queue and
    /// the initial count
    pub fn create(&mut self, k: &mut crate::kernel::Kernel, count: crate::types::OsSemCtr, name:
        &'static str) -> (r: crate::error::OsResult<()>)
        requires
            old(k).inv(),
            old(k).n_qs() < usize::MAX,
        ensures
            final(k).inv(),
            old(k).flags.int_nesting > 0 ==> r == Err::<(), crate::error::OsError>(
                crate::error::OsError::CreateIsr,
            ) && *final(k) == *old(k) && *final(self) == *old(self),
            old(k).flags.int_nesting == 0 ==> {
                &&& r == Ok::<(), crate::error::OsError>(())
                &&& final(self).obj_type == crate::types::OsObjType::Sem
                &&& final(self).count == count
                &&& final(self).pend_q matches Some(q) && q as int == old(k).n_qs()
                &&& final(self).wf(*final(k))
                &&& final(self).waiters(*final(k)).len() == 0
                &&& final(k).sched == old(k).sched
                &&& final(k).tcbs == old(k).tcbs
                &&& final(k).cpu == old(k).cpu
                &&& final(k).flags == old(k).flags
                &&& final(k).ctx_sw_pending == old(k).ctx_sw_pending
            },
    {
        let _ = name;
        if k.flags.int_nesting() > 0 {
            return Err(crate::error::OsError::CreateIsr);
        }
        let q = crate::kernel::os_alloc_pend_q(k);
        self.obj_type = crate::types::OsObjType::Sem;
        self.pend_q = Some(q);
        self.count = count;
        Ok(())
    }

    /// Wait on the semaphore. An available count is taken immediately;
    /// otherwise the caller blocks in the semaphore's pend queue in
    /// priority order (joining the tick wheel as well when a timeout
    /// is given), unless it asked not to block or the scheduler is
    /// locked. Blocking records a `PendOk` verdict in the caller's
    /// `pend_status`; a waker (a poster, a timeout) later records its
    /// own verdict there when it makes the task ready again.
    pub fn pend(&mut self, k: &mut crate::kernel::Kernel, timeout: crate::types::OsTick, pend_opt:
        crate::types::OsOpt) -> (r: crate::error::OsResult<crate::types::OsSemCtr>)
        requires
            old(k).inv(),
            old(self).wf(*old(k)),
            old(k).n_qs() < usize::MAX,
        ensures
            final(k).inv(),
            final(self).wf(*final(k)),
            sem_pend_post(*old(k), *final(k), *old(self), *final(self), timeout, pend_opt, r),
    {
        if k.flags.int_nesting() > 0 {
            return Err(crate::error::OsError::PendIsr);
        }
        if !k.flags.is_running() {
            return Err(crate::error::OsError::OsNotRunning);
        }
        if self.obj_type != crate::types::OsObjType::Sem {
            return Err(crate::error::OsError::ObjType);
        }
        if self.count > 0 {
            self.count = self.count - 1;
            return Ok(self.count);
        }
        if pend_opt & crate::types::opt::PEND_NON_BLOCKING != 0 {
            return Err(crate::error::OsError::PendWouldBlock);
        }
        if k.flags.sched_lock_nesting() > 0 {
            return Err(crate::error::OsError::SchedLocked);
        }
        let c = match k.cpu.tcb_cur_ptr() {
            Some(c) => c,
            None => {
                return Err(crate::error::OsError::TcbInvalid);
            },
        };
        if !k.tcbs[c].is_ready() {
            return Err(crate::error::OsError::StateInvalid);
        }
        let q = match self.pend_q {
            Some(q) => q,
            None => {
                let fresh = crate::kernel::os_alloc_pend_q(k);
                self.pend_q = Some(fresh);
                fresh
            },
        };
        let ghost a = *old(k);
        let ghost a1 = *k;
        let ghost p = a.tcb_of(c).prio as int;
        crate::sched::os_rdy_list_remove(k, c);
        let ghost m1 = *k;
        let now = k.flags.tick_get();
        let expiry = now.wrapping_add(timeout);
        crate::kernel::os_pend_block(k, c, q, crate::types::OsPendOn::Semaphore, timeout, expiry);
        proof {
            let s = (expiry as int) % (crate::config::CFG_TICK_WHEEL_SIZE as int);
            assert(k.tcbs@ =~= a.tcbs@.update(
                c as int,
                blocked_tcb(a.tcb_of(c), q, crate::types::OsPendOn::Semaphore, timeout, s),
            ));
            assert forall|p2: int|
                0 <= p2 < crate::config::CFG_PRIO_MAX as int && p2 != p implies k.rdy(p2)
                == a.rdy(p2) by {
                assert(m1.rdy(p2) == a1.rdy(p2));
                assert(k.rdy(p2) == m1.rdy(p2));
                assert(a1.rdy(p2) == a.rdy(p2));
            }
            assert(k.rdy(p) == a.rdy(p).remove_value(c));
            if timeout > 0 {
                assert forall|s2: int|
                    0 <= s2 < crate::config::CFG_TICK_WHEEL_SIZE as int && s2 != s implies k.wheel(
                    s2,
                ) == a.wheel(s2) by {
                    assert(k.wheel(s2) == m1.wheel(s2));
                    assert(m1.wheel(s2) == a.wheel(s2));
                }
            }
        }
        let ghost m2 = *k;
        crate::sched::os_sched(k);
        proof {
            assert(k.sched == m2.sched && k.tcbs == m2.tcbs);
            assert(crate::sched::sched_outcome_from(a.cpu, a.ctx_sw_pending, *k));
        }
        Ok(self.count)
    }

    /// Signal the semaphore: wake the highest-priority waiter if one
    /// is queued (removing it from the pend queue and, if it pended
    /// with a timeout, from the tick wheel), otherwise increase the
    /// count. Waking reschedules unless the caller asked not to or is
    /// in ISR context.
    pub fn post(&mut self, k: &mut crate::kernel::Kernel, post_opt: crate::types::OsOpt) -> (r:
        crate::error::OsResult<crate::types::OsSemCtr>)
        requires
            old(k).inv(),
            old(self).wf(*old(k)),
        ensures
            final(k).inv(),
            final(self).wf(*final(k)),
            sem_post_post(*old(k), *final(k), *old(self), *final(self), post_opt, r),
    {
        if self.obj_type != crate::types::OsObjType::Sem {
            return Err(crate::error::OsError::ObjType);
        }
        let qopt = self.pend_q;
        match qopt {
            Some(q) => {
                let head = k.pend_qs[q].head();
                match head {
                    Some(w) => {
                        proof {
                            assert(old(k).pq_member_ok(q as int, 0));
                        }
                        let ghost a = *old(k);
                        crate::kernel::os_pend_unblock(k, w, crate::types::OsPendStatus::PendOk);
                        let ghost m1 = *k;
                        crate::sched::os_rdy_list_insert(k, w);
                        proof {
                            assert(k.tcbs@ =~= a.tcbs@.update(w as int, woken_tcb(a.tcb_of(w))));
                            assert forall|p2: int|
                                0 <= p2 < crate::config::CFG_PRIO_MAX as int && p2 != a.tcb_of(
                                w,
                            ).prio as int implies k.rdy(p2) == a.rdy(p2) by {
                                assert(m1.rdy(p2) == a.rdy(p2));
                                assert(k.rdy(p2) == m1.rdy(p2));
                            }
                            assert(k.pq(q as int) == a.pq(q as int).remove(0)) by {
                                let kk = choose|kk: int|
                                    #![auto]
                                    {
                                        &&& 0 <= kk < a.pq(q as int).len()
                                        &&& a.pq(q as int)[kk].task == w
                                        &&& m1.pq(q as int) == a.pq(q as int).remove(kk)
                                    };
                                assert(pend_tasks_unique(a.pq(q as int)));
                                if kk != 0 {
                                    assert(a.pq(q as int)[0].task != a.pq(q as int)[kk].task);
                                }
                                assert(k.pq(q as int) == m1.pq(q as int));
                            }
                        }
                        let ghost m2 = *k;
                        let no_sched = (post_opt & crate::types::opt::POST_NO_SCHED) != 0;
                        let in_isr = k.flags.int_nesting() > 0;
                        if !no_sched && !in_isr {
                            crate::sched::os_sched(k);
                        }
                        proof {
                            assert(k.sched == m2.sched && k.tcbs == m2.tcbs);
                            if post_opt & crate::types::opt::POST_NO_SCHED == 0
                                && a.flags.int_nesting == 0 && a.flags.running
                                && a.flags.sched_lock_nesting == 0 {
                                assert(crate::sched::sched_outcome_from(
                                    a.cpu,
                                    a.ctx_sw_pending,
                                    *k,
                                ));
                            }
                        }
                        Ok(self.count)
                    },
                    None => {
                        if self.count == u32::MAX {
                            return Err(crate::error::OsError::SemOvf);
                        }
                        self.count = self.count + 1;
                        Ok(self.count)
                    },
                }
            },
            None => {
                if self.count == u32::MAX {
                    return Err(crate::error::OsError::SemOvf);
                }
                self.count = self.count + 1;
                Ok(self.count)
            },
        }
    }

    /// Get the current semaphore count
    #[inline]
    pub fn count(&self) -> (r: crate::types::OsSemCtr)
        ensures
            r == self.count,
    {
        self.count
    }

    /// Overwrite the semaphore count; rejected from ISR context
    pub fn set(&mut self, k: &crate::kernel::Kernel, count: crate::types::OsSemCtr) -> (r:
        crate::error::OsResult<()>)
        ensures
            k.flags.int_nesting > 0 ==> r == Err::<(), crate::error::OsError>(
                crate::error::OsError::AcceptIsr,
            ) && *final(self) == *old(self),
            k.flags.int_nesting == 0 ==> r == Ok::<(), crate::error::OsError>(()) && *final(self)
                == (OsSem { count, ..*old(self) }),
    {
        if k.flags.int_nesting() > 0 {
            return Err(crate::error::OsError::AcceptIsr);
        }
        self.count = count;
        Ok(())
    }
}

/// A task control block as a wake-up by a poster leaves it: ready,
/// with the pend bookkeeping cleared and the pend verdict recorded
pub open spec fn woken_tcb(c: crate::tcb::OsTcb) -> crate::tcb::OsTcb {
    crate::tcb::OsTcb {
        task_state: crate::types::OsTaskState::Ready,
        pend_on: crate::types::OsPendOn::Nothing,
        pend_obj: None,
        pend_status: crate::types::OsPendStatus::PendOk,
        tick_remain: 0,
        ..c
    }
}

/// Counting semaphore handle, the application-facing wrapper
pub struct Semaphore {
    pub inner: OsSem,
}

impl Semaphore {
    pub fn new(count: crate::types::OsSemCtr) -> (r: Semaphore)
        ensures
            r.inner == (OsSem {
                obj_type: crate::types::OsObjType::Sem,
                pend_q: None,
                count,
            }),
    {
        Semaphore { inner: OsSem::new(count) }
    }

    pub fn create(&mut self, k: &mut crate::kernel::Kernel, count: crate::types::OsSemCtr, name:
        &'static str) -> (r: crate::error::OsResult<()>)
        requires
            old(k).inv(),
            old(self).inner.wf(*old(k)),
            old(k).n_qs() < usize::MAX,
        ensures
            final(k).inv(),
            final(self).inner.wf(*final(k)),
            old(k).flags.int_nesting == 0 ==> final(self).inner.obj_type
                == crate::types::OsObjType::Sem && final(self).inner.count == count && final(self).inner.waiters(*final(k)).len() == 0,
    {
        let r = self.inner.create(k, count, name);
        r
    }

    pub fn wait(&mut self, k: &mut crate::kernel::Kernel, timeout: crate::types::OsTick, opt:
        crate::types::OsOpt) -> (r: crate::error::OsResult<crate::types::OsSemCtr>)
        requires
            old(k).inv(),
            old(self).inner.wf(*old(k)),
            old(k).n_qs() < usize::MAX,
        ensures
            final(k).inv(),
            final(self).inner.wf(*final(k)),
            sem_pend_post(*old(k), *final(k), old(self).inner, final(self).inner, timeout, opt, r),
    {
        self.inner.pend(k, timeout, opt)
    }

    pub fn signal(&mut self, k: &mut crate::kernel::Kernel, opt: crate::types::OsOpt) -> (r:
        crate::error::OsResult<crate::types::OsSemCtr>)
        requires
            old(k).inv(),
            old(self).inner.wf(*old(k)),
        ensures
            final(k).inv(),
            final(self).inner.wf(*final(k)),
            sem_post_post(*old(k), *final(k), old(self).inner, final(self).inner, opt, r),
    {
        self.inner.post(k, opt)
    }

    #[inline]
    pub fn count(&self) -> (r: crate::types::OsSemCtr)
        ensures
            r == self.inner.count,
    {
        self.inner.count()
    }
}

} // verus!
