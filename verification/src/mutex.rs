//! Recursive mutex with priority inheritance.
//!
//! The owner of a contended mutex is boosted to the priority of its
//! highest-priority waiter, preventing unbounded priority inversion,
//! and returns to its base priority when it releases the mutex.

use vstd::prelude::*;

use crate::config::CFG_TICK_WHEEL_SIZE;
use crate::error::OsError;
use crate::error::OsResult;
use crate::kernel::Kernel;
use crate::kernel::os_alloc_pend_q;
use crate::kernel::os_pend_block;
use crate::kernel::os_pend_unblock;
use crate::sched::os_rdy_list_change_prio;
use crate::sched::os_rdy_list_insert;
use crate::sched::os_rdy_list_remove;
use crate::sched::os_sched;
use crate::sched::os_set_prio_unlisted;
use crate::sched::sched_outcome_from;
use crate::sem::blocked_tcb;
use crate::sem::pend_has_task;
use crate::sem::pend_tasks_unique;
use crate::sem::woken_tcb;
use crate::tcb::OsTcb;
use crate::types::OsNestingCtr;
use crate::types::OsObjType;
use crate::types::OsOpt;
use crate::types::OsPendOn;
use crate::types::OsPendStatus;
use crate::types::OsPrio;
use crate::types::OsTaskState;
use crate::types::OsTick;
use crate::types::opt;

verus! {

/// Taking a free mutex records the caller as owner at nesting one.
pub open spec fn mutex_acquired(m1: OsMutex, m2: OsMutex, c: usize) -> bool {
    &&& m1.owner is None
    &&& m2 == (OsMutex { owner: Some(c), nesting_ctr: 1, ..m1 })
}

/// Releasing a mutex completely, with nobody waiting, leaves it
/// unowned at nesting zero.
pub open spec fn mutex_released(m1: OsMutex, m2: OsMutex) -> bool {
    &&& m2.owner is None
    &&& m2.nesting_ctr == 0
    &&& m2 == (OsMutex { owner: None, nesting_ctr: 0, ..m1 })
}

/// The TCB of a task whose inherited priority ends: back at its base
/// priority
pub open spec fn restored_tcb(c: OsTcb) -> OsTcb {
    OsTcb { prio: c.base_prio, ..c }
}

/// What a call of the mutex pend does, given the kernel and mutex it
/// ran on (`ak`, `m1`), the kernel and mutex it left (`bk`, `m2`), the
/// timeout and options, and its result: a free mutex is taken, an
/// owned one is re-taken by its owner or blocks the caller after
/// boosting a lower-priority owner.
pub open spec fn mutex_pend_post(
    ak: Kernel,
    bk: Kernel,
    m1: OsMutex,
    m2: OsMutex,
    timeout: OsTick,
    pend_opt: OsOpt,
    r: OsResult<()>,
) -> bool {
    &&& (ak.flags.int_nesting > 0 ==> r == Err::<(), OsError>(OsError::PendIsr) && bk == ak && m2
        == m1)
    &&& (ak.flags.int_nesting == 0 && !ak.flags.running ==> r == Err::<(), OsError>(
        OsError::OsNotRunning,
    ) && bk == ak && m2 == m1)
    &&& (ak.flags.int_nesting == 0 && ak.flags.running && m1.obj_type != OsObjType::Mutex ==> r
        == Err::<(), OsError>(OsError::ObjType) && bk == ak && m2 == m1)
    &&& (ak.flags.int_nesting == 0 && ak.flags.running && m1.obj_type == OsObjType::Mutex
        && ak.cpu.tcb_cur is None ==> r == Err::<(), OsError>(OsError::TcbInvalid) && bk == ak
        && m2 == m1)
    &&& ((ak.flags.int_nesting == 0 && ak.flags.running && m1.obj_type == OsObjType::Mutex) ==> (
    ak.cpu.tcb_cur matches Some(c) ==> {
        if m1.owner is None {
            &&& r == Ok::<(), OsError>(())
            &&& mutex_acquired(m1, m2, c)
            &&& bk == ak
        } else if m1.owner == Some(c) {
            if m1.nesting_ctr == 255 {
                r == Err::<(), OsError>(OsError::MutexOvf) && bk == ak && m2 == m1
            } else {
                &&& r == Ok::<(), OsError>(())
                &&& m2 == (OsMutex { nesting_ctr: (m1.nesting_ctr + 1) as u8, ..m1 })
                &&& bk == ak
            }
        } else if pend_opt & opt::PEND_NON_BLOCKING != 0 {
            r == Err::<(), OsError>(OsError::PendWouldBlock) && bk == ak && m2 == m1
        } else if ak.flags.sched_lock_nesting > 0 {
            r == Err::<(), OsError>(OsError::SchedLocked) && bk == ak && m2 == m1
        } else if ak.tcb_of(c).task_state != OsTaskState::Ready {
            r == Err::<(), OsError>(OsError::StateInvalid) && bk == ak && m2 == m1
        } else {
            let o = m1.owner->0;
            let pc = ak.tcb_of(c).prio;
            let po = ak.tcb_of(o).prio;
            let boosted = pc < po;
            let otcb2 = if boosted {
                (OsTcb { prio: pc, ..ak.tcb_of(o) })
            } else {
                ak.tcb_of(o)
            };
            let q = m2.pend_q->0;
            let expiry = ak.flags.tick_counter.wrapping_add(timeout);
            let s = (expiry as int) % (CFG_TICK_WHEEL_SIZE as int);
            &&& r == Ok::<(), OsError>(())
            &&& m2.owner == m1.owner
            &&& m2.nesting_ctr == m1.nesting_ctr
            &&& m2.obj_type == m1.obj_type
            &&& (m1.pend_q is Some ==> m2.pend_q == m1.pend_q && bk.n_qs() == ak.n_qs())
            &&& (m1.pend_q is None ==> m2.pend_q == Some(ak.n_qs() as usize) && bk.n_qs()
                == ak.n_qs() + 1)
            &&& bk.tcbs@ == ak.tcbs@.update(o as int, otcb2).update(
                c as int,
                blocked_tcb(ak.tcb_of(c), q, OsPendOn::Mutex, timeout, s),
            )
            &&& bk.tcb_of(o).prio == (if boosted {
                pc
            } else {
                po
            })
            &&& bk.flags == ak.flags
            &&& pend_has_task(bk.pq(q as int), c)
            &&& (timeout > 0 ==> bk.wheel(s) == ak.wheel(s).insert(0, c)
                && crate::kernel::wheel_unchanged_except(ak, bk, s))
            &&& (timeout == 0 ==> bk.sched.tick_wheel == ak.sched.tick_wheel)
            &&& sched_outcome_from(ak.cpu, ak.ctx_sw_pending, bk)
        }
    }))
}

/// What a call of the mutex post does, given the kernel and mutex it
/// ran on (`ak`, `m1`), the kernel and mutex it left (`bk`, `m2`), the
/// options, and its result: only the owner may release; a recursive
/// hold drops the nesting, and the final release restores the owner's
/// base priority and hands the mutex to the highest-priority waiter.
pub open spec fn mutex_post_post(
    ak: Kernel,
    bk: Kernel,
    m1: OsMutex,
    m2: OsMutex,
    post_opt: OsOpt,
    r: OsResult<()>,
) -> bool {
    &&& (ak.flags.int_nesting > 0 ==> r == Err::<(), OsError>(OsError::AcceptIsr) && bk == ak
        && m2 == m1)
    &&& (ak.flags.int_nesting == 0 && !ak.flags.running ==> r == Err::<(), OsError>(
        OsError::OsNotRunning,
    ) && bk == ak && m2 == m1)
    &&& (ak.flags.int_nesting == 0 && ak.flags.running && m1.obj_type != OsObjType::Mutex ==> r
        == Err::<(), OsError>(OsError::ObjType) && bk == ak && m2 == m1)
    &&& (ak.flags.int_nesting == 0 && ak.flags.running && m1.obj_type == OsObjType::Mutex
        && ak.cpu.tcb_cur is None ==> r == Err::<(), OsError>(OsError::TcbInvalid) && bk == ak
        && m2 == m1)
    &&& ((ak.flags.int_nesting == 0 && ak.flags.running && m1.obj_type == OsObjType::Mutex) ==> (
    ak.cpu.tcb_cur matches Some(c) ==> {
        if m1.owner != Some(c) {
            r == Err::<(), OsError>(OsError::MutexNotOwner) && bk == ak && m2 == m1
        } else if m1.nesting_ctr > 1 {
            &&& r == Ok::<(), OsError>(())
            &&& m2 == (OsMutex { nesting_ctr: (m1.nesting_ctr - 1) as u8, ..m1 })
            &&& bk == ak
        } else {
            let ctcb2 = restored_tcb(ak.tcb_of(c));
            &&& r == Ok::<(), OsError>(())
            &&& bk.tcb_of(c).prio == ak.tcb_of(c).base_prio
            &&& bk.flags == ak.flags
            &&& (if m1.waiters(ak).len() > 0 {
                let q = m1.pend_q->0;
                let w = ak.pq(q as int)[0].task;
                &&& m2 == (OsMutex { owner: Some(w), nesting_ctr: 1, ..m1 })
                &&& bk.tcbs@ == ak.tcbs@.update(c as int, ctcb2).update(
                    w as int,
                    woken_tcb((if w != c {
                        ak.tcb_of(w)
                    } else {
                        ctcb2
                    })),
                )
                &&& bk.pq(q as int) == ak.pq(q as int).remove(0)
                &&& (post_opt & opt::POST_NO_SCHED == 0 && ak.flags.sched_lock_nesting == 0
                    ==> sched_outcome_from(ak.cpu, ak.ctx_sw_pending, bk))
            } else {
                &&& m2 == (OsMutex { owner: None, nesting_ctr: 0, ..m1 })
                &&& mutex_released(m1, m2)
                &&& bk.tcbs@ == ak.tcbs@.update(c as int, ctcb2)
                &&& bk.pend_qs == ak.pend_qs
                &&& bk.cpu == ak.cpu
                &&& bk.ctx_sw_pending == ak.ctx_sw_pending
            })
        }
    }))
}

/// Mutex with priority inheritance. The waiters' pend queue lives in
/// the kernel's pend-queue table; the mutex holds its id.
pub struct OsMutex {
    /// Object type marker
    pub obj_type: OsObjType,
    /// The mutex's pend queue in the kernel, once a waiter needed one
    pub pend_q: Option<usize>,
    /// Task that owns the mutex
    pub owner: Option<usize>,
    /// Recursion nesting counter
    pub nesting_ctr: OsNestingCtr,
}

impl OsMutex {
    /// The mutex's references into the kernel are valid
    pub open spec fn wf(self, k: Kernel) -> bool {
        &&& (self.pend_q matches Some(q) ==> (q as int) < k.n_qs())
        &&& (self.owner matches Some(o) ==> k.is_tid(o))
    }

    /// The mutex's waiters in the kernel: its pend queue, or empty
    /// while it never had a waiter
    pub open spec fn waiters(self, k: Kernel) -> Seq<crate::sem::PendEntry> {
        match self.pend_q {
            Some(q) => k.pq(q as int),
            None => Seq::empty(),
        }
    }

    /// Create a new, unowned mutex
    pub fn new() -> (r: OsMutex)
        ensures
            r == (OsMutex {
                obj_type: OsObjType::Mutex,
                pend_q: None,
                owner: None,
                nesting_ctr: 0,
            }),
    {
        OsMutex { obj_type: OsObjType::Mutex, pend_q: None, owner: None, nesting_ctr: 0 }
    }

    /// Initialize the mutex: give it a fresh, empty pend queue and no
    /// owner
    pub fn create(&mut self, k: &mut Kernel, name: &'static str) -> (r: OsResult<()>)
        requires
            old(k).inv(),
            old(k).n_qs() < usize::MAX,
        ensures
            final(k).inv(),
            old(k).flags.int_nesting > 0 ==> r == Err::<(), OsError>(OsError::CreateIsr)
                && *final(k) == *old(k) && *final(self) == *old(self),
            old(k).flags.int_nesting == 0 ==> {
                &&& r == Ok::<(), OsError>(())
                &&& final(self).obj_type == OsObjType::Mutex
                &&& final(self).owner is None
                &&& final(self).nesting_ctr == 0
                &&& final(self).wf(*final(k))
                &&& final(self).waiters(*final(k)).len() == 0
                &&& final(k).sched == old(k).sched
                &&& final(k).tcbs == old(k).tcbs
                &&& final(k).cpu == old(k).cpu
                &&& final(k).flags == old(k).flags
                &&& final(k).ctx_sw_pending == old(k).ctx_sw_pending
            },
    {
        let _ = name;
        if k.flags.int_nesting() > 0 {
            return Err(OsError::CreateIsr);
        }
        let q = os_alloc_pend_q(k);
        self.obj_type = OsObjType::Mutex;
        self.pend_q = Some(q);
        self.owner = None;
        self.nesting_ctr = 0;
        Ok(())
    }

    /// Acquire the mutex. A free mutex is taken at once; the owner may
    /// re-take it recursively. Otherwise the caller blocks in priority
    /// order, first boosting a lower-priority owner to the caller's
    /// priority so it cannot be starved by middle-priority tasks.
    /// Blocking records a `PendOk` verdict in the caller's
    /// `pend_status`; the releasing owner or a timeout later records
    /// its own verdict there when it makes the task ready again.
    pub fn pend(&mut self, k: &mut Kernel, timeout: OsTick, pend_opt: OsOpt) -> (r: OsResult<()>)
        requires
            old(k).inv(),
            old(self).wf(*old(k)),
            old(k).n_qs() < usize::MAX,
        ensures
            final(k).inv(),
            final(self).wf(*final(k)),
            mutex_pend_post(*old(k), *final(k), *old(self), *final(self), timeout, pend_opt, r),
    {
        if k.flags.int_nesting() > 0 {
            return Err(OsError::PendIsr);
        }
        if !k.flags.is_running() {
            return Err(OsError::OsNotRunning);
        }
        if self.obj_type != OsObjType::Mutex {
            return Err(OsError::ObjType);
        }
        let c = match k.cpu.tcb_cur_ptr() {
            Some(c) => c,
            None => {
                return Err(OsError::TcbInvalid);
            },
        };
        let o = match self.owner {
            Some(o) => o,
            None => {
                self.owner = Some(c);
                self.nesting_ctr = 1;
                return Ok(());
            },
        };
        if o == c {
            if self.nesting_ctr == 255 {
                return Err(OsError::MutexOvf);
            }
            self.nesting_ctr = self.nesting_ctr + 1;
            return Ok(());
        }
        if pend_opt & opt::PEND_NON_BLOCKING != 0 {
            return Err(OsError::PendWouldBlock);
        }
        if k.flags.sched_lock_nesting() > 0 {
            return Err(OsError::SchedLocked);
        }
        if !k.tcbs[c].is_ready() {
            return Err(OsError::StateInvalid);
        }
        let ghost a = *old(k);
        // Priority inheritance: raise a lower-priority owner to the
        // caller's priority.
        let cur_prio = k.tcbs[c].prio;
        proof {
            assert(a.tcb_fields_ok(o));
            assert(a.tcb_fields_ok(c));
        }
        if cur_prio < k.tcbs[o].prio {
            if k.tcbs[o].is_ready() {
                os_rdy_list_change_prio(k, o, cur_prio);
            } else {
                os_set_prio_unlisted(k, o, cur_prio);
            }
        }
        let q = match self.pend_q {
            Some(q) => q,
            None => {
                let fresh = os_alloc_pend_q(k);
                self.pend_q = Some(fresh);
                fresh
            },
        };
        let ghost a1 = *k;
        os_rdy_list_remove(k, c);
        let now = k.flags.tick_get();
        let expiry = now.wrapping_add(timeout);
        os_pend_block(k, c, q, OsPendOn::Mutex, timeout, expiry);
        proof {
            let s = (expiry as int) % (CFG_TICK_WHEEL_SIZE as int);
            let pc = a.tcb_of(c).prio;
            let po = a.tcb_of(o).prio;
            let otcb2 = if pc < po {
                (OsTcb { prio: pc, ..a.tcb_of(o) })
            } else {
                a.tcb_of(o)
            };
            assert(k.tcbs@ =~= a.tcbs@.update(o as int, otcb2).update(
                c as int,
                blocked_tcb(a.tcb_of(c), q, OsPendOn::Mutex, timeout, s),
            ));
            if timeout > 0 {
                assert forall|s2: int|
                    0 <= s2 < CFG_TICK_WHEEL_SIZE as int && s2 != s implies k.wheel(s2) == a.wheel(
                    s2,
                ) by {
                    assert(k.wheel(s2) == a1.wheel(s2));
                    assert(a1.wheel(s2) == a.wheel(s2));
                }
            }
        }
        let ghost m2 = *k;
        os_sched(k);
        proof {
            assert(k.sched == m2.sched && k.tcbs == m2.tcbs);
            assert(sched_outcome_from(a.cpu, a.ctx_sw_pending, *k));
        }
        Ok(())
    }

    /// Release the mutex; only the owner may release. A recursive hold
    /// only drops the nesting count. The final release restores the
    /// owner's base priority and hands the mutex to the
    /// highest-priority waiter, if one is queued.
    pub fn post(&mut self, k: &mut Kernel, post_opt: OsOpt) -> (r: OsResult<()>)
        requires
            old(k).inv(),
            old(self).wf(*old(k)),
        ensures
            final(k).inv(),
            final(self).wf(*final(k)),
            mutex_post_post(*old(k), *final(k), *old(self), *final(self), post_opt, r),
    {
        if k.flags.int_nesting() > 0 {
            return Err(OsError::AcceptIsr);
        }
        if !k.flags.is_running() {
            return Err(OsError::OsNotRunning);
        }
        if self.obj_type != OsObjType::Mutex {
            return Err(OsError::ObjType);
        }
        let c = match k.cpu.tcb_cur_ptr() {
            Some(c) => c,
            None => {
                return Err(OsError::TcbInvalid);
            },
        };
        let owner_is_cur = match self.owner {
            Some(o) => o == c,
            None => false,
        };
        if !owner_is_cur {
            return Err(OsError::MutexNotOwner);
        }
        if self.nesting_ctr > 1 {
            self.nesting_ctr = self.nesting_ctr - 1;
            return Ok(());
        }
        self.nesting_ctr = 0;
        let ghost a = *old(k);
        proof {
            assert(a.tcb_fields_ok(c));
        }
        // Restore the releasing task's base priority if it was boosted.
        let base = k.tcbs[c].base_prio;
        if k.tcbs[c].prio != base {
            if k.tcbs[c].is_ready() {
                os_rdy_list_change_prio(k, c, base);
            } else {
                os_set_prio_unlisted(k, c, base);
            }
        }
        proof {
            assert(k.tcbs@ =~= a.tcbs@.update(c as int, restored_tcb(a.tcb_of(c))));
        }
        let ghost a1 = *k;
        let qopt = self.pend_q;
        let mut woke = false;
        match qopt {
            Some(q) => {
                let head = k.pend_qs[q].head();
                match head {
                    Some(w) => {
                        proof {
                            assert(a1.pq_member_ok(q as int, 0));
                        }
                        os_pend_unblock(k, w, OsPendStatus::PendOk);
                        os_rdy_list_insert(k, w);
                        self.owner = Some(w);
                        self.nesting_ctr = 1;
                        woke = true;
                        proof {
                            if w != c {
                                assert(k.tcbs@ =~= a.tcbs@.update(
                                    c as int,
                                    restored_tcb(a.tcb_of(c)),
                                ).update(w as int, woken_tcb(a.tcb_of(w))));
                            } else {
                                assert(k.tcbs@ =~= a.tcbs@.update(
                                    c as int,
                                    restored_tcb(a.tcb_of(c)),
                                ).update(w as int, woken_tcb(restored_tcb(a.tcb_of(c)))));
                            }
                            assert(k.pq(q as int) == a.pq(q as int).remove(0)) by {
                                let kk = choose|kk: int|
                                    #![auto]
                                    {
                                        &&& 0 <= kk < a1.pq(q as int).len()
                                        &&& a1.pq(q as int)[kk].task == w
                                        &&& k.pq(q as int) == a1.pq(q as int).remove(kk)
                                    };
                                assert(pend_tasks_unique(a1.pq(q as int)));
                                if kk != 0 {
                                    assert(a1.pq(q as int)[0].task != a1.pq(q as int)[kk].task);
                                }
                                assert(a1.pq(q as int) == a.pq(q as int));
                            }
                        }
                    },
                    None => {
                        self.owner = None;
                    },
                }
            },
            None => {
                self.owner = None;
            },
        }
        let ghost m2 = *k;
        if woke {
            let no_sched = (post_opt & opt::POST_NO_SCHED) != 0;
            if !no_sched {
                os_sched(k);
            }
        }
        proof {
            assert(k.sched == m2.sched && k.tcbs == m2.tcbs);
            if a.flags.sched_lock_nesting == 0 && post_opt & opt::POST_NO_SCHED == 0 {
                assert(sched_outcome_from(a.cpu, a.ctx_sw_pending, *k) || !woke);
            }
        }
        Ok(())
    }

    /// Check whether the mutex is owned
    #[inline]
    pub fn is_owned(&self) -> (r: bool)
        ensures
            r == (self.owner is Some),
    {
        match self.owner {
            Some(_) => true,
            None => false,
        }
    }

    /// The current priority of the owning task, if any
    pub fn owner_prio(&self, k: &Kernel) -> (r: Option<OsPrio>)
        requires
            k.inv(),
            self.wf(*k),
        ensures
            r == (match self.owner {
                Some(o) => Some(k.tcb_of(o).prio),
                None => None::<OsPrio>,
            }),
    {
        match self.owner {
            Some(o) => Some(k.tcbs[o].prio),
            None => None,
        }
    }
}

/// Mutex handle, the application-facing wrapper
pub struct Mutex {
    pub inner: OsMutex,
}

impl Mutex {
    pub fn new() -> (r: Mutex)
        ensures
            r.inner == (OsMutex {
                obj_type: OsObjType::Mutex,
                pend_q: None,
                owner: None,
                nesting_ctr: 0,
            }),
    {
        Mutex { inner: OsMutex::new() }
    }

    pub fn create(&mut self, k: &mut Kernel, name: &'static str) -> (r: OsResult<()>)
        requires
            old(k).inv(),
            old(self).inner.wf(*old(k)),
            old(k).n_qs() < usize::MAX,
        ensures
            final(k).inv(),
            final(self).inner.wf(*final(k)),
            old(k).flags.int_nesting == 0 ==> final(self).inner.obj_type == OsObjType::Mutex
                && final(self).inner.owner is None && final(self).inner.nesting_ctr == 0 && final(self).inner.waiters(*final(k)).len() == 0,
    {
        self.inner.create(k, name)
    }

    pub fn lock(&mut self, k: &mut Kernel, timeout: OsTick, opt_flags: OsOpt) -> (r: OsResult<()>)
        requires
            old(k).inv(),
            old(self).inner.wf(*old(k)),
            old(k).n_qs() < usize::MAX,
        ensures
            final(k).inv(),
            final(self).inner.wf(*final(k)),
            mutex_pend_post(
                *old(k),
                *final(k),
                old(self).inner,
                final(self).inner,
                timeout,
                opt_flags,
                r,
            ),
    {
        self.inner.pend(k, timeout, opt_flags)
    }

    pub fn unlock(&mut self, k: &mut Kernel, opt_flags: OsOpt) -> (r: OsResult<()>)
        requires
            old(k).inv(),
            old(self).inner.wf(*old(k)),
        ensures
            final(k).inv(),
            final(self).inner.wf(*final(k)),
            mutex_post_post(
                *old(k),
                *final(k),
                old(self).inner,
                final(self).inner,
                opt_flags,
                r,
            ),
    {
        self.inner.post(k, opt_flags)
    }

    #[inline]
    pub fn is_owned(&self) -> (r: bool)
        ensures
            r == (self.inner.owner is Some),
    {
        self.inner.is_owned()
    }
}

} // verus!
