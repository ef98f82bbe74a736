//! Task Control Block (TCB) definition.
//!
//! The TCB holds all per-task bookkeeping. Tasks are identified by
//! their index in the kernel's TCB table; the kernel's lists (ready
//! lists, tick wheel, pend queues) store those indices.

use vstd::prelude::*;

use crate::types::OsFlags;
use crate::types::OsMsgSize;
use crate::types::OsNestingCtr;
use crate::types::OsOpt;
use crate::types::OsPendOn;
use crate::types::OsPendStatus;
use crate::types::OsPrio;
use crate::types::OsSemCtr;
use crate::types::OsTaskState;
use crate::types::OsTick;

verus! {

/// A state in which the task waits on a kernel object's pend queue
pub open spec fn is_pending_state(s: OsTaskState) -> bool {
    ||| s == OsTaskState::Pend
    ||| s == OsTaskState::PendTimeout
    ||| s == OsTaskState::PendSuspended
    ||| s == OsTaskState::PendTimeoutSuspended
}

/// A state in which the task sits in the tick wheel
pub open spec fn is_wheel_state(s: OsTaskState) -> bool {
    ||| s == OsTaskState::Delayed
    ||| s == OsTaskState::DelayedSuspended
    ||| s == OsTaskState::PendTimeout
    ||| s == OsTaskState::PendTimeoutSuspended
}

/// A state carrying the suspended mark
pub open spec fn is_suspended_state(s: OsTaskState) -> bool {
    ||| s == OsTaskState::Suspended
    ||| s == OsTaskState::DelayedSuspended
    ||| s == OsTaskState::PendSuspended
    ||| s == OsTaskState::PendTimeoutSuspended
}

/// A state in which the task waits for a tick-driven delay
pub open spec fn is_delayed_state(s: OsTaskState) -> bool {
    ||| s == OsTaskState::Delayed
    ||| s == OsTaskState::DelayedSuspended
}

/// Task Control Block
#[derive(Debug, Clone, Copy)]
pub struct OsTcb {
    /// Current stack pointer, saved on context switch
    pub stk_ptr: usize,
    /// Base address of the stack window
    pub stk_base: usize,
    /// Stack limit watermark
    pub stk_limit: usize,
    /// Stack size in words
    pub stk_size: usize,
    /// Task name
    pub name: &'static str,
    /// Pend queue of the object the task is pending on
    pub pend_obj: Option<usize>,
    /// What kind of object the task is pending on
    pub pend_on: OsPendOn,
    /// Result of the pend operation, written by the waker
    pub pend_status: OsPendStatus,
    /// Remaining ticks for delay/timeout
    pub tick_remain: OsTick,
    /// The tick wheel slot the task hashes to
    pub tick_wheel_slot: u8,
    /// Current priority
    pub prio: OsPrio,
    /// Base priority, restored when priority inheritance ends
    pub base_prio: OsPrio,
    /// Current lifecycle state
    pub task_state: OsTaskState,
    /// Task options
    pub opt: OsOpt,
    /// Suspend nesting counter
    pub suspend_ctr: OsNestingCtr,
    /// Time quanta for round-robin
    pub time_quanta: OsTick,
    /// Remaining time quanta
    pub time_quanta_ctr: OsTick,
    /// Task-specific semaphore counter
    pub sem_ctr: OsSemCtr,
    /// Flags being waited for
    pub flags_pend: OsFlags,
    /// Flags that made the task ready
    pub flags_rdy: OsFlags,
    /// Flag options
    pub flags_opt: OsOpt,
    /// Message size
    pub msg_size: OsMsgSize,
    /// Task entry point address
    pub task_entry_addr: usize,
}

impl OsTcb {
    /// Create a new TCB with default values
    pub fn new() -> (r: Self)
        ensures
            r == OsTcb::spec_default(),
    {
        OsTcb {
            stk_ptr: 0,
            stk_base: 0,
            stk_limit: 0,
            stk_size: 0,
            name: "",
            pend_obj: None,
            pend_on: OsPendOn::Nothing,
            pend_status: OsPendStatus::PendOk,
            tick_remain: 0,
            tick_wheel_slot: 0,
            prio: 0,
            base_prio: 0,
            task_state: OsTaskState::Ready,
            opt: 0,
            suspend_ctr: 0,
            time_quanta: 0,
            time_quanta_ctr: 0,
            sem_ctr: 0,
            flags_pend: 0,
            flags_rdy: 0,
            flags_opt: 0,
            msg_size: 0,
            task_entry_addr: 0,
        }
    }

    /// The default TCB value established by `new` and `init`
    pub open spec fn spec_default() -> OsTcb {
        OsTcb {
            stk_ptr: 0,
            stk_base: 0,
            stk_limit: 0,
            stk_size: 0,
            name: "",
            pend_obj: None,
            pend_on: OsPendOn::Nothing,
            pend_status: OsPendStatus::PendOk,
            tick_remain: 0,
            tick_wheel_slot: 0,
            prio: 0,
            base_prio: 0,
            task_state: OsTaskState::Ready,
            opt: 0,
            suspend_ctr: 0,
            time_quanta: 0,
            time_quanta_ctr: 0,
            sem_ctr: 0,
            flags_pend: 0,
            flags_rdy: 0,
            flags_opt: 0,
            msg_size: 0,
            task_entry_addr: 0,
        }
    }

    /// Reset the TCB to default values
    pub fn init(&mut self)
        ensures
            *final(self) == OsTcb::spec_default(),
    {
        *self = Self::new();
    }

    /// Check if the task is ready to run
    #[inline]
    pub fn is_ready(&self) -> (r: bool)
        ensures
            r == (self.task_state == OsTaskState::Ready),
    {
        self.task_state == OsTaskState::Ready
    }

    /// Check if the task is pending on a kernel object
    #[inline]
    pub fn is_pending(&self) -> (r: bool)
        ensures
            r == is_pending_state(self.task_state),
    {
        match self.task_state {
            OsTaskState::Pend => true,
            OsTaskState::PendTimeout => true,
            OsTaskState::PendSuspended => true,
            OsTaskState::PendTimeoutSuspended => true,
            _ => false,
        }
    }

    /// Check if the task is suspended
    #[inline]
    pub fn is_suspended(&self) -> (r: bool)
        ensures
            r == is_suspended_state(self.task_state),
    {
        match self.task_state {
            OsTaskState::Suspended => true,
            OsTaskState::DelayedSuspended => true,
            OsTaskState::PendSuspended => true,
            OsTaskState::PendTimeoutSuspended => true,
            _ => false,
        }
    }

    /// Check if the task is delayed
    #[inline]
    pub fn is_delayed(&self) -> (r: bool)
        ensures
            r == is_delayed_state(self.task_state),
    {
        match self.task_state {
            OsTaskState::Delayed => true,
            OsTaskState::DelayedSuspended => true,
            _ => false,
        }
    }
}

impl Default for OsTcb {
    fn default() -> (r: Self)
        ensures
            r == OsTcb::spec_default(),
    {
        Self::new()
    }
}

} // verus!
