//! Core type definitions for the kernel.
//!
//! These types provide strong typing for the kernel primitives.

use vstd::prelude::*;

pub mod opt;

verus! {

/// Task priority (0 = highest priority)
pub type OsPrio = u8;

/// Tick counter type
pub type OsTick = u32;

/// Semaphore counter type
pub type OsSemCtr = u32;

/// Nesting counter
pub type OsNestingCtr = u8;

/// Option flags for API calls
pub type OsOpt = u16;

/// Message size type
pub type OsMsgSize = usize;

/// Object quantity type
pub type OsObjQty = u16;

/// Stack element type
pub type OsStkElement = u32;

/// Event flags type
pub type OsFlags = u32;

/// Task lifecycle state
#[derive(Debug, Clone, Copy, PartialEq, Eq, Structural)]
pub enum OsTaskState {
    /// Task is ready to run
    Ready,
    /// Task is delayed
    Delayed,
    /// Task is pending on a kernel object
    Pend,
    /// Task is pending with timeout
    PendTimeout,
    /// Task is suspended
    Suspended,
    /// Task is delayed and suspended
    DelayedSuspended,
    /// Task is pending and suspended
    PendSuspended,
    /// Task is pending with timeout and suspended
    PendTimeoutSuspended,
}

/// What kind of object a task is pending on
#[derive(Debug, Clone, Copy, PartialEq, Eq, Structural)]
pub enum OsPendOn {
    Nothing,
    Flag,
    Mutex,
    Queue,
    Semaphore,
    TaskSem,
    TaskQueue,
    Cond,
}

/// Outcome of a pend operation, written by the waker
#[derive(Debug, Clone, Copy, PartialEq, Eq, Structural)]
pub enum OsPendStatus {
    /// Pend succeeded
    PendOk,
    /// Pend was aborted
    Abort,
    /// Object was deleted while pending
    Del,
    /// Timeout occurred
    Timeout,
}

/// Kernel object type marker, used only for sanity checks
#[derive(Debug, Clone, Copy, PartialEq, Eq, Structural)]
pub enum OsObjType {
    NoObj,
    Flag,
    Mem,
    Mutex,
    Queue,
    Sem,
    Task,
    Timer,
}

} // verus!
