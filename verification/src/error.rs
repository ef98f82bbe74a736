//! Error taxonomy for the kernel.
//!
//! Every kernel API returns a result whose error variant is drawn
//! from this closed set of kinds.

use vstd::prelude::*;

verus! {

/// Kernel error kind
#[derive(Debug, Clone, Copy, PartialEq, Eq, Structural)]
pub enum OsError {
    /// No error
    NoError,
    /// Function cannot be called from ISR
    AcceptIsr,
    /// Cannot create object from ISR
    CreateIsr,
    /// Cannot delete object from ISR
    DelIsr,
    /// Cannot flush from ISR
    FlushIsr,
    /// Fatal return (task returned unexpectedly)
    FatalReturn,
    /// Flag group depleted
    FlagGrpDepleted,
    /// Flag not ready
    FlagNotRdy,
    /// Invalid flag pend option
    FlagPendOpt,
    /// Lock nesting overflow
    LockNestingOvf,
    /// Memory pool full
    MemFull,
    /// Invalid memory address
    MemInvalidAddr,
    /// No free blocks
    MemNoFreeBlks,
    /// Caller is not the mutex owner
    MutexNotOwner,
    /// Task already owns the mutex
    MutexOwner,
    /// Mutex nesting error
    MutexNesting,
    /// Mutex nesting overflow
    MutexOvf,
    /// Object already created
    ObjCreated,
    /// Object was deleted
    ObjDel,
    /// Null pointer for object
    ObjPtrNull,
    /// Wrong object type
    ObjType,
    /// Invalid option specified
    OptInvalid,
    /// OS is not running
    OsNotRunning,
    /// OS is already running
    OsRunning,
    /// OS not initialized
    OsNotInit,
    /// No application task created
    OsNoAppTask,
    /// Pend was aborted
    PendAbort,
    /// Cannot abort pend from ISR
    PendAbortIsr,
    /// No task to abort
    PendAbortNone,
    /// Cannot abort self
    PendAbortSelf,
    /// Object deleted while pending
    PendDel,
    /// Cannot pend from ISR
    PendIsr,
    /// Scheduler is locked while pending
    PendLocked,
    /// Pend would block (non-blocking mode)
    PendWouldBlock,
    /// Priority already exists
    PrioExist,
    /// Invalid priority
    PrioInvalid,
    /// Queue is full
    QFull,
    /// Queue is empty
    QEmpty,
    /// Queue max size exceeded
    QMax,
    /// Message pool is empty (no free messages)
    MsgPoolEmpty,
    /// Invalid time slice
    SchedInvalidTimeSlice,
    /// Cannot lock scheduler from ISR
    SchedLockIsr,
    /// Scheduler is locked
    SchedLocked,
    /// Scheduler is not locked
    SchedNotLocked,
    /// Cannot unlock scheduler from ISR
    SchedUnlockIsr,
    /// Semaphore overflow
    SemOvf,
    /// Invalid state
    StateInvalid,
    /// Invalid status
    StatusInvalid,
    /// Invalid stack pointer
    StkInvalid,
    /// Invalid stack size
    StkSizeInvalid,
    /// Stack overflow detected
    StkOvf,
    /// Cannot change priority from ISR
    TaskChangePrioIsr,
    /// Cannot create task from ISR
    TaskCreateIsr,
    /// Task delete error
    TaskDel,
    /// Cannot delete idle task
    TaskDelIdle,
    /// Invalid task for deletion
    TaskDelInvalid,
    /// Cannot delete task from ISR
    TaskDelIsr,
    /// Invalid task
    TaskInvalid,
    /// No more TCBs available
    TaskNoMoreTcb,
    /// Task is not delayed
    TaskNotDly,
    /// Task does not exist
    TaskNotExist,
    /// Task is not suspended
    TaskNotSuspended,
    /// Invalid task option
    TaskOpt,
    /// Task is running
    TaskRunning,
    /// Cannot suspend task from ISR
    TaskSuspendIsr,
    /// Task is suspended
    TaskSuspended,
    /// Cannot suspend idle task
    TaskSuspendIdle,
    /// Cannot resume task from ISR
    TaskResumeIsr,
    /// Invalid TCB reference
    TcbInvalid,
    /// Cannot delay from ISR
    TimeDlyIsr,
    /// Zero delay specified
    TimeZeroDly,
    /// Operation timed out
    Timeout,
    /// Timer is inactive
    TmrInactive,
    /// Invalid timer delay
    TmrInvalidDly,
    /// Invalid timer period
    TmrInvalidPeriod,
    /// Invalid timer state
    TmrInvalidState,
    /// Timer ISR error
    TmrIsr,
    /// No timer callback
    TmrNoCallback,
    /// Timer stopped
    TmrStopped,
    /// Cannot yield from ISR
    YieldIsr,
}

/// Result type alias for kernel operations
pub type OsResult<T> = Result<T, OsError>;

impl OsError {
    /// An error value of `NoError` stands for success.
    #[inline]
    pub fn is_ok(self) -> (r: bool)
        ensures
            r == (self == OsError::NoError),
    {
        self == OsError::NoError
    }

    /// Any kind other than `NoError` is a failure.
    #[inline]
    pub fn is_err(self) -> (r: bool)
        ensures
            r == (self != OsError::NoError),
    {
        self != OsError::NoError
    }
}

} // verus!
