//! Port operations, as seen by the kernel.
//!
//! On hardware these pend the context-switch exception, program the
//! tick source and lay out the first stack frame. The kernel model
//! records a requested switch in the kernel state and computes the
//! initial stack pointer; a target port performs the actual register
//! work when it observes the request.

use vstd::prelude::*;

use crate::kernel::Kernel;
use crate::types::OsOpt;

verus! {

/// Request a context switch from task level
#[inline]
pub fn os_ctx_sw(k: &mut Kernel)
    ensures
        final(k).ctx_sw_pending,
        *final(k) == (Kernel { ctx_sw_pending: true, ..*old(k) }),
{
    k.ctx_sw_pending = true;
}

/// Request a context switch from interrupt level
#[inline]
pub fn os_int_ctx_sw(k: &mut Kernel)
    ensures
        final(k).ctx_sw_pending,
        *final(k) == (Kernel { ctx_sw_pending: true, ..*old(k) }),
{
    k.ctx_sw_pending = true;
}

/// Compute the initial stack pointer for a new task: the highest
/// element of the task's stack window
pub fn os_task_stk_init(stk_base: usize, stk_size: usize, _opt: OsOpt) -> (r: usize)
    requires
        stk_size >= 1,
        stk_base + stk_size <= usize::MAX,
    ensures
        r == stk_base + stk_size - 1,
{
    stk_base + stk_size - 1
}

/// Program the periodic tick source; the kernel model keeps no
/// hardware timer state, so this records nothing
pub fn os_cpu_systick_init(_cnts: u32) {
}

} // verus!
