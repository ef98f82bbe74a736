//! Option-flag encoding for kernel API calls (stable, 16-bit).

use vstd::prelude::*;

verus! {

pub const NONE: u16 = 0x0000;

// Delete options
pub const DEL_NO_PEND: u16 = 0x0000;
pub const DEL_ALWAYS: u16 = 0x0001;

// Pend options
pub const PEND_BLOCKING: u16 = 0x0000;
pub const PEND_NON_BLOCKING: u16 = 0x8000;

// Post options
pub const POST_FIFO: u16 = 0x0000;
pub const POST_LIFO: u16 = 0x0010;
pub const POST_ALL: u16 = 0x0200;
pub const POST_NO_SCHED: u16 = 0x8000;

// Task options
pub const TASK_NONE: u16 = 0x0000;
pub const TASK_STK_CHK: u16 = 0x0001;
pub const TASK_STK_CLR: u16 = 0x0002;
pub const TASK_SAVE_FP: u16 = 0x0004;

// Flag options
pub const FLAG_CLR_ALL: u16 = 0x0001;
pub const FLAG_CLR_ANY: u16 = 0x0002;
pub const FLAG_SET_ALL: u16 = 0x0004;
pub const FLAG_SET_ANY: u16 = 0x0008;
pub const FLAG_CONSUME: u16 = 0x0100;

} // verus!
