//! Critical section handling.
//!
//! On hardware, a critical section globally disables interrupts; here
//! the kernel records whether one is active. Every kernel operation
//! that touches scheduler state conceptually runs inside one.

use vstd::prelude::*;

use crate::kernel::Kernel;

verus! {

/// Guard for a critical section: holding one stands for running with
/// interrupts disabled
pub struct CriticalSection {
    established: bool,
}

impl CriticalSection {
    /// Enter a critical section; interrupts stay disabled until the
    /// guard is released with `leave`
    pub fn enter(k: &mut Kernel) -> (r: CriticalSection)
        ensures
            *final(k) == (Kernel { in_critical: true, ..*old(k) }),
    {
        k.in_critical = true;
        CriticalSection { established: true }
    }

    /// Leave the critical section, re-enabling interrupts
    pub fn leave(self, k: &mut Kernel)
        ensures
            *final(k) == (Kernel { in_critical: false, ..*old(k) }),
    {
        let _ = self;
        k.in_critical = false;
    }

    /// Check whether a critical section is currently active
    #[inline]
    pub fn is_active(k: &Kernel) -> (r: bool)
        ensures
            r == k.in_critical,
    {
        k.in_critical
    }
}

} // verus!
