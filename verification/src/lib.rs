//! A priority-based preemptive real-time kernel model:
//! priority-bitmap scheduling with round-robin time slicing,
//! tick-wheel delays and timeouts, counting semaphores and
//! priority-inheritance mutexes.

pub mod config;
pub mod error;
pub mod types;
pub mod prio;
pub mod seq_lemmas;
pub mod rdy_list;
pub mod tcb;
pub mod sem;
pub mod kernel;
pub mod port;
pub mod sched;
pub mod time;
pub mod task;
pub mod mutex;
pub mod critical;
pub mod laws;
