//! The system calls.
//!
//! Each function here decides one call: it gets the arguments, what was read of the caller's
//! memory and of the state around it, and says what is answered and what is to be done.
pub mod caps;
pub mod clone;
pub mod creds;
pub mod dispatch;
pub mod event;
pub mod exec;
pub mod fs;
pub mod handler;
pub mod ipc;
pub mod mempolicy;
pub mod message;
pub mod mm;
pub mod mm_range;
pub mod net;
pub mod numbers;
pub mod poll;
pub mod posix_timer;
pub mod proc;
pub mod reply;
pub mod scheduling;
pub mod seccomp;
pub mod signal;
pub mod time;
pub mod util;
pub mod vm_copy;
pub mod waiting;
