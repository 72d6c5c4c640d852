//! The decision core of a small Unix-like kernel: the virtual file system's data
//! structures, the advisory lock tables, the deadline queues and the rules of the
//! system calls, each with a machine-checked contract.
//!
//! Nothing here touches hardware, user memory or the scheduler. A function takes the
//! facts it decides on as plain values and hands back the answer, or the action that
//! the surrounding kernel has to carry out.

pub mod bytes;
pub mod errno;
pub mod keys;
pub mod laws;
pub mod numeral;
pub mod process_model;
pub mod seqs;
pub mod syscall;
pub mod text;
pub mod timeout;
pub mod vfs;
