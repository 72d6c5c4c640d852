//! Advisory file locks.

pub mod bsd;
pub mod posix;
