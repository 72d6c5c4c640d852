//! What holds of the operations, said in terms of what goes in and what comes out.

pub mod attributes;
pub mod binding;
pub mod bits;
pub mod clocks;
pub mod devices;
pub mod dispatching;
pub mod files;
pub mod identities;
pub mod layout;
pub mod locking;
pub mod memory;
pub mod mounting;
pub mod naming;
pub mod resolving;
pub mod sharing;
pub mod signals;
pub mod sockets;
pub mod tasks;
pub mod waits;
