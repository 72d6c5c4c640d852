//! Calls on files.
pub mod dir;
pub mod dsp;
pub mod fdpair;
pub mod file_io;
pub mod inotify;
pub mod ioctl;
pub mod iovec;
pub mod link;
pub mod locks;
pub mod meta;
pub mod mount;
pub mod open;
pub mod paths;
pub mod xattr;
