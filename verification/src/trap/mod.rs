//! Crossing between user mode and the kernel: the saved registers, the
//! dispatch of traps and the return to user mode.
pub mod context;
pub mod handler;
pub mod restore;
