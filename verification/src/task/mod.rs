//! Processes: identifiers, kernel stacks, control blocks and the scheduler.
pub mod create;
pub mod kernel_stack;
pub mod manager;
pub mod pid;
pub mod processor;
pub mod schedule;
pub mod task;
