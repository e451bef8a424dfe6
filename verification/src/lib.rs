//! Synchronisation primitives of a multitasking kernel, with the bookkeeping
//! that lets a process predict deadlocks before it grants a request.

pub mod condvar;
pub mod detect;
pub mod history;
pub mod mutex;
pub mod process;
pub mod semaphore;
pub mod syscall;
pub mod table;
