//! Tracing of `epoll_ctl` calls: the wire record that a probe captures, the
//! decoder that turns it back into a readable call, the correlation of
//! syscall entry and exit, and the expansion of process ids into thread ids.

pub mod cli;
pub mod epoll_ctl;
pub mod events;
pub mod follow_threads;
pub mod probe;
pub mod text;
pub mod wire;
