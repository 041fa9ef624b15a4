//! The decisions of a single-threaded event-loop, verified.
//!
//! An [`EventLoop`] keeps track of timers, tcp connections, tasks, watchers,
//! check callbacks and signal listeners, and decides what is to happen next. It
//! performs no I/O itself: a driver hands it what the system has reported, as
//! plain values, and performs the [`Effect`](effect::Effect)s that it returns.
//! Sockets, callbacks and errors stay with the driver, which tells them apart by
//! numbers.

pub mod check;
pub mod effect;
pub mod event_loop;
pub mod fs;
pub mod fs_event;
pub mod index_loop;
pub mod resource;
pub mod signals;
pub mod task;
pub mod tcp_listener;
pub mod tcp_stream;
pub mod thread_pool;
pub mod timers;
pub mod tty;

pub use event_loop::EventLoop;
pub use event_loop::LoopHandle;
pub use event_loop::RunMode;
