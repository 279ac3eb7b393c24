//! Core of a small freestanding kernel: packet codec, UHCI descriptor layout and
//! queueing, tick-driven wakeups and a fair mutex, all as verified state and logic.

pub mod bits;
pub mod net;
pub mod uhci;
pub mod time;
pub mod mutex;
pub mod stack;
