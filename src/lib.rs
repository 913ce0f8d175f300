//! The primitives that a closed radio driver expects from its operating system,
//! on a runtime that has none: counting semaphores, software timers, a random
//! source and a few C library routines. Each is a plain state machine here; the
//! caller supplies the clock, the random bytes and the critical sections.
pub mod crt;
pub mod entropy;
pub mod semaphore;
pub mod timer;
