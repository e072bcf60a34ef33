//! A delayed-delivery message queue.
//!
//! Callers enqueue a payload together with a delay, measured in whole time
//! units of the host's choosing. The pool holds each payload until the host's
//! clock has advanced past its delay and then hands it back, exactly once,
//! from the first processing pass at or after expiry. Payloads that come due
//! in the same pass are handed back in enqueue order. A pool can also carry a
//! drain payload, handed back once per pass that empties the pool.
//!
//! The host is expected to own the pool instances, call
//! [`pool::MessagePool::process`] once per clock tick on each of them, and
//! route the returned payloads to whatever channel its consumers read.

pub mod laws;
pub mod pool;
pub mod timer;

pub use pool::Duplicable;
pub use pool::MessagePool;
pub use pool::MessagePoolEmptied;
pub use pool::ProcessOutcome;
pub use timer::Countdown;
pub use timer::TimedEntry;
