//! An asynchronous resource pool.
//!
//! A [`pool::AsyncPool`] owns a FIFO queue of interchangeable resources.
//! A caller reserves exactly one resource at a time and receives it wrapped
//! in a [`pool::AsyncPoolGuard`]; releasing the guard pushes the resource
//! back onto the queue exactly once. The verified core here is the pool's
//! state machine: what each operation does to the queue of available
//! resources, and how a guard's release returns its resource. An async
//! front end can drive this core, suspending a reservation until a
//! resource is available and releasing on drop.

pub mod laws;
pub mod pool;

pub use pool::AsyncPool;
pub use pool::AsyncPoolGuard;
