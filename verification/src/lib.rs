//! An in-process event dispatch and multiplexing engine.
//!
//! Server-pushed notifications, each tagged by a string method key, are
//! fanned out to independently polling subscribers. Delivery is purely
//! cooperative and poll-driven: dispatch never blocks, each subscriber
//! owns a FIFO pending queue, and subscribers whose consumer side has
//! disconnected are garbage-collected on the next drain pass.

pub mod channel;
pub mod decode;
pub mod events;
pub mod laws;
pub mod stream;
pub mod subscribe;
