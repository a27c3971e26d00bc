//! Verified in-memory containers: a FIFO queue, a LIFO stack built from two
//! such queues, and a binary heap whose ordering rule is chosen at
//! construction.

pub mod extraction;
pub mod heap;
pub mod order;
pub mod queue;
pub mod sift;
pub mod stack;
