//! Rate-paced ICMP echo dispatch.
//!
//! The library holds the decision core of a paced probe generator: the
//! one's-complement Internet checksum and echo-request packet layout, the
//! whitelist text formats and address grammar, the fixed-interval pacing
//! policy that skips missed ticks, per-batch target selection and counter
//! bookkeeping, and the partition of a global request rate across workers.
//! All I/O (sockets, timers, processes, files) lives outside, in callers
//! that feed this core plain values.

pub mod address;
pub mod checksum;
pub mod coordinator;
pub mod dispatch;
pub mod pacer;
pub mod packet;
pub mod whitelist;
pub mod worker;
