//! Coordination core of a streaming dataflow cluster: virtual-node
//! partitioning, consistent-hash exchange routing, cluster membership, actor
//! scheduling, barrier epochs, recovery planning and change-data-capture
//! decoding.

pub mod assoc;
pub mod barrier;
pub mod chunk;
pub mod cluster;
pub mod debezium;
pub mod epoch;
pub mod error;
pub mod exchange;
pub mod expr_vnode;
pub mod meta_error;
pub mod recovery;
pub mod scheduler;
pub mod vnode;
pub mod json;
