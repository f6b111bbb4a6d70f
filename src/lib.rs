//! Host environment of a ledger virtual machine: a two-level write log over
//! committed storage, gas metering, prefix iterators, the transaction and
//! validity-predicate host calls, and the IBC native validity predicate.
pub mod address;
pub mod codec;
pub mod gas;
pub mod host_env;
pub mod ibc;
pub mod key;
pub mod memory;
pub mod native_vp;
pub mod prefix_iter;
pub mod storage;
pub mod vp_env;
pub mod write_log;
