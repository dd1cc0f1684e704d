//! A discrete model of a round-robin leader-rotation blockchain under
//! configurable network latency.
//!
//! The crate holds the verified core of the simulator: the block and fork
//! data model, the per-node proposal and failover rules, and the latency
//! router. Threads, channels, sleeping and the dashboard live outside of it
//! and drive these types with plain values.

pub mod block;
pub mod block_tree;
mod clock;
pub mod encoding;
pub mod hashing;
pub mod miner;
pub mod network;
pub mod schedule;
pub mod text;

pub use block::Block;
pub use block_tree::BlockTree;
pub use miner::{Decision, Miner};
pub use network::{Delivery, Network};
