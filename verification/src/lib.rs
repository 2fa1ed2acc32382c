//! Verified core of a self-healing vector database.
//!
//! A vector is a fixed-length sequence of IEEE-754 single-precision numbers,
//! carried here as its 32-bit patterns. The durable table and the
//! nearest-neighbour graph live outside this crate: the functions here decide
//! what is written, what is accepted to the graph and what is answered, and
//! the surrounding program carries those decisions out.

pub mod codec;
pub mod embeddings;
pub mod engine;
pub mod health;
pub mod index;
pub mod storage;

pub use engine::{EngineConfig, SelfHealingVectorDb};
