//! Weighted item lottery and resumable mint-request processing for an
//! on-chain randomness oracle.

pub mod lottery;
pub mod request;
pub mod batcher;
pub mod consumer;
