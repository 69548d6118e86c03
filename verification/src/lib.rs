//! The decisions of a GODL crank.
//!
//! Each round of the mining protocol ends with one transaction that samples
//! the entropy variable, reveals its seed and resets the board. Several bots
//! rush to be the one that lands it. Between rounds, miners are checkpointed
//! and expired rounds are closed.
//!
//! This library decides what to read, when to wait, what to send and what came
//! of it. It does no input or output of its own: a part that has to wait for
//! an answer is a value that says what it wants next ([`reset`], [`outcome`],
//! [`top_miner`], [`batch`], [`entropy`]), and takes the answer in.
pub mod batch;
pub mod bytes;
pub mod chain;
pub mod entropy;
pub mod health;
pub mod instructions;
pub mod laws;
pub mod lifecycle;
pub mod maintenance;
pub mod outcome;
pub mod reset;
pub mod rpc;
pub mod selection;
pub mod stats;
pub mod text;
pub mod top_miner;
pub mod tx;
