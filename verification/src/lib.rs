//! A low-latency transactional risk decision engine.
//!
//! Given a structured transaction request describing a subject and a
//! transfer, the engine returns a categorical decision drawn from a fixed
//! severity ladder. A configurable ruleset is evaluated in two phases:
//! stateless inline rules over the request itself, then stateful streaming
//! rules over a per-subject rolling 24-hour window. The most severe
//! triggered decision is returned together with structured evidence.
//!
//! Durability is provided by an append-only, checksummed write-ahead log
//! and periodic snapshots, from which cold-start state is reconstructed.

pub mod actor;
pub mod bloom;
pub mod config;
pub mod decision;
pub mod event;
pub mod evidence;
pub mod loader;
pub mod metrics;
pub mod pipeline;
pub mod policy;
pub mod pool;
pub mod recovery;
pub mod response;
pub mod rules_inline;
pub mod rules_streaming;
pub mod ruleset;
pub mod snapshot;
pub mod state;
pub mod subject;
pub mod text;
pub mod usd;
pub mod wal;
pub mod watch;
