//! Connection-handling engine of a multi-repository source-control server.
//!
//! For each managed repository the server accepts client sessions carried over
//! a relayed transport, splits one physical byte connection into three logical
//! streams (input, output, diagnostic), runs a per-connection pipeline that
//! decodes commands, dispatches them to the repository service and encodes the
//! results back, and supervises many such pipelines across many repositories
//! without cross-contamination of failures.
//!
//! The modules hold the verified core:
//! - [`mux`]: framing and demultiplexing of the three logical streams;
//! - [`logging`]: the per-connection logging bridge and its severity filter;
//! - [`pipeline`]: the per-connection decode/dispatch/encode state machine and
//!   the engine that interleaves many connections;
//! - [`listener`]: the accept-loop decisions of one repository's listener;
//! - [`supervisor`]: per-repository startup outcomes, fault interception and
//!   the aggregated startup report;
//! - [`tailer`]: scheduling decisions of the maintenance job that tails the
//!   repositories.
//!
//! All I/O (sockets, clocks, the real log drains, the repository service) is
//! external: the engine is driven by plain events and answers with plain
//! actions, so every decision in it is verified for every event sequence.

pub mod listener;
pub mod logging;
pub mod mux;
pub mod pipeline;
pub mod supervisor;
pub mod tailer;
