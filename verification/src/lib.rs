//! Provenance tracing for ledger transactions, with the network left to the
//! caller: the crate decides what to fetch next and accumulates the transfer
//! graph, and the caller performs the requests and reports what came back.

pub mod digraph;
pub mod error;
pub mod graph_builder;
pub mod record;
pub mod rpc_client;
pub mod signature;
pub mod trace_model;
pub mod tracer;
