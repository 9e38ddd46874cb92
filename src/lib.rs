//! Ingestion and aggregation of compiler time-trace files.
//!
//! A trace file is decoded into [`trace_event::TraceEvents`], each event is
//! classified into a cost category ([`classify`]), the events of one file are
//! folded into per-symbol partial sums ([`aggregate`]), and those sums are
//! merged into a running [`store::AggregateStore`]. The module [`laws`] states
//! what holds of ingestion for every input.
pub mod aggregate;
pub mod classify;
pub mod laws;
pub mod store;
pub mod table;
pub mod text;
pub mod trace_event;
