//! Port-to-process reconciliation engine for a terminal port monitor.
//!
//! The library discovers listening sockets (TCP and UDP, locally or over a
//! remote shell session), correlates each socket with owning-process
//! statistics, classifies runaway orphans ("zombies"), and produces a
//! deterministically ordered snapshot for a presentation layer.

pub mod app;
pub mod laws;
pub mod remote;
pub mod scanner;
pub mod text;
