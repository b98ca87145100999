//! pwatch: finds which process listens on a TCP port, and signals it.
//!
//! The library holds what the tool decides and computes: reading the kernel's
//! socket tables and the `lsof` listing, relating sockets to processes,
//! ordering and finding ports, the messages it reports, and the state of the
//! interactive viewer with what each key does to it.
use vstd::prelude::*;

pub mod app;
pub mod cli;
pub mod config;
pub mod handler;
pub mod json;
pub mod lsof;
pub mod number;
pub mod port;
pub mod procfs;
pub mod text;
pub mod view;

verus! {

} // verus!
