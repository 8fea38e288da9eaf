//! Orchestration core of a visualisation client: the state machines that
//! decide which remote operation to issue next, and the reassembly and
//! decoding of what those operations bring back. The caller issues the
//! operations, polls them without blocking, and hands each result in.

pub mod codec;
pub mod dataset;
pub mod error;
pub mod explorer;
pub mod fs;
pub mod paths;
pub mod replay;
pub mod series;
pub mod table;
pub mod world;
