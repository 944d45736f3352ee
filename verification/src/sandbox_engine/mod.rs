//! Building the bubblewrap (`bwrap`) command line of a sandbox run, and the
//! decisions taken around running it.

pub mod network;
pub mod builder;
pub mod mounts;
pub mod environment;
pub mod runner;
pub mod procfs;
pub mod userns;
pub mod guarantees;
pub mod probes;
