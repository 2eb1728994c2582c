//! Verified control logic for a desktop chat application's launcher and for
//! its selective-forwarding-unit (SFU) control layer.
//!
//! The launcher side models versioned installations on disk, a secret-guarded
//! local control protocol, persisted key/value configuration and the state
//! flags that make concurrent privileged operations rejectable.  The SFU side
//! models channels, peers, transports, producers and consumers, and the
//! dispatch of controller commands over them.  All I/O stays outside; the
//! library decides, and states what it decides in contracts.

pub mod config;
pub mod control;
pub mod download;
pub mod keybinds;
pub mod platform;
pub mod process;
pub mod queue;
pub mod sfu;
pub mod sse;
pub mod supervisor;
pub mod text;
pub mod trusted;
pub mod versions;
pub mod worker_env;
