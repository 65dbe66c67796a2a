//! Remote command execution and resilience layer.
//!
//! The library holds the verified core of a remote-development bridge:
//! a layered environment-variable substitution engine, a shell-specific
//! command composer, a file-based mutual-exclusion lock model, and the
//! disconnect-detection/reconnection state machine. All file, network
//! and process I/O lives outside the library; the functions here compute
//! the strings, decisions and state transitions that the I/O layer acts on.

pub mod compose;
pub mod config;
pub mod env_loader;
pub mod env_subst;
pub mod lock;
pub mod reconnect;
pub mod strutil;
pub mod varmap;

use vstd::prelude::*;

verus! {

/// Exit status with which the transport client reports a lost connection,
/// as opposed to a remote command's own exit status.
pub const CONNECTION_FAILURE_EXIT: i32 = 255;

} // verus!
