//! The cluster objects the routine works on, as far as its decisions read them.

pub mod argocd;
pub mod custom_job;
pub mod job;
pub mod minecraft_chart;
pub mod pod;
pub mod polling;
pub mod statefulset;

use vstd::prelude::*;

verus! {

/// The field manager under which every patch and every created object is sent.
pub const MANAGEER_ROLE_NAME: &'static str = "man10routine";

/// The namespace in which the GitOps applications live.
pub const ARGOCD_NAMESPACE: &'static str = "argocd";

/// The part of an application that is removed to pause its reconciliation, as a JSON
/// pointer: the automated part of its sync policy. The rest of the policy stays.
pub const AUTOMATED_SYNC_POINTER: &'static str = "/spec/syncPolicy/automated";

/// The program that is run in a server's console container to stop the server.
pub const RCON_PROGRAM: &'static str = "rcon-cli";

/// The command given to [`RCON_PROGRAM`] to stop the server.
pub const RCON_STOP: &'static str = "stop";

} // verus!
