//! The task that shuts the proxy down.

use crate::config::Config;
use crate::routine::daily::scale_statefulset::{ScaleKind, ScaleStage, ScaleTask};
use vstd::prelude::*;

verus! {

/// The task that scales the proxy's StatefulSet to no replicas and waits until it shows
/// none, not started.
pub fn phase_shutdown_mcproxy(config: &Config) -> (task: ScaleTask)
    ensures
        task.kind == ScaleKind::ShutdownMcproxy,
        task.name == config.mcproxy.name,
        task.rcon_container == config.mcproxy.rcon_container,
        task.stage == ScaleStage::Created,
        task.wf(),
{
    ScaleTask::new(
        ScaleKind::ShutdownMcproxy,
        config.mcproxy.name.clone(),
        config.mcproxy.rcon_container.clone(),
    )
}

} // verus!
