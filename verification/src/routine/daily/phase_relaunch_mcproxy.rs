//! The task that starts the proxy again.

use crate::config::Config;
use crate::routine::daily::scale_statefulset::{ScaleKind, ScaleStage, ScaleTask};
use vstd::prelude::*;

verus! {

/// The task that scales the proxy's StatefulSet to one replica and waits until it shows
/// one, not started.
pub fn phase_relaunch_mcproxy(config: &Config) -> (task: ScaleTask)
    ensures
        task.kind == ScaleKind::RelaunchMcproxy,
        task.name == config.mcproxy.name,
        task.rcon_container == config.mcproxy.rcon_container,
        task.stage == ScaleStage::Created,
        task.wf(),
{
    ScaleTask::new(
        ScaleKind::RelaunchMcproxy,
        config.mcproxy.name.clone(),
        config.mcproxy.rcon_container.clone(),
    )
}

} // verus!
