//! The task that shuts one game server down.

use crate::config::Config;
use crate::routine::daily::scale_statefulset::{ScaleKind, ScaleStage, ScaleTask};
use vstd::prelude::*;

verus! {

/// The task that scales the StatefulSet of game server `server` to no replicas, tells the
/// server to stop from its console, and waits until the StatefulSet shows no replicas;
/// not started.
pub fn shutdown_mcserver(config: &Config, server: usize) -> (task: ScaleTask)
    requires
        server < config.mcservers@.len(),
    ensures
        task.kind == ScaleKind::ShutdownMcserver,
        task.name == config.mcservers@[server as int].1.name,
        task.rcon_container == config.mcservers@[server as int].1.rcon_container,
        task.stage == ScaleStage::Created,
        task.wf(),
{
    let chart = &config.mcservers[server].1;
    ScaleTask::new(ScaleKind::ShutdownMcserver, chart.name.clone(), chart.rcon_container.clone())
}

} // verus!
