//! The task that starts one game server again.

use crate::config::Config;
use crate::routine::daily::scale_statefulset::{ScaleKind, ScaleStage, ScaleTask};
use vstd::prelude::*;

verus! {

/// The task that scales the StatefulSet of game server `server` to one replica, waits
/// until it shows one, and gives the server three minutes to come up; not started.
pub fn relaunch_mcserver(config: &Config, server: usize) -> (task: ScaleTask)
    requires
        server < config.mcservers@.len(),
    ensures
        task.kind == ScaleKind::RelaunchMcserver,
        task.name == config.mcservers@[server as int].1.name,
        task.rcon_container == config.mcservers@[server as int].1.rcon_container,
        task.stage == ScaleStage::Created,
        task.wf(),
{
    let chart = &config.mcservers[server].1;
    ScaleTask::new(ScaleKind::RelaunchMcserver, chart.name.clone(), chart.rcon_container.clone())
}

} // verus!
