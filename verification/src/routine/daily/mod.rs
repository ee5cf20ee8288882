//! The daily routine: the graph of its tasks.

pub mod error;
pub mod finalizer;
pub mod phase_argocd_teardown;
pub mod phase_execute_job;
pub mod phase_relaunch_mcproxy;
pub mod phase_relaunch_mcserver;
pub mod phase_shutdown_mcproxy;
pub mod phase_shutdown_mcservers;
pub mod scale_statefulset;

use crate::config::Config;
use crate::kubernetes_objects::custom_job::CustomJobView;
use crate::kubernetes_objects::minecraft_chart::MinecraftChartView;
use crate::routine::daily::error::DailyRoutineError;
use crate::scheduler::dag_scheduler::{
    is_dag, refuses, task_bodies, task_deps, task_names, Scheduler, TaskJoinError, TaskSpec,
};
use crate::scheduler::shutdown::Shutdown;
use crate::text::concat;
use vstd::prelude::*;
use vstd::string::StringExecFns;

verus! {

/// What a task of the daily routine does. Servers and jobs are given by their positions in
/// the configuration.
#[derive(Clone, Copy, Debug, PartialEq, Eq, Structural)]
pub enum DailyTask {
    /// Suspend the applications of the proxy and of every game server.
    ArgocdTeardown,
    /// Scale the proxy down and wait until it is gone.
    ShutdownMcproxy,
    /// Scale one game server down, stop it from its console, and wait until it is gone.
    ShutdownMcserver { server: usize },
    /// Run one job of one game server and wait until it has finished.
    ExecuteJob { server: usize, job: usize },
    /// Scale one game server up and wait until it is there.
    RelaunchMcserver { server: usize },
    /// Scale the proxy up and wait until it is there.
    RelaunchMcproxy,
}

/// A task as specifications see it.
pub struct TaskView {
    pub name: Seq<char>,
    pub deps: Seq<Seq<char>>,
    pub body: DailyTask,
}

/// Tasks as specifications see them.
pub open spec fn tasks_view(tasks: Seq<TaskSpec<DailyTask>>) -> Seq<TaskView> {
    Seq::new(
        tasks.len(),
        |i: int| TaskView { name: tasks[i].name@, deps: tasks[i].deps.deep_view(), body: tasks[i].body },
    )
}

/// The name of the task that shuts the game server `key` down.
pub open spec fn shutdown_name(key: Seq<char>) -> Seq<char> {
    "shutdown_mcserver/"@ + key
}

/// The name of the task that runs the job `job` of the game server `key`.
pub open spec fn job_task_name(key: Seq<char>, job: Seq<char>) -> Seq<char> {
    "execute_job/after_snapshot/"@ + key + "/"@ + job
}

/// The name of the task that starts the game server `key` again.
pub open spec fn relaunch_name(key: Seq<char>) -> Seq<char> {
    "relaunch_mcserver/"@ + key
}

/// The task that shuts game server `k` down: it waits for the proxy to be shut down.
pub open spec fn shutdown_task(servers: Seq<(Seq<char>, MinecraftChartView)>, k: int) -> TaskView {
    TaskView {
        name: shutdown_name(servers[k].0),
        deps: seq!["shutdown_mcproxy"@],
        body: DailyTask::ShutdownMcserver { server: k as usize },
    }
}

/// What a job of the game server `key` waits for: the jobs it depends on, in the order in
/// which it names them, and then the shutdown of its server.
pub open spec fn job_deps(key: Seq<char>, job: CustomJobView) -> Seq<Seq<char>> {
    Seq::new(job.dependencies.len(), |d: int| job_task_name(key, job.dependencies[d])).push(
        shutdown_name(key),
    )
}

/// The task that runs job `j` of game server `k`.
pub open spec fn job_task(servers: Seq<(Seq<char>, MinecraftChartView)>, k: int, j: int) -> TaskView {
    let key = servers[k].0;
    let jobs = servers[k].1.jobs_after_snapshot;
    TaskView {
        name: job_task_name(key, jobs[j].0),
        deps: job_deps(key, jobs[j].1),
        body: DailyTask::ExecuteJob { server: k as usize, job: j as usize },
    }
}

/// The tasks that run the jobs of game server `k`, in the order of its jobs.
pub open spec fn server_job_tasks(servers: Seq<(Seq<char>, MinecraftChartView)>, k: int) -> Seq<
    TaskView,
> {
    Seq::new(servers[k].1.jobs_after_snapshot.len(), |j: int| job_task(servers, k, j))
}

/// The tasks that run the jobs of the first `upto` game servers, server by server.
pub open spec fn job_tasks(servers: Seq<(Seq<char>, MinecraftChartView)>, upto: int) -> Seq<TaskView>
    decreases upto,
{
    if upto <= 0 {
        Seq::empty()
    } else {
        job_tasks(servers, upto - 1) + server_job_tasks(servers, upto - 1)
    }
}

/// The task that starts game server `k` again: it waits for every job of the server, in
/// the order of its jobs, and then for the shutdown of the server.
pub open spec fn relaunch_task(servers: Seq<(Seq<char>, MinecraftChartView)>, k: int) -> TaskView {
    let key = servers[k].0;
    let jobs = servers[k].1.jobs_after_snapshot;
    TaskView {
        name: relaunch_name(key),
        deps: Seq::new(jobs.len(), |j: int| job_task_name(key, jobs[j].0)).push(
            shutdown_name(key),
        ),
        body: DailyTask::RelaunchMcserver { server: k as usize },
    }
}

/// The relaunch tasks of those of the first `upto` game servers that the proxy waits for.
pub open spec fn required_relaunches(
    servers: Seq<(Seq<char>, MinecraftChartView)>,
    upto: int,
) -> Seq<Seq<char>>
    decreases upto,
{
    if upto <= 0 {
        Seq::empty()
    } else if servers[upto - 1].1.required_to_start {
        required_relaunches(servers, upto - 1).push(relaunch_name(servers[upto - 1].0))
    } else {
        required_relaunches(servers, upto - 1)
    }
}

/// The graph of the daily routine for the given game servers:
///
/// - `argocd_teardown`, which waits for nothing;
/// - `shutdown_mcproxy`, after `argocd_teardown`;
/// - for every game server `shutdown_mcserver/{key}`, after `shutdown_mcproxy`;
/// - for every job of every game server `execute_job/after_snapshot/{key}/{job}`, after
///   the jobs it depends on and after `shutdown_mcserver/{key}`;
/// - for every game server `relaunch_mcserver/{key}`, after all its jobs and after
///   `shutdown_mcserver/{key}`;
/// - `relaunch_mcproxy`, after `relaunch_mcserver/{key}` of every game server that is
///   required to start, and after `shutdown_mcproxy`.
pub open spec fn daily_tasks(servers: Seq<(Seq<char>, MinecraftChartView)>) -> Seq<TaskView> {
    seq![
        TaskView { name: "argocd_teardown"@, deps: Seq::empty(), body: DailyTask::ArgocdTeardown },
        TaskView {
            name: "shutdown_mcproxy"@,
            deps: seq!["argocd_teardown"@],
            body: DailyTask::ShutdownMcproxy,
        },
    ] + Seq::new(servers.len(), |k: int| shutdown_task(servers, k)) + job_tasks(
        servers,
        servers.len() as int,
    ) + Seq::new(servers.len(), |k: int| relaunch_task(servers, k)) + seq![
        TaskView {
            name: "relaunch_mcproxy"@,
            deps: required_relaunches(servers, servers.len() as int).push("shutdown_mcproxy"@),
            body: DailyTask::RelaunchMcproxy,
        },
    ]
}

/// The name of the task that runs the job `job` of the game server `key`.
fn job_task_name_of(key: &str, job: &str) -> (name: String)
    ensures
        name@ == job_task_name(key@, job@),
{
    let mut name = String::from_str("execute_job/after_snapshot/");
    name.append(key);
    name.append("/");
    name.append(job);
    name
}

/// Builds the graph of the daily routine from the configuration.
pub fn build_daily_tasks(config: &Config) -> (tasks: Vec<TaskSpec<DailyTask>>)
    ensures
        tasks_view(tasks@) == daily_tasks(config@.mcservers),
{
    let ghost servers = config@.mcservers;
    let n = config.mcservers.len();
    let mut tasks: Vec<TaskSpec<DailyTask>> = Vec::new();
    tasks.push(
        TaskSpec::new(String::from_str("argocd_teardown"), Vec::new(), DailyTask::ArgocdTeardown),
    );
    let mut deps: Vec<String> = Vec::new();
    deps.push(String::from_str("argocd_teardown"));
    assert(deps.deep_view() =~= seq!["argocd_teardown"@]);
    tasks.push(TaskSpec::new(String::from_str("shutdown_mcproxy"), deps, DailyTask::ShutdownMcproxy));
    let ghost head = tasks_view(tasks@);
    assert(head =~= seq![
        TaskView { name: "argocd_teardown"@, deps: Seq::empty(), body: DailyTask::ArgocdTeardown },
        TaskView {
            name: "shutdown_mcproxy"@,
            deps: seq!["argocd_teardown"@],
            body: DailyTask::ShutdownMcproxy,
        },
    ]) by {
        assert(tasks@[0].deps.deep_view() =~= Seq::<Seq<char>>::empty());
    }

    let mut k: usize = 0;
    while k < n
        invariant
            servers == config@.mcservers,
            n == config.mcservers.len(),
            k <= n,
            tasks_view(tasks@) == head + Seq::new(k as nat, |i: int| shutdown_task(servers, i)),
        decreases n - k,
    {
        let ghost before = tasks_view(tasks@);
        let mut deps: Vec<String> = Vec::new();
        deps.push(String::from_str("shutdown_mcproxy"));
        assert(deps.deep_view() =~= seq!["shutdown_mcproxy"@]);
        assert(servers[k as int].0 == config.mcservers@[k as int].0@);
        let name = concat("shutdown_mcserver/", config.mcservers[k].0.as_str());
        tasks.push(TaskSpec::new(name, deps, DailyTask::ShutdownMcserver { server: k }));
        assert(tasks_view(tasks@) =~= before.push(shutdown_task(servers, k as int)));
        assert(before.push(shutdown_task(servers, k as int)) =~= head + Seq::new(
            (k + 1) as nat,
            |i: int| shutdown_task(servers, i),
        ));
        k += 1;
    }
    let ghost shutdowns = tasks_view(tasks@);

    let mut k: usize = 0;
    while k < n
        invariant
            servers == config@.mcservers,
            n == config.mcservers.len(),
            k <= n,
            tasks_view(tasks@) == shutdowns + job_tasks(servers, k as int),
        decreases n - k,
    {
        let key = config.mcservers[k].0.as_str();
        let chart = &config.mcservers[k].1;
        assert(servers[k as int].0 == key@);
        assert(servers[k as int].1 == chart@);
        let ghost jobs = servers[k as int].1.jobs_after_snapshot;
        let ghost before = tasks_view(tasks@);
        let count = chart.jobs_after_snapshot.len();
        let mut j: usize = 0;
        while j < count
            invariant
                servers == config@.mcservers,
                k < n,
                n == config.mcservers.len(),
                key@ == servers[k as int].0,
                *chart == config.mcservers@[k as int].1,
                jobs == servers[k as int].1.jobs_after_snapshot,
                jobs == chart@.jobs_after_snapshot,
                count == chart.jobs_after_snapshot.len(),
                j <= count,
                tasks_view(tasks@) == before + Seq::new(j as nat, |i: int| job_task(servers, k as int, i)),
            decreases count - j,
        {
            let ghost so_far = tasks_view(tasks@);
            let job_name = chart.jobs_after_snapshot[j].0.as_str();
            let job = &chart.jobs_after_snapshot[j].1;
            assert(jobs[j as int].0 == job_name@);
            assert(jobs[j as int].1 == job@);
            let mut deps: Vec<String> = Vec::new();
            let mut d: usize = 0;
            while d < job.dependencies.len()
                invariant
                    d <= job.dependencies.len(),
                    deps.len() == d,
                    forall|i: int|
                        0 <= i < d ==> (#[trigger] deps@[i])@ == job_task_name(
                            key@,
                            job.dependencies@[i]@,
                        ),
                decreases job.dependencies.len() - d,
            {
                deps.push(job_task_name_of(key, job.dependencies[d].as_str()));
                d += 1;
            }
            deps.push(concat("shutdown_mcserver/", key));
            assert(deps.deep_view() =~= job_deps(key@, job@)) by {
                assert(job@.dependencies.len() == job.dependencies.len());
                assert forall|i: int| 0 <= i < job.dependencies.len() implies job@.dependencies[i]
                    == job.dependencies@[i]@ by {}
            }
            let name = job_task_name_of(key, job_name);
            tasks.push(TaskSpec::new(name, deps, DailyTask::ExecuteJob { server: k, job: j }));
            assert(tasks_view(tasks@) =~= so_far.push(job_task(servers, k as int, j as int)));
            assert(so_far.push(job_task(servers, k as int, j as int)) =~= before + Seq::new(
                (j + 1) as nat,
                |i: int| job_task(servers, k as int, i),
            ));
            j += 1;
        }
        assert(Seq::new(count as nat, |i: int| job_task(servers, k as int, i))
            =~= server_job_tasks(servers, k as int));
        assert(shutdowns + job_tasks(servers, k as int) + server_job_tasks(servers, k as int)
            =~= shutdowns + job_tasks(servers, k as int + 1));
        k += 1;
    }
    let ghost with_jobs = tasks_view(tasks@);

    let mut k: usize = 0;
    while k < n
        invariant
            servers == config@.mcservers,
            n == config.mcservers.len(),
            k <= n,
            tasks_view(tasks@) == with_jobs + Seq::new(k as nat, |i: int| relaunch_task(servers, i)),
        decreases n - k,
    {
        let ghost before = tasks_view(tasks@);
        let key = config.mcservers[k].0.as_str();
        let chart = &config.mcservers[k].1;
        assert(servers[k as int].0 == key@);
        assert(servers[k as int].1 == chart@);
        let ghost jobs = servers[k as int].1.jobs_after_snapshot;
        let mut deps: Vec<String> = Vec::new();
        let mut j: usize = 0;
        while j < chart.jobs_after_snapshot.len()
            invariant
                j <= chart.jobs_after_snapshot.len(),
                deps.len() == j,
                forall|i: int|
                    0 <= i < j ==> (#[trigger] deps@[i])@ == job_task_name(
                        key@,
                        chart.jobs_after_snapshot@[i].0@,
                    ),
            decreases chart.jobs_after_snapshot.len() - j,
        {
            deps.push(job_task_name_of(key, chart.jobs_after_snapshot[j].0.as_str()));
            j += 1;
        }
        deps.push(concat("shutdown_mcserver/", key));
        assert(deps.deep_view() =~= relaunch_task(servers, k as int).deps) by {
            assert(jobs.len() == chart.jobs_after_snapshot.len());
            assert forall|i: int| 0 <= i < jobs.len() implies jobs[i].0
                == chart.jobs_after_snapshot@[i].0@ by {}
        }
        let name = concat("relaunch_mcserver/", key);
        tasks.push(TaskSpec::new(name, deps, DailyTask::RelaunchMcserver { server: k }));
        assert(tasks_view(tasks@) =~= before.push(relaunch_task(servers, k as int)));
        assert(before.push(relaunch_task(servers, k as int)) =~= with_jobs + Seq::new(
            (k + 1) as nat,
            |i: int| relaunch_task(servers, i),
        ));
        k += 1;
    }
    let ghost with_relaunches = tasks_view(tasks@);

    let mut deps: Vec<String> = Vec::new();
    let mut k: usize = 0;
    while k < n
        invariant
            servers == config@.mcservers,
            n == config.mcservers.len(),
            k <= n,
            deps.deep_view() == required_relaunches(servers, k as int),
        decreases n - k,
    {
        assert(servers[k as int].0 == config.mcservers@[k as int].0@);
        assert(servers[k as int].1 == config.mcservers@[k as int].1@);
        if config.mcservers[k].1.required_to_start {
            let ghost before = deps.deep_view();
            let name = concat("relaunch_mcserver/", config.mcservers[k].0.as_str());
            deps.push(name);
            assert(deps.deep_view() =~= before.push(relaunch_name(servers[k as int].0)));
        }
        k += 1;
    }
    let ghost required = deps.deep_view();
    deps.push(String::from_str("shutdown_mcproxy"));
    assert(deps.deep_view() =~= required.push("shutdown_mcproxy"@));
    tasks.push(TaskSpec::new(String::from_str("relaunch_mcproxy"), deps, DailyTask::RelaunchMcproxy));
    assert(tasks_view(tasks@) =~= daily_tasks(servers));
    tasks
}


/// The names of the tasks of a graph, in order.
pub open spec fn graph_names(tasks: Seq<TaskView>) -> Seq<Seq<char>> {
    Seq::new(tasks.len(), |i: int| tasks[i].name)
}

/// The dependencies of the tasks of a graph, in order.
pub open spec fn graph_deps(tasks: Seq<TaskView>) -> Seq<Seq<Seq<char>>> {
    Seq::new(tasks.len(), |i: int| tasks[i].deps)
}

/// The bodies of the tasks of a graph, in order, each still to be handed out.
pub open spec fn graph_bodies(tasks: Seq<TaskView>) -> Seq<Option<DailyTask>> {
    Seq::new(tasks.len(), |i: int| Some(tasks[i].body))
}

/// What a run of the daily routine works on.
#[derive(Debug)]
pub struct DailyRoutineContext {
    pub config: Config,
}

impl DailyRoutineContext {
    /// The context of a run on `config`.
    pub fn new(config: Config) -> (context: DailyRoutineContext)
        ensures
            context.config == config,
    {
        DailyRoutineContext { config }
    }

    /// Opens a run: builds the graph of the routine from the configuration and hands out
    /// the scheduler that runs it, at its start.
    ///
    /// The run is refused, as an invalid graph, exactly when the graph of the routine is
    /// none that can be run.
    pub fn run(&self, shutdown: Shutdown) -> (opened: Result<
        Scheduler<DailyTask, DailyRoutineError>,
        DailyRoutineError,
    >)
        ensures
            opened is Ok <==> is_dag(
                graph_names(daily_tasks(self.config@.mcservers)),
                graph_deps(daily_tasks(self.config@.mcservers)),
            ),
            ({
                let tasks = daily_tasks(self.config@.mcservers);
                match opened {
                    Ok(scheduler) => {
                        &&& is_dag(graph_names(tasks), graph_deps(tasks))
                        &&& scheduler.wf()
                        &&& scheduler.starts_with(
                            graph_names(tasks),
                            graph_deps(tasks),
                            graph_bodies(tasks),
                            shutdown,
                        )
                    },
                    Err(DailyRoutineError::InvalidTaskDag(error)) => refuses(
                        graph_names(tasks),
                        graph_deps(tasks),
                        error,
                    ),
                    Err(_) => false,
                }
            }),
    {
        let tasks = build_daily_tasks(&self.config);
        proof {
            let views = daily_tasks(self.config@.mcservers);
            assert(task_names(tasks@) =~= graph_names(views)) by {
                assert forall|i: int| 0 <= i < tasks@.len() implies task_names(tasks@)[i]
                    == graph_names(views)[i] by {
                    assert(tasks_view(tasks@)[i].name == tasks@[i].name@);
                }
            }
            assert(task_deps(tasks@) =~= graph_deps(views)) by {
                assert forall|i: int| 0 <= i < tasks@.len() implies task_deps(tasks@)[i]
                    == graph_deps(views)[i] by {
                    assert(tasks_view(tasks@)[i].deps == tasks@[i].deps.deep_view());
                }
            }
            assert(task_bodies(tasks@) =~= graph_bodies(views)) by {
                assert forall|i: int| 0 <= i < tasks@.len() implies task_bodies(tasks@)[i]
                    == graph_bodies(views)[i] by {
                    assert(tasks_view(tasks@)[i].body == tasks@[i].body);
                }
            }
        }
        match Scheduler::from_tasks(tasks, shutdown) {
            Ok(scheduler) => Ok(scheduler),
            Err(error) => Err(DailyRoutineError::InvalidTaskDag(error)),
        }
    }

    /// The result of the routine from the result of its scheduler: a task that ended
    /// without returning fails the routine as a join error.
    pub fn finished(result: Result<Result<(), DailyRoutineError>, TaskJoinError>) -> (outcome:
        Result<(), DailyRoutineError>)
        ensures
            outcome == match result {
                Ok(inner) => inner,
                Err(error) => Err(DailyRoutineError::TaskJoin(error)),
            },
    {
        match result {
            Ok(inner) => inner,
            Err(error) => Err(DailyRoutineError::TaskJoin(error)),
        }
    }
}

} // verus!
