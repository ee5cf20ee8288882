//! The scheduler of a task graph: which graphs it accepts, and what it does next at each
//! point of a run.

use crate::scheduler::graph::{
    acyclic, all_known, depends_on, follows, id_edge, id_follows, ids_in_range, is_blocked, is_cycle,
    is_id_cycle, lemma_edges_agree, lemma_marking_leaves_fewer, lemma_ordered_is_acyclic,
    lemma_stuck_has_cycle, orders, repeats_earlier, resolves, stuck, undone,
};
use crate::text::{distinct, index_of, lemma_index_of};
use crate::scheduler::shutdown::Shutdown;
use std::collections::VecDeque;
use vstd::prelude::*;
use vstd::string::StringExecFns;

verus! {

/// A named task, the names of the tasks it waits for, and what to execute for it.
///
/// The scheduler never looks at `body`: it hands it back when the task is to start.
#[derive(Debug)]
pub struct TaskSpec<X> {
    pub name: String,
    pub deps: Vec<String>,
    pub body: X,
}

impl<X> TaskSpec<X> {
    /// A task called `name` that waits for the tasks called `deps`.
    pub fn new(name: String, deps: Vec<String>, body: X) -> (task: Self)
        ensures
            task.name == name,
            task.deps == deps,
            task.body == body,
    {
        TaskSpec { name, deps, body }
    }
}

/// Why a set of tasks is no graph the scheduler can run.
#[derive(Debug, PartialEq, Eq)]
pub enum InvalidDagError {
    /// Two tasks have this name.
    DuplicateTaskName(String),
    /// `task` waits for `dependency`, and no task has that name.
    UnknownDependency { task: String, dependency: String },
    /// Some tasks wait for each other in a circle.
    Cycle,
}

/// What an invalid graph's error says to people.
pub open spec fn dag_error_message(error: InvalidDagError) -> Seq<char> {
    match error {
        InvalidDagError::DuplicateTaskName(name) => "Duplicate task name detected: "@ + name@,
        InvalidDagError::UnknownDependency { task, dependency } => {
            "Task '"@ + task@ + "' depends on unknown task '"@ + dependency@ + "'"@
        },
        InvalidDagError::Cycle => "Tasks depend on each other in a cycle"@,
    }
}

impl InvalidDagError {
    /// What the error says to people.
    pub fn message(&self) -> (text: String)
        ensures
            text@ == dag_error_message(*self),
    {
        match self {
            InvalidDagError::DuplicateTaskName(name) => {
                let mut text = String::from_str("Duplicate task name detected: ");
                text.append(name.as_str());
                text
            },
            InvalidDagError::UnknownDependency { task, dependency } => {
                let mut text = String::from_str("Task '");
                text.append(task.as_str());
                text.append("' depends on unknown task '");
                text.append(dependency.as_str());
                text.append("'");
                text
            },
            InvalidDagError::Cycle => String::from_str("Tasks depend on each other in a cycle"),
        }
    }
}

/// Where a task stands in a run.
#[derive(Clone, Copy, Debug, PartialEq, Eq, Structural)]
pub enum TaskState {
    /// Some dependency has not completed, or admission has stopped.
    Pending,
    /// Every dependency has completed; the task was queued to start.
    Ready,
    /// The task was started and has not settled.
    Running,
    /// The task returned success.
    Completed,
    /// The task returned an error or ended unexpectedly.
    Failed,
}

/// The names of `tasks`, in order.
pub open spec fn task_names<X>(tasks: Seq<TaskSpec<X>>) -> Seq<Seq<char>> {
    Seq::new(tasks.len(), |i: int| tasks[i].name@)
}

/// The dependencies of `tasks`, in order.
pub open spec fn task_deps<X>(tasks: Seq<TaskSpec<X>>) -> Seq<Seq<Seq<char>>> {
    Seq::new(tasks.len(), |i: int| tasks[i].deps.deep_view())
}

/// The bodies of `tasks`, in order, each still to be handed out.
pub open spec fn task_bodies<X>(tasks: Seq<TaskSpec<X>>) -> Seq<Option<X>> {
    Seq::new(tasks.len(), |i: int| Some(tasks[i].body))
}

/// Whether dependency `k` of task `i` is the first one, in task order and then in the
/// order of the task's list, that names no task.
pub open spec fn is_first_unknown(
    names: Seq<Seq<char>>,
    deps: Seq<Seq<Seq<char>>>,
    i: int,
    k: int,
) -> bool {
    &&& 0 <= i < deps.len()
    &&& 0 <= k < deps[i].len()
    &&& !names.contains(deps[i][k])
    &&& forall|m: int| 0 <= m < k ==> names.contains(#[trigger] deps[i][m])
    &&& forall|h: int, m: int|
        0 <= h < i && 0 <= m < deps[h].len() ==> names.contains(#[trigger] deps[h][m])
}

/// Whether `j` is the first position whose name occurred before.
pub open spec fn is_first_repeat(names: Seq<Seq<char>>, j: int) -> bool {
    &&& 0 <= j < names.len()
    &&& repeats_earlier(names, j)
    &&& forall|h: int| 0 <= h < j ==> !repeats_earlier(names, h)
}

/// The tasks before `upto` that wait for nothing, in order.
pub open spec fn roots(deps: Seq<Seq<Seq<char>>>, upto: int) -> Seq<usize>
    decreases upto,
{
    if upto <= 0 {
        Seq::empty()
    } else if deps[upto - 1].len() == 0 {
        roots(deps, upto - 1).push((upto - 1) as usize)
    } else {
        roots(deps, upto - 1)
    }
}

/// The state in which each task starts: ready if it waits for nothing, else pending.
pub open spec fn initial_states(deps: Seq<Seq<Seq<char>>>) -> Seq<TaskState> {
    Seq::new(
        deps.len(),
        |i: int|
            if deps[i].len() == 0 {
                TaskState::Ready
            } else {
                TaskState::Pending
            },
    )
}

/// The position of `name` among `names`, if it is there.
fn find_task(names: &Vec<String>, name: &String) -> (found: Option<usize>)
    ensures
        match found {
            Some(j) => j < names.len() && j == index_of(names.deep_view(), name@),
            None => index_of(names.deep_view(), name@) == names.len(),
        },
{
    let mut j: usize = 0;
    while j < names.len()
        invariant
            j <= names.len(),
            forall|h: int| 0 <= h < j ==> names.deep_view()[h] != name@,
        decreases names.len() - j,
    {
        assert(names.deep_view()[j as int] == names[j as int]@);
        if names[j] == *name {
            proof {
                lemma_index_of(names.deep_view(), name@);
            }
            return Some(j);
        }
        j += 1;
    }
    proof {
        lemma_index_of(names.deep_view(), name@);
        let at = index_of(names.deep_view(), name@);
        if at < names.len() {
            assert(names.deep_view()[at] == name@);
        }
    }
    None
}

/// The first position whose name occurred before, if any name occurs twice.
fn find_repeat(names: &Vec<String>) -> (found: Option<usize>)
    ensures
        match found {
            Some(j) => is_first_repeat(names.deep_view(), j as int),
            None => distinct(names.deep_view()),
        },
{
    let mut j: usize = 0;
    while j < names.len()
        invariant
            j <= names.len(),
            forall|h: int| 0 <= h < j ==> !repeats_earlier(names.deep_view(), h),
        decreases names.len() - j,
    {
        let mut i: usize = 0;
        while i < j
            invariant
                i <= j < names.len(),
                forall|h: int| 0 <= h < j ==> !repeats_earlier(names.deep_view(), h),
                forall|h: int| 0 <= h < i ==> names.deep_view()[h] != names.deep_view()[j as int],
            decreases j - i,
        {
            assert(names.deep_view()[i as int] == names[i as int]@);
            assert(names.deep_view()[j as int] == names[j as int]@);
            if names[i] == names[j] {
                assert(repeats_earlier(names.deep_view(), j as int));
                return Some(j);
            }
            i += 1;
        }
        assert(!repeats_earlier(names.deep_view(), j as int));
        j += 1;
    }
    proof {
        let names_v = names.deep_view();
        assert forall|a: int, b: int| 0 <= a < b < names_v.len() implies names_v[a]
            != names_v[b] by {
            if names_v[a] == names_v[b] {
                assert(repeats_earlier(names_v, b));
            }
        }
    }
    None
}

/// For every dependency the position of the task it names, or the place of the first
/// dependency that names none.
fn resolve(names: &Vec<String>, deps: &Vec<Vec<String>>) -> (resolved: Result<
    Vec<Vec<usize>>,
    (usize, usize),
>)
    requires
        names.len() == deps.len(),
    ensures
        match resolved {
            Ok(ids) => resolves(names.deep_view(), deps.deep_view(), ids@) && all_known(
                names.deep_view(),
                deps.deep_view(),
            ),
            Err((i, k)) => is_first_unknown(
                names.deep_view(),
                deps.deep_view(),
                i as int,
                k as int,
            ),
        },
{
    let ghost names_v = names.deep_view();
    let ghost deps_v = deps.deep_view();
    let mut ids: Vec<Vec<usize>> = Vec::new();
    let mut i: usize = 0;
    while i < deps.len()
        invariant
            names_v == names.deep_view(),
            deps_v == deps.deep_view(),
            names.len() == deps.len(),
            i <= deps.len(),
            ids.len() == i,
            forall|h: int| 0 <= h < i ==> (#[trigger] ids@[h]).len() == deps_v[h].len(),
            forall|h: int, m: int|
                0 <= h < i && 0 <= m < ids@[h].len() ==> {
                    &&& (#[trigger] ids@[h][m]) < names_v.len()
                    &&& ids@[h][m] == index_of(names_v, deps_v[h][m])
                },
            forall|h: int, m: int|
                0 <= h < i && 0 <= m < deps_v[h].len() ==> names_v.contains(
                    #[trigger] deps_v[h][m],
                ),
        decreases deps.len() - i,
    {
        let mut row: Vec<usize> = Vec::new();
        let mut k: usize = 0;
        assert(deps_v[i as int] == deps[i as int].deep_view());
        while k < deps[i].len()
            invariant
                names_v == names.deep_view(),
                deps_v == deps.deep_view(),
                i < deps.len(),
                deps_v[i as int] == deps[i as int].deep_view(),
                k <= deps[i as int].len(),
                row.len() == k,
                forall|h: int, m: int|
                    0 <= h < i && 0 <= m < deps_v[h].len() ==> names_v.contains(
                        #[trigger] deps_v[h][m],
                    ),
                forall|m: int|
                    0 <= m < k ==> {
                        &&& (#[trigger] row@[m]) < names_v.len()
                        &&& row@[m] == index_of(names_v, deps_v[i as int][m])
                    },
                forall|m: int| 0 <= m < k ==> names_v.contains(#[trigger] deps_v[i as int][m]),
            decreases deps[i as int].len() - k,
        {
            assert(deps_v[i as int][k as int] == deps[i as int][k as int]@);
            proof {
                lemma_index_of(names_v, deps_v[i as int][k as int]);
            }
            match find_task(names, &deps[i][k]) {
                None => {
                    assert(deps_v.len() == deps.len());
                    assert(deps_v[i as int].len() == deps[i as int].len());
                    assert(!names_v.contains(deps_v[i as int][k as int]));
                    return Err((i, k));
                },
                Some(j) => {
                    row.push(j);
                },
            }
            k += 1;
        }
        ids.push(row);
        i += 1;
    }
    Ok(ids)
}

/// Whether every resolved dependency of task `u` is marked.
fn all_marked(ids: &Vec<Vec<usize>>, done: &Vec<bool>, u: usize) -> (free: bool)
    requires
        ids_in_range(ids@),
        done.len() == ids.len(),
        u < ids.len(),
    ensures
        free == !is_blocked(ids@, done@, u as int),
{
    let mut k: usize = 0;
    while k < ids[u].len()
        invariant
            ids_in_range(ids@),
            done.len() == ids.len(),
            u < ids.len(),
            k <= ids@[u as int].len(),
            forall|m: int| 0 <= m < k ==> done@[#[trigger] ids@[u as int][m] as int],
        decreases ids@[u as int].len() - k,
    {
        assert(ids@[u as int][k as int] < ids.len());
        if !done[ids[u][k]] {
            return false;
        }
        k += 1;
    }
    true
}

/// Orders the graph if it can be ordered. The ghost result is then a rank that puts every
/// task after its dependencies; otherwise it is a cycle.
fn find_order(ids: &Vec<Vec<usize>>) -> (found: (bool, Ghost<Seq<int>>))
    requires
        ids_in_range(ids@),
    ensures
        found.0 ==> found.1@.len() == ids.len() && forall|u: int, d: int|
            id_edge(ids@, u, d) ==> found.1@[d] < found.1@[u],
        !found.0 ==> is_id_cycle(ids@, found.1@),
{
    let n = ids.len();
    let mut done: Vec<bool> = Vec::new();
    while done.len() < n
        invariant
            done.len() <= n,
            forall|u: int| 0 <= u < done.len() ==> !done@[u],
        decreases n - done.len(),
    {
        done.push(false);
    }
    let ghost mut rank: Seq<int> = Seq::new(n as nat, |u: int| 0int);
    let ghost mut round: int = 0;
    loop
        invariant
            n == ids.len(),
            ids_in_range(ids@),
            done.len() == n,
            rank.len() == n,
            forall|u: int| 0 <= u < n && done@[u] ==> rank[u] < round,
            forall|u: int, k: int|
                0 <= u < n && done@[u] && 0 <= k < ids@[u].len() ==> {
                    &&& done@[#[trigger] ids@[u][k] as int]
                    &&& rank[ids@[u][k] as int] < rank[u]
                },
        ensures
            stuck(ids@, done@),
        decreases undone(done@),
    {
        let mut candidate: Option<usize> = None;
        let mut u: usize = 0;
        while u < n && candidate.is_none()
            invariant
                n == ids.len(),
                ids_in_range(ids@),
                done.len() == n,
                u <= n,
                match candidate {
                    Some(c) => c < n && !done@[c as int] && !is_blocked(ids@, done@, c as int),
                    None => forall|v: int|
                        0 <= v < u && !done@[v] ==> #[trigger] is_blocked(ids@, done@, v),
                },
            decreases n - u + if candidate is None { 1int } else { 0int },
        {
            if !done[u] && all_marked(ids, &done, u) {
                candidate = Some(u);
            } else {
                u += 1;
            }
        }
        match candidate {
            None => {
                break ;
            },
            Some(c) => {
                proof {
                    lemma_marking_leaves_fewer(done@, c as int);
                    assert forall|k: int| 0 <= k < ids@[c as int].len() implies done@[
                    #[trigger] ids@[c as int][k] as int] by {
                        if !done@[ids@[c as int][k] as int] {
                            assert(is_blocked(ids@, done@, c as int));
                        }
                    }
                    rank = rank.update(c as int, round);
                    round = round + 1;
                }
                done.set(c, true);
            },
        }
    }
    let mut u: usize = 0;
    while u < n
        invariant
            n == ids.len(),
            ids_in_range(ids@),
            stuck(ids@, done@),
            done.len() == n,
            u <= n,
            forall|v: int| 0 <= v < u ==> done@[v],
        decreases n - u,
    {
        if !done[u] {
            let ghost walk = lemma_stuck_has_cycle(ids@, done@, u as int);
            return (false, Ghost(walk));
        }
        u += 1;
    }
    proof {
        assert forall|v: int, d: int| id_edge(ids@, v, d) implies rank[d] < rank[v] by {
            let k = choose|k: int| 0 <= k < ids@[v].len() && #[trigger] ids@[v][k] == d;
            assert(rank[ids@[v][k] as int] < rank[v]);
        }
    }
    (true, Ghost(rank))
}


/// A task ended without returning: it panicked or was cut off.
#[derive(Debug, PartialEq, Eq)]
pub struct TaskJoinError {
    pub message: String,
}

/// How a started task settled.
#[derive(Debug)]
pub enum TaskResult<E> {
    /// It returned success.
    Succeeded,
    /// It returned this error.
    Failed(E),
    /// It ended without returning.
    JoinFailed(TaskJoinError),
}

/// The first failure of a run.
#[derive(Debug)]
pub enum Failure<E> {
    /// A task returned this error.
    Task(E),
    /// A task ended without returning.
    Join(TaskJoinError),
}

/// What the caller of [`Scheduler::run`] does next.
#[derive(Debug)]
pub enum RunStep<X, E> {
    /// Start the task at this position with its body, then call `run` again.
    Launch { task: usize, name: String, body: X },
    /// Nothing can start: wait until a running task settles, report it with
    /// [`Scheduler::settle`], then call `run` again.
    Await,
    /// The run is over, with its result.
    Finished(Result<Result<(), E>, TaskJoinError>),
}

/// The result of a run whose first failure, if any, was `failure`.
pub open spec fn run_result<E>(failure: Option<Failure<E>>) -> Result<Result<(), E>, TaskJoinError> {
    match failure {
        None => Ok(Ok(())),
        Some(Failure::Task(error)) => Ok(Err(error)),
        Some(Failure::Join(error)) => Err(error),
    }
}

/// Whether every dependency of task `u` has completed: its indegree is zero.
pub open spec fn all_completed(
    names: Seq<Seq<char>>,
    deps: Seq<Seq<Seq<char>>>,
    states: Seq<TaskState>,
    u: int,
) -> bool {
    forall|k: int|
        0 <= k < deps[u].len() ==> states[index_of(names, #[trigger] deps[u][k])]
            == TaskState::Completed
}

/// The indegree of task `u`: how many of its first `upto` dependencies have not completed.
pub open spec fn indegree(
    names: Seq<Seq<char>>,
    deps: Seq<Seq<Seq<char>>>,
    states: Seq<TaskState>,
    u: int,
    upto: int,
) -> nat
    decreases upto,
{
    if upto <= 0 {
        0
    } else {
        indegree(names, deps, states, u, upto - 1) + if states[index_of(names, deps[u][upto - 1])]
            == TaskState::Completed {
            0nat
        } else {
            1nat
        }
    }
}

/// Every dependency of a task has completed exactly when its indegree is zero.
pub proof fn lemma_indegree_zero(
    names: Seq<Seq<char>>,
    deps: Seq<Seq<Seq<char>>>,
    states: Seq<TaskState>,
    u: int,
)
    ensures
        all_completed(names, deps, states, u) <==> indegree(
            names,
            deps,
            states,
            u,
            deps[u].len() as int,
        ) == 0,
{
    lemma_indegree_counts(names, deps, states, u, deps[u].len() as int);
}

proof fn lemma_indegree_counts(
    names: Seq<Seq<char>>,
    deps: Seq<Seq<Seq<char>>>,
    states: Seq<TaskState>,
    u: int,
    upto: int,
)
    requires
        0 <= upto <= deps[u].len(),
    ensures
        indegree(names, deps, states, u, upto) == 0 <==> forall|k: int|
            0 <= k < upto ==> states[index_of(names, #[trigger] deps[u][k])]
                == TaskState::Completed,
    decreases upto,
{
    if upto > 0 {
        lemma_indegree_counts(names, deps, states, u, upto - 1);
    }
}

/// Whether the completion of `task` lets the pending task `u` start: `u` waits for `task`
/// and, in `states`, all that it waits for has completed.
pub open spec fn is_unblocked(
    names: Seq<Seq<char>>,
    deps: Seq<Seq<Seq<char>>>,
    states: Seq<TaskState>,
    task: int,
    u: int,
) -> bool {
    &&& states[u] == TaskState::Pending
    &&& depends_on(names, deps, u, task)
    &&& all_completed(names, deps, states, u)
}

/// The tasks before `upto` that the completion of `task` lets start, in order.
pub open spec fn unblocked(
    names: Seq<Seq<char>>,
    deps: Seq<Seq<Seq<char>>>,
    states: Seq<TaskState>,
    task: int,
    upto: int,
) -> Seq<usize>
    decreases upto,
{
    if upto <= 0 {
        Seq::empty()
    } else if is_unblocked(names, deps, states, task, upto - 1) {
        unblocked(names, deps, states, task, upto - 1).push((upto - 1) as usize)
    } else {
        unblocked(names, deps, states, task, upto - 1)
    }
}

/// `states` with every task that the completion of `task` lets start made ready.
pub open spec fn released(
    names: Seq<Seq<char>>,
    deps: Seq<Seq<Seq<char>>>,
    states: Seq<TaskState>,
    task: int,
) -> Seq<TaskState> {
    Seq::new(
        states.len(),
        |u: int|
            if is_unblocked(names, deps, states, task, u) {
                TaskState::Ready
            } else {
                states[u]
            },
    )
}

/// Whether the tasks are a graph that can be run: no two share a name, every dependency
/// names a task, and no tasks wait for each other in a circle.
pub open spec fn is_dag(names: Seq<Seq<char>>, deps: Seq<Seq<Seq<char>>>) -> bool {
    &&& distinct(names)
    &&& all_known(names, deps)
    &&& acyclic(names, deps)
}

/// Whether `error` is why the tasks are no graph that can be run: the first name that
/// occurred before; or, with all names distinct, the first dependency that names no task;
/// or, with all dependencies known too, a cycle.
pub open spec fn refuses(
    names: Seq<Seq<char>>,
    deps: Seq<Seq<Seq<char>>>,
    error: InvalidDagError,
) -> bool {
    match error {
        InvalidDagError::DuplicateTaskName(name) => exists|j: int|
            is_first_repeat(names, j) && name@ == names[j],
        InvalidDagError::UnknownDependency { task, dependency } => {
            &&& distinct(names)
            &&& exists|i: int, k: int|
                is_first_unknown(names, deps, i, k) && task@ == names[i] && dependency@
                    == deps[i][k]
        },
        InvalidDagError::Cycle => {
            &&& distinct(names)
            &&& all_known(names, deps)
            &&& !acyclic(names, deps)
        },
    }
}

/// Tasks that are refused are no graph that can be run.
pub proof fn lemma_refused_is_no_dag(
    names: Seq<Seq<char>>,
    deps: Seq<Seq<Seq<char>>>,
    error: InvalidDagError,
)
    requires
        refuses(names, deps, error),
    ensures
        !is_dag(names, deps),
{
    match error {
        InvalidDagError::DuplicateTaskName(name) => {
            let j = choose|j: int| is_first_repeat(names, j) && name@ == names[j];
            let i = choose|i: int| 0 <= i < j && names[i] == names[j];
            assert(!distinct(names));
        },
        InvalidDagError::UnknownDependency { task, dependency } => {
            let (i, k) = choose|i: int, k: int|
                is_first_unknown(names, deps, i, k) && task@ == names[i] && dependency@
                    == deps[i][k];
            assert(!names.contains(deps[i][k]));
        },
        InvalidDagError::Cycle => {},
    }
}

/// A validated task graph and the state of its run.
///
/// The caller drives the run: it calls [`Scheduler::run`], does what the step says, and
/// reports every settled task with [`Scheduler::settle`] and every termination signal with
/// [`Scheduler::signal`].
pub struct Scheduler<X, E> {
    names: Vec<String>,
    deps: Vec<Vec<String>>,
    ids: Vec<Vec<usize>>,
    bodies: Vec<Option<X>>,
    states: Vec<TaskState>,
    ready: VecDeque<usize>,
    failure: Option<Failure<E>>,
    failed: bool,
    shutdown: Shutdown,
}

impl<X, E> Scheduler<X, E> {
    /// The names of the tasks, in the order in which they were given.
    pub closed spec fn names(self) -> Seq<Seq<char>> {
        self.names.deep_view()
    }

    /// For each task, the names it waits for.
    pub closed spec fn deps(self) -> Seq<Seq<Seq<char>>> {
        self.deps.deep_view()
    }

    /// For each task, its body while it has not been handed out.
    pub closed spec fn bodies(self) -> Seq<Option<X>> {
        self.bodies@
    }

    /// Where each task stands.
    pub closed spec fn states(self) -> Seq<TaskState> {
        self.states@
    }

    /// The tasks queued to start, the next one first.
    pub closed spec fn ready(self) -> Seq<usize> {
        self.ready@
    }

    /// The first failure reported, until the run's result was handed out.
    pub closed spec fn failure(self) -> Option<Failure<E>> {
        self.failure
    }

    /// Whether a task has failed in this run.
    pub closed spec fn has_failed(self) -> bool {
        self.failed
    }

    /// The shutdown latch.
    pub closed spec fn shutdown(self) -> Shutdown {
        self.shutdown
    }

    /// Whether the scheduler is at the start of a run of the given tasks: the tasks that
    /// wait for nothing are queued to start, in their order, all others are pending, and
    /// nothing has failed.
    pub open spec fn starts_with(
        self,
        names: Seq<Seq<char>>,
        deps: Seq<Seq<Seq<char>>>,
        bodies: Seq<Option<X>>,
        shutdown: Shutdown,
    ) -> bool {
        &&& self.names() == names
        &&& self.deps() == deps
        &&& self.bodies() == bodies
        &&& self.states() == initial_states(deps)
        &&& self.ready() == roots(deps, names.len() as int)
        &&& self.failure() is None
        &&& !self.has_failed()
        &&& self.shutdown() == shutdown
    }

    /// Whether no further task is admitted: shutdown was requested or a task failed.
    pub open spec fn admission_stopped(self) -> bool {
        self.shutdown().armed() || self.has_failed()
    }

    /// Whether some task is running.
    pub open spec fn any_running(self) -> bool {
        exists|u: int| 0 <= u < self.states().len() && self.states()[u] == TaskState::Running
    }

    /// Whether task `u` is running.
    pub open spec fn is_running(self, u: int) -> bool {
        0 <= u < self.states().len() && self.states()[u] == TaskState::Running
    }

    /// The invariant of a scheduler: its graph is valid, and the state of the run fits it.
    pub closed spec fn wf(self) -> bool {
        let n = self.names.len();
        let names = self.names.deep_view();
        let deps = self.deps.deep_view();
        &&& self.deps.len() == n
        &&& self.ids.len() == n
        &&& self.bodies.len() == n
        &&& self.states.len() == n
        &&& distinct(names)
        &&& resolves(names, deps, self.ids@)
        &&& acyclic(names, deps)
        &&& forall|u: int|
            0 <= u < n ==> ((#[trigger] self.bodies@[u]) is Some <==> (self.states@[u]
                == TaskState::Pending || self.states@[u] == TaskState::Ready))
        &&& forall|q: int|
            0 <= q < self.ready@.len() ==> (#[trigger] self.ready@[q]) < n && self.states@[self.ready@[q] as int]
                == TaskState::Ready
        &&& forall|p: int, q: int|
            0 <= p < q < self.ready@.len() ==> self.ready@[p] != self.ready@[q]
        &&& forall|u: int|
            0 <= u < n && (#[trigger] self.states@[u]) != TaskState::Pending ==> all_completed(
                names,
                deps,
                self.states@,
                u,
            )
        &&& !self.failed ==> forall|u: int|
            0 <= u < n ==> (#[trigger] self.states@[u]) != TaskState::Failed
        &&& self.failure is Some ==> self.failed
        &&& !self.failed && !self.shutdown.armed() ==> {
            &&& forall|u: int|
                0 <= u < n && (#[trigger] self.states@[u]) == TaskState::Pending ==> !all_completed(
                    names,
                    deps,
                    self.states@,
                    u,
                )
            &&& forall|u: int|
                0 <= u < n && (#[trigger] self.states@[u]) == TaskState::Ready
                    ==> self.ready@.contains(u as usize)
        }
    }
}


proof fn lemma_roots(deps: Seq<Seq<Seq<char>>>, upto: int)
    requires
        0 <= upto <= deps.len(),
        deps.len() <= usize::MAX,
    ensures
        forall|q: int|
            0 <= q < roots(deps, upto).len() ==> (#[trigger] roots(deps, upto)[q]) < upto
                && deps[roots(deps, upto)[q] as int].len() == 0,
        forall|p: int, q: int|
            0 <= p < q < roots(deps, upto).len() ==> roots(deps, upto)[p] < roots(deps, upto)[q],
        forall|u: int|
            0 <= u < upto && deps[u].len() == 0 ==> roots(deps, upto).contains(u as usize),
    decreases upto,
{
    if upto > 0 {
        lemma_roots(deps, upto - 1);
        let before = roots(deps, upto - 1);
        let now = roots(deps, upto);
        assert forall|u: int| 0 <= u < upto && deps[u].len() == 0 implies now.contains(
            u as usize,
        ) by {
            if u < upto - 1 {
                let q = choose|q: int| 0 <= q < before.len() && before[q] == u as usize;
                assert(now[q] == u as usize);
            } else {
                assert(now[now.len() - 1] == u as usize);
            }
        }
    }
}

/// Takes the tasks apart: their names, their dependencies and their bodies, each in the
/// order of the tasks.
fn unzip_tasks<X>(tasks: Vec<TaskSpec<X>>) -> (parts: (
    Vec<String>,
    Vec<Vec<String>>,
    Vec<Option<X>>,
))
    ensures
        parts.0.len() == tasks.len(),
        parts.1.len() == tasks.len(),
        parts.0.deep_view() == task_names(tasks@),
        parts.1.deep_view() == task_deps(tasks@),
        parts.2@ == task_bodies(tasks@),
{
    let ghost all = tasks@;
    let mut tasks = tasks;
    let mut names: Vec<String> = Vec::new();
    let mut deps: Vec<Vec<String>> = Vec::new();
    let mut bodies: Vec<Option<X>> = Vec::new();
    while tasks.len() > 0
        invariant
            tasks@ == all.subrange(0, tasks.len() as int),
            tasks.len() <= all.len(),
            names.len() == all.len() - tasks.len(),
            deps.len() == names.len(),
            bodies.len() == names.len(),
            forall|i: int|
                0 <= i < names.len() ==> (#[trigger] names@[i])@ == all[tasks.len() + i].name@,
            forall|i: int|
                0 <= i < names.len() ==> (#[trigger] deps@[i]).deep_view()
                    == all[tasks.len() + i].deps.deep_view(),
            forall|i: int|
                0 <= i < names.len() ==> (#[trigger] bodies@[i]) == Some(
                    all[tasks.len() + i].body,
                ),
        decreases tasks.len(),
    {
        let ghost before = tasks.len();
        let task = tasks.pop();
        match task {
            Some(task) => {
                assert(task == all[before - 1]);
                names.insert(0, task.name);
                deps.insert(0, task.deps);
                bodies.insert(0, Some(task.body));
            },
            None => {
                assert(false);
            },
        }
    }
    proof {
        assert(names.deep_view() =~= task_names(all));
        assert(deps.deep_view() =~= task_deps(all));
        assert(bodies@ =~= task_bodies(all));
    }
    (names, deps, bodies)
}

impl<X, E> Scheduler<X, E> {
    /// Builds the scheduler of `tasks`, or says why they are no graph that can be run.
    ///
    /// A scheduler is built exactly when no two tasks share a name, every dependency
    /// names a task, and no tasks wait for each other in a circle. Otherwise the error is
    /// the first of these that fails: the first name that occurred before; else the first
    /// dependency, in task order, that names no task; else `Cycle`.
    ///
    /// In the scheduler built, the tasks that wait for nothing are queued to start, in
    /// their order, and all others are pending.
    pub fn from_tasks(tasks: Vec<TaskSpec<X>>, shutdown: Shutdown) -> (built: Result<
        Self,
        InvalidDagError,
    >)
        ensures
            built is Ok <==> is_dag(task_names(tasks@), task_deps(tasks@)),
            match built {
                Ok(scheduler) => {
                    &&& is_dag(task_names(tasks@), task_deps(tasks@))
                    &&& scheduler.wf()
                    &&& scheduler.starts_with(
                        task_names(tasks@),
                        task_deps(tasks@),
                        task_bodies(tasks@),
                        shutdown,
                    )
                },
                Err(error) => refuses(task_names(tasks@), task_deps(tasks@), error),
            },
    {
        let ghost names_v = task_names(tasks@);
        let ghost deps_v = task_deps(tasks@);
        let (names, deps, bodies) = unzip_tasks(tasks);
        match find_repeat(&names) {
            Some(j) => {
                assert(names_v[j as int] == names@[j as int]@);
                let error = InvalidDagError::DuplicateTaskName(names[j].clone());
                proof {
                    lemma_refused_is_no_dag(names_v, deps_v, error);
                }
                return Err(error);
            },
            None => {},
        }
        let ids = match resolve(&names, &deps) {
            Err((i, k)) => {
                assert(names_v[i as int] == names@[i as int]@);
                assert(deps_v[i as int] == deps@[i as int].deep_view());
                assert(deps_v[i as int][k as int] == deps@[i as int]@[k as int]@);
                let error = InvalidDagError::UnknownDependency {
                    task: names[i].clone(),
                    dependency: deps[i][k].clone(),
                };
                proof {
                    lemma_refused_is_no_dag(names_v, deps_v, error);
                }
                return Err(error);
            },
            Ok(ids) => ids,
        };
        let (ordered, Ghost(witness)) = find_order(&ids);
        if !ordered {
            proof {
                assert forall|k: int| 0 <= k < witness.len() - 1 implies #[trigger] follows(
                    names_v,
                    deps_v,
                    witness,
                    k,
                ) by {
                    assert(id_follows(ids@, witness, k));
                    lemma_edges_agree(names_v, deps_v, ids@, witness[k], witness[k + 1]);
                }
                assert(is_cycle(names_v, deps_v, witness));
            }
            return Err(InvalidDagError::Cycle);
        }
        proof {
            assert forall|i: int, j: int| depends_on(names_v, deps_v, i, j) implies witness[j]
                < witness[i] by {
                lemma_edges_agree(names_v, deps_v, ids@, i, j);
            }
            assert(orders(names_v, deps_v, witness));
            lemma_ordered_is_acyclic(names_v, deps_v, witness);
        }
        let n = names.len();
        let mut states: Vec<TaskState> = Vec::new();
        let mut ready: VecDeque<usize> = VecDeque::new();
        let mut i: usize = 0;
        while i < n
            invariant
                n == deps.len(),
                deps_v == deps.deep_view(),
                i <= n,
                states.len() == i,
                forall|u: int| 0 <= u < i ==> (#[trigger] states@[u]) == initial_states(deps_v)[u],
                ready@ == roots(deps_v, i as int),
            decreases n - i,
        {
            assert(deps_v[i as int].len() == deps@[i as int].len());
            if deps[i].len() == 0 {
                states.push(TaskState::Ready);
                ready.push_back(i);
            } else {
                states.push(TaskState::Pending);
            }
            i += 1;
        }
        assert(states@ =~= initial_states(deps_v));
        let scheduler = Scheduler {
            names,
            deps,
            ids,
            bodies,
            states,
            ready,
            failure: None,
            failed: false,
            shutdown,
        };
        proof {
            lemma_roots(deps_v, n as int);
            assert forall|u: int|
                0 <= u < n && (#[trigger] scheduler.states@[u])
                    == TaskState::Pending implies !all_completed(
                names_v,
                deps_v,
                scheduler.states@,
                u,
            ) by {
                assert(deps_v[u].len() > 0);
                let d = scheduler.ids@[u][0];
                assert(d == index_of(names_v, deps_v[u][0]));
                assert(scheduler.states@[d as int] != TaskState::Completed);
            }
        }
        Ok(scheduler)
    }
}


proof fn lemma_unblocked(
    names: Seq<Seq<char>>,
    deps: Seq<Seq<Seq<char>>>,
    states: Seq<TaskState>,
    task: int,
    upto: int,
)
    requires
        0 <= upto <= states.len(),
        states.len() <= usize::MAX,
    ensures
        forall|q: int|
            0 <= q < unblocked(names, deps, states, task, upto).len() ==> (#[trigger] unblocked(
                names,
                deps,
                states,
                task,
                upto,
            )[q]) < upto && is_unblocked(
                names,
                deps,
                states,
                task,
                unblocked(names, deps, states, task, upto)[q] as int,
            ),
        forall|p: int, q: int|
            0 <= p < q < unblocked(names, deps, states, task, upto).len() ==> unblocked(
                names,
                deps,
                states,
                task,
                upto,
            )[p] < unblocked(names, deps, states, task, upto)[q],
        forall|u: int|
            0 <= u < upto && is_unblocked(names, deps, states, task, u) ==> unblocked(
                names,
                deps,
                states,
                task,
                upto,
            ).contains(u as usize),
    decreases upto,
{
    if upto > 0 {
        lemma_unblocked(names, deps, states, task, upto - 1);
        let before = unblocked(names, deps, states, task, upto - 1);
        let now = unblocked(names, deps, states, task, upto);
        assert forall|u: int|
            0 <= u < upto && is_unblocked(names, deps, states, task, u) implies now.contains(
            u as usize,
        ) by {
            if u < upto - 1 {
                let q = choose|q: int| 0 <= q < before.len() && before[q] == u as usize;
                assert(now[q] == u as usize);
            } else {
                assert(now[now.len() - 1] == u as usize);
            }
        }
    }
}

/// Whether `d` is among `row`.
fn row_contains(row: &Vec<usize>, d: usize) -> (found: bool)
    ensures
        found == exists|k: int| 0 <= k < row.len() && #[trigger] row@[k] == d,
{
    let mut k: usize = 0;
    while k < row.len()
        invariant
            k <= row.len(),
            forall|m: int| 0 <= m < k ==> row@[m] != d,
        decreases row.len() - k,
    {
        if row[k] == d {
            return true;
        }
        k += 1;
    }
    false
}

/// Whether every task of `row` has completed.
fn row_completed(row: &Vec<usize>, states: &Vec<TaskState>) -> (done: bool)
    requires
        forall|k: int| 0 <= k < row.len() ==> (#[trigger] row@[k]) < states.len(),
    ensures
        done == forall|k: int|
            0 <= k < row.len() ==> states@[#[trigger] row@[k] as int] == TaskState::Completed,
{
    let mut k: usize = 0;
    while k < row.len()
        invariant
            k <= row.len(),
            forall|m: int| 0 <= m < row.len() ==> (#[trigger] row@[m]) < states.len(),
            forall|m: int|
                0 <= m < k ==> states@[#[trigger] row@[m] as int] == TaskState::Completed,
        decreases row.len() - k,
    {
        if states[row[k]] != TaskState::Completed {
            return false;
        }
        k += 1;
    }
    true
}

/// With resolved dependencies, "every name completed" and "every position completed" say
/// the same.
proof fn lemma_completed_by_ids(
    names: Seq<Seq<char>>,
    deps: Seq<Seq<Seq<char>>>,
    ids: Seq<Vec<usize>>,
    states: Seq<TaskState>,
    u: int,
)
    requires
        resolves(names, deps, ids),
        0 <= u < ids.len(),
    ensures
        all_completed(names, deps, states, u) <==> forall|k: int|
            0 <= k < ids[u].len() ==> states[#[trigger] ids[u][k] as int] == TaskState::Completed,
{
    if all_completed(names, deps, states, u) {
        assert forall|k: int| 0 <= k < ids[u].len() implies states[#[trigger] ids[u][k] as int]
            == TaskState::Completed by {
            assert(ids[u][k] == index_of(names, deps[u][k]));
        }
    }
    if forall|k: int|
        0 <= k < ids[u].len() ==> states[#[trigger] ids[u][k] as int] == TaskState::Completed {
        assert forall|k: int| 0 <= k < deps[u].len() implies states[index_of(
            names,
            #[trigger] deps[u][k],
        )] == TaskState::Completed by {
            assert(ids[u][k] == index_of(names, deps[u][k]));
        }
    }
}

impl<X, E> Scheduler<X, E> {
    /// The number of tasks.
    pub fn len(&self) -> (n: usize)
        ensures
            n == self.states().len(),
    {
        self.states.len()
    }

    /// Where task `task` stands, if there is such a task.
    pub fn state_of(&self, task: usize) -> (state: Option<TaskState>)
        ensures
            state == if task < self.states().len() {
                Some(self.states()[task as int])
            } else {
                None
            },
    {
        if task < self.states.len() {
            Some(self.states[task])
        } else {
            None
        }
    }

    /// The position of the task called `name`, if there is one.
    pub fn find(&self, name: &String) -> (task: Option<usize>)
        ensures
            match task {
                Some(j) => j < self.names().len() && j == index_of(self.names(), name@),
                None => !self.names().contains(name@),
            },
    {
        proof {
            lemma_index_of(self.names.deep_view(), name@);
        }
        find_task(&self.names, name)
    }

    /// Whether shutdown was requested.
    pub fn shutdown_requested(&self) -> (armed: bool)
        ensures
            armed == self.shutdown().armed(),
    {
        self.shutdown.requested()
    }

    /// Records a termination signal: the latch is armed, and no task is admitted from now
    /// on. Nothing else changes.
    pub fn signal(&mut self, label: &'static str)
        requires
            old(self).wf(),
        ensures
            final(self).wf(),
            final(self).shutdown().armed(),
            old(self).shutdown().armed() ==> final(self).shutdown() == old(self).shutdown(),
            !old(self).shutdown().armed() ==> final(self).shutdown().label() == Some(label),
            final(self).names() == old(self).names(),
            final(self).deps() == old(self).deps(),
            final(self).bodies() == old(self).bodies(),
            final(self).states() == old(self).states(),
            final(self).ready() == old(self).ready(),
            final(self).failure() == old(self).failure(),
            final(self).has_failed() == old(self).has_failed(),
    {
        self.shutdown.arm(label);
    }

    /// Says what to do next, and moves the run on accordingly.
    ///
    /// Once shutdown was requested or a task has failed, the queue of ready tasks is
    /// dropped and nothing starts any more. Otherwise the task at the head of the queue is
    /// launched: it becomes running and its body is handed out, once and for all. With
    /// nothing to launch the caller awaits a running task if there is one; if there is
    /// none the run is over, and its result is the first failure if there was one.
    ///
    /// A task is launched only after every task it waits for has completed. A run that
    /// ends with nothing stopped has completed every task.
    pub fn run(&mut self) -> (step: RunStep<X, E>)
        requires
            old(self).wf(),
        ensures
            final(self).wf(),
            final(self).names() == old(self).names(),
            final(self).deps() == old(self).deps(),
            final(self).shutdown() == old(self).shutdown(),
            final(self).has_failed() == old(self).has_failed(),
            old(self).admission_stopped() ==> !(step is Launch),
            ({
                let queue = if old(self).admission_stopped() {
                    Seq::<usize>::empty()
                } else {
                    old(self).ready()
                };
                if queue.len() > 0 {
                    &&& step matches RunStep::Launch { task, name, body }
                    &&& task == queue[0]
                    &&& task < old(self).states().len()
                    &&& name@ == old(self).names()[task as int]
                    &&& Some(body) == old(self).bodies()[task as int]
                    &&& old(self).states()[task as int] == TaskState::Ready
                    &&& all_completed(
                        old(self).names(),
                        old(self).deps(),
                        old(self).states(),
                        task as int,
                    )
                    &&& final(self).ready() == queue.subrange(1, queue.len() as int)
                    &&& final(self).states() == old(self).states().update(
                        task as int,
                        TaskState::Running,
                    )
                    &&& final(self).bodies() == old(self).bodies().update(task as int, None)
                    &&& final(self).failure() == old(self).failure()
                } else if old(self).any_running() {
                    &&& step is Await
                    &&& final(self).ready() == queue
                    &&& final(self).states() == old(self).states()
                    &&& final(self).bodies() == old(self).bodies()
                    &&& final(self).failure() == old(self).failure()
                } else {
                    &&& step == RunStep::<X, E>::Finished(run_result(old(self).failure()))
                    &&& final(self).ready() == queue
                    &&& final(self).states() == old(self).states()
                    &&& final(self).bodies() == old(self).bodies()
                    &&& final(self).failure() is None
                    &&& !old(self).admission_stopped() ==> forall|u: int|
                        0 <= u < old(self).states().len() ==> old(self).states()[u]
                            == TaskState::Completed
                }
            }),
    {
        if self.shutdown.requested() || self.failed {
            self.ready.clear();
        }
        let ghost queue = self.ready@;
        match self.ready.pop_front() {
            Some(task) => {
                assert(queue[0] == task);
                assert(task < self.states.len());
                let mut slot: Option<X> = None;
                self.bodies.set_and_swap(task, &mut slot);
                self.states.set(task, TaskState::Running);
                let name = self.names[task].clone();
                proof {
                    assert(self.names.deep_view()[task as int] == self.names@[task as int]@);
                    assert forall|q: int| 0 <= q < self.ready@.len() implies (
                    #[trigger] self.ready@[q]) < self.names.len() && self.states@[self.ready@[q] as int]
                        == TaskState::Ready by {
                        assert(self.ready@[q] == queue[q + 1]);
                        assert(queue[q + 1] != queue[0]);
                    }
                    assert forall|p: int, q: int|
                        0 <= p < q < self.ready@.len() implies self.ready@[p]
                        != self.ready@[q] by {
                        assert(self.ready@[p] == queue[p + 1]);
                        assert(self.ready@[q] == queue[q + 1]);
                    }
                    assert forall|u: int|
                        0 <= u < self.names.len() && (#[trigger] self.states@[u])
                            != TaskState::Pending implies all_completed(
                        self.names.deep_view(),
                        self.deps.deep_view(),
                        self.states@,
                        u,
                    ) by {
                        assert(old(self).states@[u] != TaskState::Pending);
                        assert(all_completed(
                            self.names.deep_view(),
                            self.deps.deep_view(),
                            old(self).states@,
                            u,
                        ));
                        lemma_completed_by_ids(
                            self.names.deep_view(),
                            self.deps.deep_view(),
                            self.ids@,
                            old(self).states@,
                            u,
                        );
                        lemma_completed_by_ids(
                            self.names.deep_view(),
                            self.deps.deep_view(),
                            self.ids@,
                            self.states@,
                            u,
                        );
                    }
                    if !self.failed && !self.shutdown.armed() {
                        assert forall|u: int|
                            0 <= u < self.names.len() && (#[trigger] self.states@[u])
                                == TaskState::Pending implies !all_completed(
                            self.names.deep_view(),
                            self.deps.deep_view(),
                            self.states@,
                            u,
                        ) by {
                            assert(old(self).states@[u] == TaskState::Pending);
                            lemma_completed_by_ids(
                                self.names.deep_view(),
                                self.deps.deep_view(),
                                self.ids@,
                                old(self).states@,
                                u,
                            );
                            lemma_completed_by_ids(
                                self.names.deep_view(),
                                self.deps.deep_view(),
                                self.ids@,
                                self.states@,
                                u,
                            );
                        }
                        assert forall|u: int|
                            0 <= u < self.names.len() && (#[trigger] self.states@[u])
                                == TaskState::Ready implies self.ready@.contains(u as usize) by {
                            assert(old(self).states@[u] == TaskState::Ready);
                            assert(queue.contains(u as usize));
                            let q = choose|q: int| 0 <= q < queue.len() && queue[q] == u as usize;
                            assert(q > 0);
                            assert(self.ready@[q - 1] == u as usize);
                        }
                    }
                }
                match slot {
                    Some(body) => RunStep::Launch { task, name, body },
                    None => {
                        assert(false);
                        vstd::pervasive::unreached()
                    },
                }
            },
            None => {
                if self.some_running() {
                    RunStep::Await
                } else {
                    proof {
                        if !old(self).admission_stopped() {
                            self.lemma_quiet_run_is_complete();
                        }
                    }
                    match self.failure.take() {
                        None => RunStep::Finished(Ok(Ok(()))),
                        Some(Failure::Task(error)) => RunStep::Finished(Ok(Err(error))),
                        Some(Failure::Join(error)) => RunStep::Finished(Err(error)),
                    }
                }
            },
        }
    }

    /// Exec form of [`Scheduler::any_running`].
    fn some_running(&self) -> (running: bool)
        ensures
            running == self.any_running(),
    {
        let mut u: usize = 0;
        while u < self.states.len()
            invariant
                u <= self.states.len(),
                forall|v: int| 0 <= v < u ==> self.states@[v] != TaskState::Running,
            decreases self.states.len() - u,
        {
            if self.states[u] == TaskState::Running {
                return true;
            }
            u += 1;
        }
        false
    }

    /// With nothing stopped, nothing queued and nothing running, every task has
    /// completed: a task left pending would wait for another one left pending, and so on
    /// in a circle, which the graph does not have.
    proof fn lemma_quiet_run_is_complete(self)
        requires
            self.wf(),
            !self.admission_stopped(),
            self.ready@.len() == 0,
            !self.any_running(),
        ensures
            forall|u: int| 0 <= u < self.states().len() ==> self.states()[u] == TaskState::Completed,
    {
        let names = self.names.deep_view();
        let deps = self.deps.deep_view();
        let ids = self.ids@;
        let states = self.states@;
        let n = states.len();
        let done = Seq::new(n, |u: int| states[u] == TaskState::Completed);
        if exists|u: int| 0 <= u < n && states[u] != TaskState::Completed {
            let start = choose|u: int| 0 <= u < n && states[u] != TaskState::Completed;
            assert forall|u: int| 0 <= u < ids.len() && !done[u] implies #[trigger] is_blocked(
                ids,
                done,
                u,
            ) by {
                assert(states[u] != TaskState::Running);
                assert(states[u] != TaskState::Failed);
                if states[u] == TaskState::Ready {
                    assert(self.ready@.contains(u as usize));
                }
                assert(states[u] == TaskState::Pending);
                assert(!all_completed(names, deps, states, u));
                lemma_completed_by_ids(names, deps, ids, states, u);
                let k = choose|k: int|
                    0 <= k < ids[u].len() && states[#[trigger] ids[u][k] as int]
                        != TaskState::Completed;
                assert(!done[ids[u][k] as int]);
            }
            assert(ids_in_range(ids));
            let walk = lemma_stuck_has_cycle(ids, done, start);
            assert forall|k: int| 0 <= k < walk.len() - 1 implies #[trigger] follows(
                names,
                deps,
                walk,
                k,
            ) by {
                assert(id_follows(ids, walk, k));
                lemma_edges_agree(names, deps, ids, walk[k], walk[k + 1]);
            }
            assert(is_cycle(names, deps, walk));
        }
    }
}


impl<X, E> Scheduler<X, E> {
    /// Records how a running task settled.
    ///
    /// A report on a task that is not running changes nothing. A task that succeeded is
    /// completed; unless admission has stopped, every pending task that waited for it and
    /// now waits for nothing more becomes ready and joins the queue, in task order. A task
    /// that failed, or ended without returning, is failed and stops admission; the first
    /// such failure is kept as the run's result, later ones are dropped.
    pub fn settle(&mut self, task: usize, result: TaskResult<E>)
        requires
            old(self).wf(),
        ensures
            final(self).wf(),
            final(self).names() == old(self).names(),
            final(self).deps() == old(self).deps(),
            final(self).bodies() == old(self).bodies(),
            final(self).shutdown() == old(self).shutdown(),
            !old(self).is_running(task as int) ==> {
                &&& final(self).states() == old(self).states()
                &&& final(self).ready() == old(self).ready()
                &&& final(self).failure() == old(self).failure()
                &&& final(self).has_failed() == old(self).has_failed()
            },
            old(self).is_running(task as int) ==> match result {
                TaskResult::Succeeded => {
                    let completed = old(self).states().update(task as int, TaskState::Completed);
                    &&& final(self).failure() == old(self).failure()
                    &&& final(self).has_failed() == old(self).has_failed()
                    &&& if old(self).admission_stopped() {
                        &&& final(self).states() == completed
                        &&& final(self).ready() == old(self).ready()
                    } else {
                        &&& final(self).states() == released(
                            old(self).names(),
                            old(self).deps(),
                            completed,
                            task as int,
                        )
                        &&& final(self).ready() == old(self).ready() + unblocked(
                            old(self).names(),
                            old(self).deps(),
                            completed,
                            task as int,
                            completed.len() as int,
                        )
                    }
                },
                TaskResult::Failed(error) => {
                    &&& final(self).states() == old(self).states().update(
                        task as int,
                        TaskState::Failed,
                    )
                    &&& final(self).ready() == old(self).ready()
                    &&& final(self).has_failed()
                    &&& final(self).failure() == if old(self).has_failed() {
                        old(self).failure()
                    } else {
                        Some(Failure::Task(error))
                    }
                },
                TaskResult::JoinFailed(error) => {
                    &&& final(self).states() == old(self).states().update(
                        task as int,
                        TaskState::Failed,
                    )
                    &&& final(self).ready() == old(self).ready()
                    &&& final(self).has_failed()
                    &&& final(self).failure() == if old(self).has_failed() {
                        old(self).failure()
                    } else {
                        Some(Failure::<E>::Join(error))
                    }
                },
            },
    {
        if task >= self.states.len() || self.states[task] != TaskState::Running {
            return ;
        }
        let ghost names = self.names.deep_view();
        let ghost deps = self.deps.deep_view();
        let n = self.states.len();
        match result {
            TaskResult::Succeeded => {
                self.states.set(task, TaskState::Completed);
                let ghost completed = self.states@;
                proof {
                    self.lemma_completion_keeps_wf(*old(self), task as int);
                }
                if !(self.shutdown.requested() || self.failed) {
                    let mut u: usize = 0;
                    while u < n
                        invariant
                            n == completed.len(),
                            old(self).wf(),
                            old(self).is_running(task as int),
                            completed == old(self).states@.update(
                                task as int,
                                TaskState::Completed,
                            ),
                            names == old(self).names.deep_view(),
                            deps == old(self).deps.deep_view(),
                            self.names == old(self).names,
                            self.deps == old(self).deps,
                            self.ids == old(self).ids,
                            self.bodies == old(self).bodies,
                            self.failure == old(self).failure,
                            self.failed == old(self).failed,
                            self.shutdown == old(self).shutdown,
                            u <= n,
                            self.states.len() == n,
                            forall|v: int|
                                0 <= v < n ==> (#[trigger] self.states@[v]) == if v < u
                                    && is_unblocked(names, deps, completed, task as int, v) {
                                    TaskState::Ready
                                } else {
                                    completed[v]
                                },
                            self.ready@ == old(self).ready@ + unblocked(
                                names,
                                deps,
                                completed,
                                task as int,
                                u as int,
                            ),
                        decreases n - u,
                    {
                        proof {
                            lemma_edges_agree(names, deps, self.ids@, u as int, task as int);
                            lemma_completed_by_ids(names, deps, self.ids@, completed, u as int);
                            assert forall|k: int| 0 <= k < self.ids@[u as int].len() implies (
                            self.states@[#[trigger] self.ids@[u as int][k] as int]
                                == TaskState::Completed) == (completed[self.ids@[u as int][k] as int]
                                == TaskState::Completed) by {
                                let d = self.ids@[u as int][k] as int;
                                assert(self.states@[d] == if d < u && is_unblocked(
                                    names,
                                    deps,
                                    completed,
                                    task as int,
                                    d,
                                ) {
                                    TaskState::Ready
                                } else {
                                    completed[d]
                                });
                            }
                            assert(self.states@[u as int] == completed[u as int]);
                        }
                        if self.states[u] == TaskState::Pending && row_contains(&self.ids[u], task)
                            && row_completed(&self.ids[u], &self.states) {
                            self.states.set(u, TaskState::Ready);
                            self.ready.push_back(u);
                            assert(is_unblocked(names, deps, completed, task as int, u as int));
                        } else {
                            assert(!is_unblocked(names, deps, completed, task as int, u as int));
                        }
                        u += 1;
                    }
                    assert(self.states@ =~= released(names, deps, completed, task as int));
                    proof {
                        self.lemma_release_keeps_wf(*old(self), task as int);
                    }
                }
            },
            TaskResult::Failed(error) => {
                self.states.set(task, TaskState::Failed);
                if !self.failed {
                    self.failure = Some(Failure::Task(error));
                }
                self.failed = true;
                proof {
                    self.lemma_failure_keeps_wf(*old(self), task as int);
                }
            },
            TaskResult::JoinFailed(error) => {
                self.states.set(task, TaskState::Failed);
                if !self.failed {
                    self.failure = Some(Failure::Join(error));
                }
                self.failed = true;
                proof {
                    self.lemma_failure_keeps_wf(*old(self), task as int);
                }
            },
        }
    }

    /// A running task that completes leaves a scheduler whose admission has stopped
    /// well-formed.
    proof fn lemma_completion_keeps_wf(self, before: Self, task: int)
        requires
            before.wf(),
            before.is_running(task),
            self.names == before.names,
            self.deps == before.deps,
            self.ids == before.ids,
            self.bodies == before.bodies,
            self.ready == before.ready,
            self.failure == before.failure,
            self.failed == before.failed,
            self.shutdown == before.shutdown,
            self.states@ == before.states@.update(task, TaskState::Completed),
        ensures
            self.admission_stopped() ==> self.wf(),
    {
        let names = self.names.deep_view();
        let deps = self.deps.deep_view();
        let n = self.names.len();
        assert forall|u: int|
            0 <= u < n && (#[trigger] self.states@[u]) != TaskState::Pending implies all_completed(
            names,
            deps,
            self.states@,
            u,
        ) by {
            assert(before.states@[u] != TaskState::Pending);
            lemma_completed_by_ids(names, deps, self.ids@, before.states@, u);
            lemma_completed_by_ids(names, deps, self.ids@, self.states@, u);
        }
        assert forall|q: int| 0 <= q < self.ready@.len() implies (#[trigger] self.ready@[q]) < n
            && self.states@[self.ready@[q] as int] == TaskState::Ready by {
            assert(before.states@[before.ready@[q] as int] == TaskState::Ready);
        }
    }

    /// A running task that fails leaves the scheduler well-formed.
    proof fn lemma_failure_keeps_wf(self, before: Self, task: int)
        requires
            before.wf(),
            before.is_running(task),
            self.names == before.names,
            self.deps == before.deps,
            self.ids == before.ids,
            self.bodies == before.bodies,
            self.ready == before.ready,
            self.failure is Some ==> self.failed,
            self.failed,
            self.shutdown == before.shutdown,
            self.states@ == before.states@.update(task, TaskState::Failed),
        ensures
            self.wf(),
    {
        let names = self.names.deep_view();
        let deps = self.deps.deep_view();
        let n = self.names.len();
        assert forall|u: int|
            0 <= u < n && (#[trigger] self.states@[u]) != TaskState::Pending implies all_completed(
            names,
            deps,
            self.states@,
            u,
        ) by {
            assert(before.states@[u] != TaskState::Pending);
            lemma_completed_by_ids(names, deps, self.ids@, before.states@, u);
            lemma_completed_by_ids(names, deps, self.ids@, self.states@, u);
        }
        assert forall|q: int| 0 <= q < self.ready@.len() implies (#[trigger] self.ready@[q]) < n
            && self.states@[self.ready@[q] as int] == TaskState::Ready by {
            assert(before.states@[before.ready@[q] as int] == TaskState::Ready);
        }
    }

    /// A running task that completes, with the tasks it lets start made ready and queued,
    /// leaves the scheduler well-formed.
    proof fn lemma_release_keeps_wf(self, before: Self, task: int)
        requires
            before.wf(),
            before.is_running(task),
            !before.admission_stopped(),
            self.names == before.names,
            self.deps == before.deps,
            self.ids == before.ids,
            self.bodies == before.bodies,
            self.failure == before.failure,
            self.failed == before.failed,
            self.shutdown == before.shutdown,
            self.states@ == released(
                before.names.deep_view(),
                before.deps.deep_view(),
                before.states@.update(task, TaskState::Completed),
                task,
            ),
            self.ready@ == before.ready@ + unblocked(
                before.names.deep_view(),
                before.deps.deep_view(),
                before.states@.update(task, TaskState::Completed),
                task,
                before.states@.len() as int,
            ),
        ensures
            self.wf(),
    {
        let names = self.names.deep_view();
        let deps = self.deps.deep_view();
        let ids = self.ids@;
        let n = self.names.len();
        let completed = before.states@.update(task, TaskState::Completed);
        let fresh = unblocked(names, deps, completed, task, n as int);
        lemma_unblocked(names, deps, completed, task, n as int);
        assert forall|u: int| 0 <= u < n implies ((#[trigger] self.bodies@[u]) is Some <==> (
        self.states@[u] == TaskState::Pending || self.states@[u] == TaskState::Ready)) by {
            assert(before.bodies@[u] is Some <==> (before.states@[u] == TaskState::Pending
                || before.states@[u] == TaskState::Ready));
        }
        assert forall|q: int| 0 <= q < self.ready@.len() implies (#[trigger] self.ready@[q]) < n
            && self.states@[self.ready@[q] as int] == TaskState::Ready by {
            if q < before.ready@.len() {
                assert(self.ready@[q] == before.ready@[q]);
                assert(before.states@[before.ready@[q] as int] == TaskState::Ready);
            } else {
                assert(self.ready@[q] == fresh[q - before.ready@.len()]);
            }
        }
        assert forall|p: int, q: int| 0 <= p < q < self.ready@.len() implies self.ready@[p]
            != self.ready@[q] by {
            let m = before.ready@.len();
            if q < m {
                assert(self.ready@[p] == before.ready@[p]);
                assert(self.ready@[q] == before.ready@[q]);
            } else if p < m {
                assert(self.ready@[p] == before.ready@[p]);
                assert(self.ready@[q] == fresh[q - m]);
                assert(before.states@[before.ready@[p] as int] == TaskState::Ready);
                assert(is_unblocked(names, deps, completed, task, fresh[q - m] as int));
            } else {
                assert(self.ready@[p] == fresh[p - m]);
                assert(self.ready@[q] == fresh[q - m]);
            }
        }
        assert forall|u: int|
            0 <= u < n && (#[trigger] self.states@[u]) != TaskState::Pending implies all_completed(
            names,
            deps,
            self.states@,
            u,
        ) by {
            lemma_completed_by_ids(names, deps, ids, before.states@, u);
            lemma_completed_by_ids(names, deps, ids, completed, u);
            lemma_completed_by_ids(names, deps, ids, self.states@, u);
            if is_unblocked(names, deps, completed, task, u) {
            } else {
                assert(before.states@[u] != TaskState::Pending);
                assert(all_completed(names, deps, before.states@, u));
            }
        }
        assert forall|u: int|
            0 <= u < n && (#[trigger] self.states@[u]) == TaskState::Pending implies !all_completed(
            names,
            deps,
            self.states@,
            u,
        ) by {
            lemma_completed_by_ids(names, deps, ids, before.states@, u);
            lemma_completed_by_ids(names, deps, ids, completed, u);
            lemma_completed_by_ids(names, deps, ids, self.states@, u);
            assert(before.states@[u] == TaskState::Pending);
            assert(!all_completed(names, deps, before.states@, u));
            let k = choose|k: int|
                0 <= k < ids[u].len() && before.states@[#[trigger] ids[u][k] as int]
                    != TaskState::Completed;
            if all_completed(names, deps, self.states@, u) {
                assert(self.states@[ids[u][k] as int] == TaskState::Completed);
                assert(ids[u][k] == task);
                assert(id_edge(ids, u, task));
                lemma_edges_agree(names, deps, ids, u, task);
                assert(all_completed(names, deps, completed, u)) by {
                    assert forall|m: int| 0 <= m < ids[u].len() implies completed[
                    #[trigger] ids[u][m] as int] == TaskState::Completed by {
                        assert(self.states@[ids[u][m] as int] == TaskState::Completed);
                    }
                }
                assert(is_unblocked(names, deps, completed, task, u));
            }
        }
        assert forall|u: int|
            0 <= u < n && (#[trigger] self.states@[u])
                == TaskState::Ready implies self.ready@.contains(u as usize) by {
            if is_unblocked(names, deps, completed, task, u) {
                assert(fresh.contains(u as usize));
                let q = choose|q: int| 0 <= q < fresh.len() && fresh[q] == u as usize;
                assert(self.ready@[before.ready@.len() + q] == u as usize);
            } else {
                assert(before.states@[u] == TaskState::Ready);
                assert(before.ready@.contains(u as usize));
                let q = choose|q: int|
                    0 <= q < before.ready@.len() && before.ready@[q] == u as usize;
                assert(self.ready@[q] == u as usize);
            }
        }
    }
}

} // verus!
