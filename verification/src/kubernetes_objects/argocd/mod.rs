//! The forest of GitOps applications, and the state of their suspension.

pub mod initialize;
pub mod tearing;

use crate::text::{index_of, lemma_index_of, str_equal};
use vstd::prelude::*;

verus! {

/// What a node of the forest is: an inner node that renders other applications, or an
/// application that a server chart is bound to.
#[derive(Clone, Copy, Debug, PartialEq, Eq, Structural)]
pub enum ArgoCdKind {
    AppOfApps,
    Application,
}

/// Why suspending or resuming an application failed.
#[derive(Debug, PartialEq, Eq)]
pub enum ArgoCdError {
    /// The cluster refused or could not be reached; the message says how.
    KubeError(String),
    /// The application that a guard or a chart refers to is not there, or not suspended.
    Dropped,
}

impl ArgoCdError {
    /// The error for an application that is not there.
    pub fn dropped() -> (error: ArgoCdError)
        ensures
            error == ArgoCdError::Dropped,
    {
        ArgoCdError::Dropped
    }

    /// A copy of the error.
    pub fn duplicate(&self) -> (copy: ArgoCdError)
        ensures
            copy == *self,
    {
        match self {
            ArgoCdError::KubeError(message) => ArgoCdError::KubeError(message.clone()),
            ArgoCdError::Dropped => ArgoCdError::Dropped,
        }
    }
}

/// The sync policy of an application as the cluster reported it, kept as the document it
/// came in. The routine stores it when it suspends the application and sends it back
/// unchanged when it resumes it.
#[derive(Debug, PartialEq, Eq)]
pub struct SyncPolicy {
    pub document: String,
}

impl SyncPolicy {
    /// A copy of the policy.
    pub fn duplicate(&self) -> (copy: SyncPolicy)
        ensures
            copy == *self,
    {
        SyncPolicy { document: self.document.clone() }
    }
}

/// The suspension of one application.
#[derive(Debug, PartialEq, Eq)]
pub struct Teardown {
    /// Whether this suspension holds a guard on the parent application.
    pub upstream: bool,
    /// The sync policy that the application had when it was suspended.
    pub original_sync_policy: Option<SyncPolicy>,
    /// The guards on this application that are open.
    pub counter: usize,
}

/// Whether an application is suspended.
#[derive(Debug, PartialEq, Eq)]
pub enum TearState {
    /// Not suspended.
    Idle,
    /// Suspended.
    Torn(Teardown),
    /// Suspending it failed; it stays failed for the rest of the run.
    Failed(ArgoCdError),
}

/// One GitOps application.
#[derive(Debug)]
pub struct ArgoCd {
    /// Its name, unique in the forest.
    pub name: String,
    /// The names from the root of its tree down to itself.
    pub path: Vec<String>,
    /// The position of its parent in the forest, if it has one.
    pub parent: Option<usize>,
    pub kind: ArgoCdKind,
    /// Whether it is suspended.
    pub tear: TearState,
}

/// The shape of one application: all of it but the state of its suspension.
pub struct ArgoCdView {
    pub name: Seq<char>,
    pub path: Seq<Seq<char>>,
    pub parent: Option<usize>,
    pub kind: ArgoCdKind,
}

impl View for ArgoCd {
    type V = ArgoCdView;

    open spec fn view(&self) -> ArgoCdView {
        ArgoCdView {
            name: self.name@,
            path: self.path.deep_view(),
            parent: self.parent,
            kind: self.kind,
        }
    }
}

/// Whether node `i` of `shape` comes after its parent and carries its parent's path
/// followed by its own name.
pub open spec fn well_placed(shape: Seq<ArgoCdView>, i: int) -> bool {
    match shape[i].parent {
        Some(p) => p < i && shape[i].path == shape[p as int].path.push(shape[i].name),
        None => shape[i].path == seq![shape[i].name],
    }
}

/// Whether `shape` is a forest: every node is well placed.
pub open spec fn well_shaped(shape: Seq<ArgoCdView>) -> bool {
    forall|i: int| 0 <= i < shape.len() ==> #[trigger] well_placed(shape, i)
}

/// The names of the nodes of `shape`, in order.
pub open spec fn shape_names(shape: Seq<ArgoCdView>) -> Seq<Seq<char>> {
    Seq::new(shape.len(), |i: int| shape[i].name)
}

/// A teardown or a release that waits for the caller to report on a call to the cluster.
#[derive(Debug)]
pub enum PendingOp {
    /// A teardown. `chain` holds the applications still to be paused, the target first and
    /// then each one's parent; the last of them is being paused now.
    Tear { chain: Vec<usize> },
    /// A release. `current` is being restored now; `restored` were restored before it in
    /// this release, each the child of the next. `cause` is set where the release rolls a
    /// failed teardown back, and is then the error of that teardown.
    Release { current: usize, restored: Vec<usize>, cause: Option<ArgoCdError> },
}

/// The forest of applications, each at a fixed position.
#[derive(Debug)]
pub struct ArgoCdForest {
    apps: Vec<ArgoCd>,
    pending: Option<PendingOp>,
}

impl ArgoCdForest {
    /// The applications, in the order in which they were added.
    pub closed spec fn apps(self) -> Seq<ArgoCd> {
        self.apps@
    }

    /// The shapes of the applications.
    pub open spec fn shape(self) -> Seq<ArgoCdView> {
        Seq::new(self.apps().len(), |i: int| self.apps()[i]@)
    }

    /// The teardown or release that is under way, if one is.
    pub closed spec fn pending(self) -> Option<PendingOp> {
        self.pending
    }

    /// Whether no application is suspended or failed, and nothing is under way.
    pub open spec fn all_idle(self) -> bool {
        &&& self.pending() is None
        &&& forall|i: int| 0 <= i < self.apps().len() ==> (#[trigger] self.apps()[i]).tear is Idle
    }

    /// A forest has no more applications than can be counted.
    pub proof fn lemma_bounded(self)
        ensures
            self.apps().len() <= usize::MAX,
    {
        assert(self.apps.len() == self.apps@.len());
    }

    /// An empty forest.
    pub fn new() -> (forest: ArgoCdForest)
        ensures
            forest.apps().len() == 0,
            forest.pending() is None,
    {
        ArgoCdForest { apps: Vec::new(), pending: None }
    }

    /// Whether a teardown or a release is under way.
    pub fn is_busy(&self) -> (busy: bool)
        ensures
            busy == self.pending() is Some,
    {
        self.pending.is_some()
    }

    /// The number of applications.
    pub fn len(&self) -> (n: usize)
        ensures
            n == self.apps().len(),
    {
        self.apps.len()
    }

    /// The application at position `app`, if there is one.
    pub fn get(&self, app: usize) -> (found: Option<&ArgoCd>)
        ensures
            match found {
                Some(node) => app < self.apps().len() && *node == self.apps()[app as int],
                None => app >= self.apps().len(),
            },
    {
        if app < self.apps.len() {
            Some(&self.apps[app])
        } else {
            None
        }
    }

    /// The application at position `app`.
    pub fn node(&self, app: usize) -> (node: &ArgoCd)
        requires
            app < self.apps().len(),
        ensures
            *node == self.apps()[app as int],
    {
        &self.apps[app]
    }

    /// The position of the application called `name`, if there is one: the first, should
    /// several have that name.
    pub fn find(&self, name: &str) -> (found: Option<usize>)
        ensures
            match found {
                Some(i) => i < self.apps().len() && i == index_of(
                    shape_names(self.shape()),
                    name@,
                ),
                None => index_of(shape_names(self.shape()), name@) == self.apps().len(),
            },
    {
        let ghost names = shape_names(self.shape());
        proof {
            lemma_index_of(names, name@);
            assert forall|h: int| 0 <= h < names.len() implies names[h]
                == (#[trigger] self.apps@[h]).name@ by {}
        }
        let mut i: usize = 0;
        while i < self.apps.len()
            invariant
                names == shape_names(self.shape()),
                i <= self.apps.len(),
                forall|h: int| 0 <= h < i ==> (#[trigger] self.apps@[h]).name@ != name@,
                forall|h: int| 0 <= h < index_of(names, name@) ==> names[h] != name@,
                index_of(names, name@) < names.len() ==> names[index_of(names, name@)] == name@,
                0 <= index_of(names, name@) <= names.len(),
            decreases self.apps.len() - i,
        {
            if str_equal(self.apps[i].name.as_str(), name) {
                assert(names[i as int] == name@);
                return Some(i);
            }
            i += 1;
        }
        proof {
            let at = index_of(names, name@);
            if at < names.len() {
                assert(self.apps@[at].name@ == name@);
            }
        }
        None
    }
}

} // verus!
