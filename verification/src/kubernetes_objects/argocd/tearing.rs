//! Suspending applications behind reference-counted guards.
//!
//! Suspending ("tearing down") an application pauses its reconciliation, and that of every
//! ancestor that is not paused yet, the root first. Every teardown hands out a guard; an
//! application is resumed when its last guard is closed, and the guard that it held on its
//! parent is closed in turn. The calls to the cluster are made by the caller: each
//! operation here says which call is due and is told how it went.

use crate::kubernetes_objects::argocd::{
    well_placed, well_shaped, ArgoCd, ArgoCdError, ArgoCdForest, ArgoCdKind, PendingOp, SyncPolicy,
    TearState, Teardown,
};
use vstd::prelude::*;

verus! {

/// The right to have one application stay suspended. It is handed out when the application
/// is torn down and must be given back by closing it.
#[derive(Debug, PartialEq, Eq)]
pub struct TearingArgoCdGuard {
    app: usize,
}

impl TearingArgoCdGuard {
    /// The position of the application that the guard holds suspended.
    pub closed spec fn target(self) -> usize {
        self.app
    }

    /// The position of the application that the guard holds suspended.
    pub fn app(&self) -> (app: usize)
        ensures
            app == self.target(),
    {
        self.app
    }
}

/// What the caller of a teardown or a release does next.
#[derive(Debug, PartialEq, Eq)]
pub enum TeardownStep {
    /// Read the sync policy of this application and pause its reconciliation, then report
    /// with [`ArgoCdForest::paused`].
    Pause { app: usize },
    /// Send the sync policy stored for this application back to it, then report with
    /// [`ArgoCdForest::restored`].
    Restore { app: usize },
    /// The teardown is done: the application is suspended, and this guard holds it so.
    Granted(TearingArgoCdGuard),
    /// The release is done.
    Closed,
    /// The operation failed.
    Failed(ArgoCdError),
}

/// `apps` with the suspension of application `i` set to `tear`.
pub open spec fn with_tear(apps: Seq<ArgoCd>, i: int, tear: TearState) -> Seq<ArgoCd> {
    apps.update(
        i,
        ArgoCd {
            name: apps[i].name,
            path: apps[i].path,
            parent: apps[i].parent,
            kind: apps[i].kind,
            tear,
        },
    )
}

/// The open guards on application `i`: its counter while it is suspended, else none.
pub open spec fn counter_of(apps: Seq<ArgoCd>, i: int) -> int {
    match apps[i].tear {
        TearState::Torn(teardown) => teardown.counter as int,
        _ => 0,
    }
}

/// Whether application `j` is suspended and holds a guard on its parent.
pub open spec fn holds_parent(apps: Seq<ArgoCd>, j: int) -> bool {
    apps[j].tear matches TearState::Torn(teardown) && teardown.upstream
}

/// Whether application `j` is a suspended child of `i` that holds a guard on `i`.
pub open spec fn holds_upstream(apps: Seq<ArgoCd>, j: int, i: int) -> bool {
    apps[j].parent == Some(i as usize) && holds_parent(apps, j)
}

/// How many of the first `upto` applications hold a guard on `i`.
pub open spec fn holders(apps: Seq<ArgoCd>, i: int, upto: int) -> nat
    decreases upto,
{
    if upto <= 0 {
        0
    } else {
        holders(apps, i, upto - 1) + if holds_upstream(apps, upto - 1, i) {
            1nat
        } else {
            0nat
        }
    }
}

/// Whether the operation under way holds a guard on application `i`: a teardown holds one
/// on the parent of the application that it is pausing.
pub open spec fn op_holds(pending: Option<PendingOp>, apps: Seq<ArgoCd>, i: int) -> bool {
    pending matches Some(PendingOp::Tear { chain }) && chain@.len() > 0 && apps[chain@.last() as int].parent
        == Some(i as usize)
}

/// Whether `chain` is what a teardown has still to pause: idle applications, each the
/// child of the next, under a parent that is suspended if there is one.
pub open spec fn tear_fits(apps: Seq<ArgoCd>, chain: Seq<usize>) -> bool {
    &&& chain.len() >= 1
    &&& forall|k: int|
        0 <= k < chain.len() ==> (#[trigger] chain[k]) < apps.len() && apps[chain[k] as int].tear is Idle
    &&& forall|k: int|
        0 <= k < chain.len() - 1 ==> apps[#[trigger] chain[k] as int].parent == Some(chain[k + 1])
    &&& apps[chain.last() as int].parent matches Some(p) ==> apps[p as int].tear is Torn
}

/// Whether application `i` is suspended with no guard open and holds no guard itself.
pub open spec fn is_released(apps: Seq<ArgoCd>, i: int) -> bool {
    apps[i].tear matches TearState::Torn(teardown) && teardown.counter == 0 && !teardown.upstream
}

/// Whether a release can be at `current` with `restored` behind it: `current` is suspended
/// with no guard open, and so are those restored before it, which hold no guard any more.
pub open spec fn release_fits(apps: Seq<ArgoCd>, current: usize, restored: Seq<usize>) -> bool {
    &&& current < apps.len()
    &&& apps[current as int].tear matches TearState::Torn(teardown) && teardown.counter == 0
    &&& forall|k: int|
        0 <= k < restored.len() ==> (#[trigger] restored[k]) < apps.len() && is_released(
            apps,
            restored[k] as int,
        )
}

/// Whether the operation under way fits the forest.
pub open spec fn pending_fits(pending: Option<PendingOp>, apps: Seq<ArgoCd>) -> bool {
    match pending {
        None => true,
        Some(PendingOp::Tear { chain }) => tear_fits(apps, chain@),
        Some(PendingOp::Release { current, restored, cause }) => release_fits(
            apps,
            current,
            restored@,
        ),
    }
}

proof fn lemma_holders_same(a: Seq<ArgoCd>, b: Seq<ArgoCd>, i: int, upto: int)
    requires
        forall|j: int| 0 <= j < upto ==> holds_upstream(a, j, i) == holds_upstream(b, j, i),
    ensures
        holders(a, i, upto) == holders(b, i, upto),
    decreases upto,
{
    if upto > 0 {
        lemma_holders_same(a, b, i, upto - 1);
    }
}

proof fn lemma_holders_one(a: Seq<ArgoCd>, b: Seq<ArgoCd>, i: int, upto: int, j: int)
    requires
        0 <= j < upto,
        forall|k: int|
            0 <= k < upto && k != j ==> holds_upstream(a, k, i) == holds_upstream(b, k, i),
    ensures
        holders(b, i, upto) == holders(a, i, upto) + (if holds_upstream(b, j, i) {
            1int
        } else {
            0int
        }) - (if holds_upstream(a, j, i) {
            1int
        } else {
            0int
        }),
    decreases upto,
{
    if upto - 1 == j {
        lemma_holders_same(a, b, i, upto - 1);
    } else {
        lemma_holders_one(a, b, i, upto - 1, j);
    }
}

proof fn lemma_holders_zero(apps: Seq<ArgoCd>, i: int, upto: int)
    ensures
        holders(apps, i, upto) == 0 <==> forall|j: int|
            0 <= j < upto ==> !holds_upstream(apps, j, i),
    decreases upto,
{
    if upto > 0 {
        lemma_holders_zero(apps, i, upto - 1);
        if holders(apps, i, upto) == 0 {
            assert forall|j: int| 0 <= j < upto implies !holds_upstream(apps, j, i) by {
                if j < upto - 1 {
                }
            }
        }
    }
}

impl ArgoCdForest {
    /// The guards on application `i` that callers hold: the open guards on it that neither
    /// a suspended child nor the operation under way accounts for.
    pub open spec fn guards(self, i: int) -> int {
        counter_of(self.apps(), i) - holders(self.apps(), i, self.apps().len() as int) - if op_holds(
            self.pending(),
            self.apps(),
            i,
        ) {
            1int
        } else {
            0int
        }
    }

    /// The invariant of the forest: it is well shaped; who holds a guard on its parent has
    /// a parent, and that parent is suspended; no application has fewer guards open than
    /// are accounted for; and the operation under way fits.
    pub open spec fn wf(self) -> bool {
        &&& self.apps().len() <= usize::MAX
        &&& well_shaped(self.shape())
        &&& forall|j: int|
            0 <= j < self.apps().len() && #[trigger] holds_parent(self.apps(), j) ==> {
                &&& self.apps()[j].parent matches Some(p)
                &&& self.apps()[p as int].tear is Torn
            }
        &&& forall|i: int| 0 <= i < self.apps().len() ==> #[trigger] self.guards(i) >= 0
        &&& pending_fits(self.pending(), self.apps())
    }

    /// Whether every application that is suspended with no guard open is one that the
    /// release under way is about to resume. It holds of a forest in which no restore has
    /// failed.
    pub open spec fn tidy(self) -> bool {
        forall|i: int|
            0 <= i < self.apps().len() && #[trigger] counter_of(self.apps(), i) == 0
                && self.apps()[i].tear is Torn ==> {
                &&& self.pending() matches Some(PendingOp::Release { current, restored, cause })
                &&& (i == current || restored@.contains(i as usize))
            }
    }

    /// Whether the counter of every suspended application can still grow.
    pub open spec fn has_room(self) -> bool {
        forall|i: int|
            0 <= i < self.apps().len() ==> #[trigger] counter_of(self.apps(), i) < usize::MAX
    }

    /// Exec form of [`ArgoCdForest::has_room`].
    pub fn check_has_room(&self) -> (room: bool)
        ensures
            room == self.has_room(),
    {
        let mut i: usize = 0;
        while i < self.apps.len()
            invariant
                i <= self.apps.len(),
                forall|k: int| 0 <= k < i ==> #[trigger] counter_of(self.apps@, k) < usize::MAX,
            decreases self.apps.len() - i,
        {
            let full = match &self.apps[i].tear {
                TearState::Torn(teardown) => teardown.counter == usize::MAX,
                _ => false,
            };
            if full {
                assert(counter_of(self.apps(), i as int) == usize::MAX);
                return false;
            }
            i += 1;
        }
        true
    }

    /// Sets the suspension of application `i` and hands back what it was.
    fn replace_tear(&mut self, i: usize, tear: TearState) -> (before: TearState)
        requires
            i < old(self).apps().len(),
        ensures
            final(self).apps() == with_tear(old(self).apps(), i as int, tear),
            final(self).pending() == old(self).pending(),
            final(self).shape() == old(self).shape(),
            before == old(self).apps()[i as int].tear,
    {
        let mut node = ArgoCd {
            name: String::new(),
            path: Vec::new(),
            parent: None,
            kind: ArgoCdKind::AppOfApps,
            tear: TearState::Idle,
        };
        self.apps.set_and_swap(i, &mut node);
        let ArgoCd { name, path, parent, kind, tear: before } = node;
        self.apps.set(i, ArgoCd { name, path, parent, kind, tear });
        assert(self.apps@ =~= with_tear(old(self).apps@, i as int, tear));
        assert(final(self).shape() =~= old(self).shape());
        before
    }

    /// How many applications hold a guard on `i`.
    fn count_holders(&self, i: usize) -> (count: usize)
        ensures
            count == holders(self.apps(), i as int, self.apps().len() as int),
    {
        let mut count: usize = 0;
        let mut j: usize = 0;
        while j < self.apps.len()
            invariant
                j <= self.apps.len(),
                count == holders(self.apps@, i as int, j as int),
                count <= j,
            decreases self.apps.len() - j,
        {
            let is_child = match self.apps[j].parent {
                Some(p) => p == i,
                None => false,
            };
            let holds = match &self.apps[j].tear {
                TearState::Torn(teardown) => teardown.upstream,
                _ => false,
            };
            if is_child && holds {
                count += 1;
            }
            j += 1;
        }
        count
    }
}


/// The first application on the way from `i` up to its root that is not idle: `i` itself,
/// or its nearest ancestor that is suspended or failed. `None` where all of them are idle.
pub open spec fn first_settled(apps: Seq<ArgoCd>, i: int) -> Option<int>
    decreases i,
{
    if !(0 <= i < apps.len()) {
        None
    } else if !(apps[i].tear is Idle) {
        Some(i)
    } else {
        match apps[i].parent {
            Some(p) => if p < i {
                first_settled(apps, p as int)
            } else {
                None
            },
            None => None,
        }
    }
}

/// The idle applications on the way from `i` up: `i` first, then its parent, up to the
/// last one below the first that is not idle, or up to the root.
pub open spec fn idle_path(apps: Seq<ArgoCd>, i: int) -> Seq<usize>
    decreases i,
{
    if !(0 <= i < apps.len()) || !(apps[i].tear is Idle) {
        Seq::empty()
    } else {
        seq![i as usize] + match apps[i].parent {
            Some(p) => if p < i {
                idle_path(apps, p as int)
            } else {
                Seq::empty()
            },
            None => Seq::empty(),
        }
    }
}

/// Whether `new` has the guards of `old`, but for `delta` more on application `at`.
pub open spec fn guards_moved(old: ArgoCdForest, new: ArgoCdForest, at: int, delta: int) -> bool {
    forall|i: int|
        0 <= i < old.apps().len() ==> #[trigger] new.guards(i) == old.guards(i) + if i == at {
            delta
        } else {
            0
        }
}

/// Whether `new` has the guards of `old`.
pub open spec fn guards_kept(old: ArgoCdForest, new: ArgoCdForest) -> bool {
    forall|i: int| 0 <= i < old.apps().len() ==> #[trigger] new.guards(i) == old.guards(i)
}

/// What a teardown of `app` comes to at its first step: how the forest changes, and what
/// the caller is told.
///
/// - An application that is suspended counts one guard more, and the guard is granted.
/// - Where the application, or its nearest ancestor that is not idle, has failed, the
///   teardown fails with the same error, and nothing changes.
/// - Otherwise the idle applications from `app` up are to be paused, the topmost first; a
///   suspended ancestor above them counts one guard more.
pub open spec fn tears(old: ArgoCdForest, new: ArgoCdForest, app: usize, step: TeardownStep) -> bool {
    match first_settled(old.apps(), app as int) {
        Some(t) => match old.apps()[t].tear {
            TearState::Failed(error) => {
                &&& step == TeardownStep::Failed(error)
                &&& new.apps() == old.apps()
                &&& new.pending() is None
                &&& guards_kept(old, new)
            },
            TearState::Torn(teardown) => {
                &&& new.apps() == with_tear(
                    old.apps(),
                    t,
                    TearState::Torn(
                        Teardown {
                            upstream: teardown.upstream,
                            original_sync_policy: teardown.original_sync_policy,
                            counter: (teardown.counter + 1) as usize,
                        },
                    ),
                )
                &&& if t == app {
                    &&& step matches TeardownStep::Granted(guard)
                    &&& guard.target() == app
                    &&& new.pending() is None
                    &&& guards_moved(old, new, app as int, 1)
                } else {
                    &&& new.pending() matches Some(PendingOp::Tear { chain })
                    &&& chain@ == idle_path(old.apps(), app as int)
                    &&& step == (TeardownStep::Pause { app: chain@.last() })
                    &&& guards_kept(old, new)
                }
            },
            TearState::Idle => false,
        },
        None => {
            &&& new.apps() == old.apps()
            &&& new.pending() matches Some(PendingOp::Tear { chain })
            &&& chain@ == idle_path(old.apps(), app as int)
            &&& step == (TeardownStep::Pause { app: chain@.last() })
            &&& guards_kept(old, new)
        },
    }
}

proof fn lemma_idle_path(forest: ArgoCdForest, i: int)
    requires
        well_shaped(forest.shape()),
        forest.apps().len() <= usize::MAX,
        0 <= i < forest.apps().len(),
    ensures
        !(forest.apps()[i].tear is Idle) ==> idle_path(forest.apps(), i).len() == 0
            && first_settled(forest.apps(), i) == Some(i),
        forest.apps()[i].tear is Idle ==> idle_path(forest.apps(), i).len() >= 1 && idle_path(
            forest.apps(),
            i,
        )[0] == i,
        forall|k: int|
            0 <= k < idle_path(forest.apps(), i).len() ==> (#[trigger] idle_path(
                forest.apps(),
                i,
            )[k]) < forest.apps().len() && forest.apps()[idle_path(forest.apps(), i)[k] as int].tear is Idle,
        forall|k: int|
            0 <= k < idle_path(forest.apps(), i).len() - 1 ==> forest.apps()[#[trigger] idle_path(
                forest.apps(),
                i,
            )[k] as int].parent == Some(idle_path(forest.apps(), i)[k + 1]),
        idle_path(forest.apps(), i).len() >= 1 ==> match forest.apps()[idle_path(
            forest.apps(),
            i,
        ).last() as int].parent {
            Some(p) => p < forest.apps().len() && !(forest.apps()[p as int].tear is Idle)
                && first_settled(forest.apps(), i) == Some(p as int),
            None => first_settled(forest.apps(), i) is None,
        },
    decreases i,
{
    let apps = forest.apps();
    let path = idle_path(apps, i);
    assert(well_placed(forest.shape(), i));
    if apps[i].tear is Idle {
        match apps[i].parent {
            Some(p) => {
                assert(p < i);
                lemma_idle_path(forest, p as int);
                let rest = idle_path(apps, p as int);
                assert(path == seq![i as usize] + rest);
                assert forall|k: int| 0 <= k < path.len() - 1 implies apps[
                #[trigger] path[k] as int].parent == Some(path[k + 1]) by {
                    if k == 0 {
                        if rest.len() > 0 {
                            assert(path[1] == rest[0]);
                        }
                    } else {
                        assert(path[k] == rest[k - 1]);
                        assert(path[k + 1] == rest[k]);
                    }
                }
                assert forall|k: int| 0 <= k < path.len() implies (#[trigger] path[k])
                    < apps.len() && apps[path[k] as int].tear is Idle by {
                    if k > 0 {
                        assert(path[k] == rest[k - 1]);
                    }
                }
                if rest.len() > 0 {
                    assert(path.last() == rest.last());
                } else {
                    assert(path.last() == i);
                }
            },
            None => {
                assert(path =~= seq![i as usize]);
            },
        }
    }
}

impl ArgoCdForest {
    /// Tears application `app` down: asks that it be suspended, and for a guard on it.
    ///
    /// - An application that is suspended already only counts one guard more, and the
    ///   guard is granted at once: nothing is sent to the cluster.
    /// - Where the application, or its nearest ancestor that is not idle, has failed
    ///   before, the teardown fails with the same error, and nothing changes.
    /// - Otherwise the idle applications from `app` up to the nearest suspended ancestor,
    ///   or up to the root, are to be paused, the topmost first. A suspended ancestor
    ///   counts one guard more for the application below it, and the step asks for the
    ///   topmost pause.
    pub fn tear(&mut self, app: usize) -> (step: TeardownStep)
        requires
            old(self).wf(),
            old(self).pending() is None,
            old(self).has_room(),
            app < old(self).apps().len(),
        ensures
            final(self).wf(),
            final(self).shape() == old(self).shape(),
            old(self).tidy() ==> final(self).tidy(),
            step matches TeardownStep::Pause { app: first } ==> first < old(self).apps().len()
                && old(self).apps()[first as int].tear is Idle,
            tears(*old(self), *final(self), app, step),
    {
        let ghost apps = self.apps@;
        let n = self.apps.len();
        let mut chain: Vec<usize> = Vec::new();
        let mut cur: usize = app;
        let mut settled: Option<usize> = None;
        proof {
            assert(chain@ + idle_path(apps, app as int) =~= idle_path(apps, app as int));
        }
        loop
            invariant_except_break
                settled is None,
                idle_path(apps, app as int) == chain@ + idle_path(apps, cur as int),
                chain@.len() > 0 ==> apps[chain@.last() as int].parent == Some(cur),
                chain@.len() == 0 ==> cur == app,
            invariant
                apps == self.apps@,
                *self == *old(self),
                n == apps.len(),
                well_shaped(self.shape()),
                cur < n,
                app < n,
                forall|k: int| 0 <= k < chain@.len() ==> (#[trigger] chain@[k]) < n,
            ensures
                idle_path(apps, app as int) == chain@,
                match settled {
                    Some(t) => t < n && !(apps[t as int].tear is Idle) && (chain@.len() > 0
                        ==> apps[chain@.last() as int].parent == Some(t)) && (chain@.len() == 0
                        ==> t == app),
                    None => chain@.len() > 0 && apps[chain@.last() as int].parent is None,
                },
            decreases cur,
        {
            assert(well_placed(self.shape(), cur as int));
            let idle = match &self.apps[cur].tear {
                TearState::Idle => true,
                _ => false,
            };
            if !idle {
                settled = Some(cur);
                proof {
                    assert(idle_path(apps, cur as int) =~= Seq::<usize>::empty());
                    assert(chain@ + Seq::<usize>::empty() =~= chain@);
                    if chain@.len() == 0 {
                        lemma_idle_path(*self, app as int);
                    }
                }
                break ;
            }
            let ghost before = chain@;
            chain.push(cur);
            match self.apps[cur].parent {
                Some(p) => {
                    proof {
                        assert(idle_path(apps, cur as int) == seq![cur] + idle_path(
                            apps,
                            p as int,
                        ));
                        assert(before + (seq![cur] + idle_path(apps, p as int)) =~= chain@
                            + idle_path(apps, p as int));
                    }
                    cur = p;
                },
                None => {
                    proof {
                        assert(idle_path(apps, cur as int) =~= seq![cur]);
                        assert(before + seq![cur] =~= chain@);
                    }
                    break ;
                },
            }
        }
        proof {
            lemma_idle_path(*self, app as int);
        }
        match settled {
            None => {
                let target = chain[chain.len() - 1];
                self.pending = Some(PendingOp::Tear { chain });
                proof {
                    lemma_tear_started(*old(self), *self, None);
                }
                TeardownStep::Pause { app: target }
            },
            Some(t) => {
                let before = self.replace_tear(t, TearState::Idle);
                match before {
                    TearState::Failed(error) => {
                        let copy = error.duplicate();
                        self.replace_tear(t, TearState::Failed(error));
                        assert(self.apps@ =~= old(self).apps@);
                        proof {
                            lemma_same_forest(*old(self), *self);
                        }
                        TeardownStep::Failed(copy)
                    },
                    TearState::Torn(teardown) => {
                        assert(counter_of(old(self).apps(), t as int) < usize::MAX);
                        let Teardown { upstream, original_sync_policy, counter } = teardown;
                        self.replace_tear(
                            t,
                            TearState::Torn(
                                Teardown { upstream, original_sync_policy, counter: counter + 1 },
                            ),
                        );
                        assert(self.apps@ =~= with_tear(
                            old(self).apps@,
                            t as int,
                            TearState::Torn(
                                Teardown {
                                    upstream: teardown.upstream,
                                    original_sync_policy: teardown.original_sync_policy,
                                    counter: (teardown.counter + 1) as usize,
                                },
                            ),
                        ));
                        if t == app {
                            proof {
                                lemma_tear_started(*old(self), *self, Some(t as int));
                            }
                            TeardownStep::Granted(TearingArgoCdGuard { app })
                        } else {
                            let target = chain[chain.len() - 1];
                            self.pending = Some(PendingOp::Tear { chain });
                            proof {
                                lemma_tear_started(*old(self), *self, Some(t as int));
                            }
                            TeardownStep::Pause { app: target }
                        }
                    },
                    TearState::Idle => {
                        assert(false);
                        TeardownStep::Closed
                    },
                }
            },
        }
    }
}

/// A forest with the same applications and the same operation under way has the same
/// guards, and is as well-formed and as tidy.
proof fn lemma_same_forest(old: ArgoCdForest, new: ArgoCdForest)
    requires
        new.apps() == old.apps(),
        new.pending() == old.pending(),
    ensures
        new.shape() == old.shape(),
        guards_kept(old, new),
        old.wf() ==> new.wf(),
        old.tidy() ==> new.tidy(),
{
    assert(new.shape() =~= old.shape());
    assert forall|i: int| 0 <= i < old.apps().len() implies #[trigger] new.guards(i) == old.guards(
        i,
    ) by {}
    if old.wf() {
        assert forall|i: int| 0 <= i < new.apps().len() implies #[trigger] new.guards(i) >= 0 by {
            assert(old.guards(i) >= 0);
        }
    }
}

/// The first step of a teardown keeps the forest well-formed and tidy, and gives one
/// guard more on the application if it was suspended already.
///
/// `bumped` is the suspended application whose counter grew by one, if there is one.
proof fn lemma_tear_started(old: ArgoCdForest, new: ArgoCdForest, bumped: Option<int>)
    requires
        old.wf(),
        old.pending() is None,
        new.shape() == old.shape(),
        new.apps().len() == old.apps().len(),
        match bumped {
            Some(t) => {
                &&& 0 <= t < old.apps().len()
                &&& old.apps()[t].tear matches TearState::Torn(teardown)
                &&& teardown.counter < usize::MAX
                &&& new.apps() == with_tear(
                    old.apps(),
                    t,
                    TearState::Torn(
                        Teardown {
                            upstream: teardown.upstream,
                            original_sync_policy: teardown.original_sync_policy,
                            counter: (teardown.counter + 1) as usize,
                        },
                    ),
                )
            },
            None => new.apps() == old.apps(),
        },
        match new.pending() {
            None => bumped is Some,
            Some(PendingOp::Tear { chain }) => {
                &&& tear_fits(old.apps(), chain@)
                &&& match old.apps()[chain@.last() as int].parent {
                    Some(p) => bumped == Some(p as int),
                    None => bumped is None,
                }
            },
            Some(PendingOp::Release { current, restored, cause }) => false,
        },
    ensures
        new.wf(),
        old.tidy() ==> new.tidy(),
        new.pending() is Some ==> guards_kept(old, new),
        new.pending() is None ==> (bumped matches Some(t) && guards_moved(old, new, t, 1)),
{
    let a = old.apps();
    let b = new.apps();
    let n = a.len() as int;
    assert forall|j: int| 0 <= j < n implies holds_parent(b, j) == holds_parent(a, j) && b[j].parent
        == a[j].parent && (b[j].tear is Torn) == (a[j].tear is Torn) && (b[j].tear is Idle) == (
    a[j].tear is Idle) by {}
    assert forall|j: int| 0 <= j < n && #[trigger] holds_parent(b, j) implies {
        &&& b[j].parent matches Some(p)
        &&& b[p as int].tear is Torn
    } by {
        assert(holds_parent(a, j));
        assert(well_placed(old.shape(), j));
    }
    assert forall|i: int| 0 <= i < n implies #[trigger] new.guards(i) == old.guards(i) + if new.pending() is None
        && bumped == Some(i) {
        1int
    } else {
        0int
    } by {
        lemma_holders_same(a, b, i, n);
    }
    assert forall|i: int| 0 <= i < n implies #[trigger] new.guards(i) >= 0 by {
        assert(old.guards(i) >= 0);
    }
    match new.pending() {
        Some(PendingOp::Tear { chain }) => {
            assert(tear_fits(b, chain@));
        },
        _ => {},
    }
    if old.tidy() {
        assert forall|i: int|
            0 <= i < n && #[trigger] counter_of(b, i) == 0 && b[i].tear is Torn implies false by {
            assert(counter_of(a, i) == 0);
        }
    }
}


/// The suspension of an application that was just paused: it holds a guard on its parent
/// if it has one, keeps the policy it had, and has one guard open.
pub open spec fn fresh_teardown(apps: Seq<ArgoCd>, c: int, policy: Option<SyncPolicy>) -> TearState {
    TearState::Torn(
        Teardown { upstream: apps[c].parent is Some, original_sync_policy: policy, counter: 1 },
    )
}

/// The suspension of application `i` with one guard fewer open.
pub open spec fn one_guard_fewer(apps: Seq<ArgoCd>, i: int) -> TearState {
    match apps[i].tear {
        TearState::Torn(teardown) => TearState::Torn(
            Teardown {
                upstream: teardown.upstream,
                original_sync_policy: teardown.original_sync_policy,
                counter: (teardown.counter - 1) as usize,
            },
        ),
        other => other,
    }
}

impl ArgoCdForest {
    /// Takes one guard off application `i`, and says whether none is left open.
    fn drop_guard(&mut self, i: usize) -> (none_left: bool)
        requires
            i < old(self).apps().len(),
            old(self).apps()[i as int].tear is Torn,
            counter_of(old(self).apps(), i as int) >= 1,
        ensures
            final(self).apps() == with_tear(
                old(self).apps(),
                i as int,
                one_guard_fewer(old(self).apps(), i as int),
            ),
            final(self).pending() == old(self).pending(),
            final(self).shape() == old(self).shape(),
            none_left == (counter_of(old(self).apps(), i as int) == 1),
    {
        let before = self.replace_tear(i, TearState::Idle);
        match before {
            TearState::Torn(teardown) => {
                let Teardown { upstream, original_sync_policy, counter } = teardown;
                self.replace_tear(
                    i,
                    TearState::Torn(
                        Teardown { upstream, original_sync_policy, counter: counter - 1 },
                    ),
                );
                assert(self.apps@ =~= with_tear(
                    old(self).apps@,
                    i as int,
                    one_guard_fewer(old(self).apps@, i as int),
                ));
                counter == 1
            },
            _ => {
                assert(false);
                false
            },
        }
    }

    /// Reports how the pause that the teardown under way asked for went.
    ///
    /// - A pause that went through leaves the application suspended, with the policy it
    ///   had and one guard open. That guard is the teardown's result if the application was
    ///   its target; else it is held for the child that is paused next.
    /// - A pause that failed leaves the application failed, for good. The guard that the
    ///   teardown held on the parent is given back: if it was the parent's last, the parent
    ///   is to be restored, and the teardown fails once that release is over; else it fails
    ///   at once. It fails with the error of the pause.
    pub fn paused(&mut self, outcome: Result<Option<SyncPolicy>, ArgoCdError>) -> (step:
        TeardownStep)
        requires
            old(self).wf(),
            old(self).pending() matches Some(PendingOp::Tear { chain }),
        ensures
            final(self).wf(),
            final(self).shape() == old(self).shape(),
            old(self).tidy() ==> final(self).tidy(),
            step matches TeardownStep::Pause { app: next } ==> next < old(self).apps().len()
                && old(self).apps()[next as int].tear is Idle,
            step matches TeardownStep::Restore { app: next } ==> next < old(self).apps().len()
                && counter_of(final(self).apps(), next as int) == 0,
            old(self).pending() matches Some(PendingOp::Tear { chain }) && ({
                let apps = old(self).apps();
                let c = chain@.last() as int;
                match outcome {
                    Ok(policy) => {
                        &&& final(self).apps() == with_tear(apps, c, fresh_teardown(apps, c, policy))
                        &&& if chain@.len() > 1 {
                            &&& final(self).pending() matches Some(PendingOp::Tear { chain: rest })
                            &&& rest@ == chain@.drop_last()
                            &&& step == (TeardownStep::Pause { app: rest@.last() })
                            &&& guards_kept(*old(self), *final(self))
                        } else {
                            &&& final(self).pending() is None
                            &&& step matches TeardownStep::Granted(guard)
                            &&& guard.target() == c
                            &&& guards_moved(*old(self), *final(self), c, 1)
                        }
                    },
                    Err(error) => {
                        let failed = with_tear(apps, c, TearState::Failed(error));
                        &&& guards_kept(*old(self), *final(self))
                        &&& match apps[c].parent {
                            None => {
                                &&& final(self).apps() == failed
                                &&& final(self).pending() is None
                                &&& step == TeardownStep::Failed(error)
                            },
                            Some(p) => {
                                &&& final(self).apps() == with_tear(
                                    failed,
                                    p as int,
                                    one_guard_fewer(apps, p as int),
                                )
                                &&& if counter_of(apps, p as int) == 1 {
                                    &&& final(self).pending() matches Some(
                                        PendingOp::Release { current, restored, cause },
                                    )
                                    &&& current == p
                                    &&& restored@.len() == 0
                                    &&& cause == Some(error)
                                    &&& step == (TeardownStep::Restore { app: p })
                                } else {
                                    &&& final(self).pending() is None
                                    &&& step == TeardownStep::Failed(error)
                                }
                            },
                        }
                    },
                }
            }),
    {
        let ghost apps = self.apps@;
        let pending = self.pending.take();
        let mut chain = match pending {
            Some(PendingOp::Tear { chain }) => chain,
            _ => {
                assert(false);
                Vec::new()
            },
        };
        let ghost whole = chain@;
        let c = match chain.pop() {
            Some(c) => c,
            None => {
                assert(false);
                0
            },
        };
        assert(chain@ =~= whole.drop_last());
        assert(well_placed(self.shape(), c as int));
        let parent = self.apps[c].parent;
        match outcome {
            Ok(policy) => {
                self.replace_tear(
                    c,
                    TearState::Torn(
                        Teardown {
                            upstream: parent.is_some(),
                            original_sync_policy: policy,
                            counter: 1,
                        },
                    ),
                );
                if chain.len() > 0 {
                    let next = chain[chain.len() - 1];
                    self.pending = Some(PendingOp::Tear { chain });
                    proof {
                        lemma_pause_done(*old(self), *self, policy);
                    }
                    TeardownStep::Pause { app: next }
                } else {
                    proof {
                        lemma_pause_done(*old(self), *self, policy);
                    }
                    TeardownStep::Granted(TearingArgoCdGuard { app: c })
                }
            },
            Err(error) => {
                self.replace_tear(c, TearState::Failed(error.duplicate()));
                let ghost failed = self.apps@;
                match parent {
                    None => {
                        proof {
                            lemma_pause_failed(*old(self), *self, error);
                        }
                        TeardownStep::Failed(error)
                    },
                    Some(p) => {
                        proof {
                            assert(old(self).guards(p as int) >= 0);
                            assert(op_holds(old(self).pending(), apps, p as int));
                        }
                        if self.drop_guard(p) {
                            self.pending = Some(
                                PendingOp::Release {
                                    current: p,
                                    restored: Vec::new(),
                                    cause: Some(error),
                                },
                            );
                            proof {
                                lemma_pause_failed(*old(self), *self, error);
                            }
                            TeardownStep::Restore { app: p }
                        } else {
                            proof {
                                lemma_pause_failed(*old(self), *self, error);
                            }
                            TeardownStep::Failed(error)
                        }
                    },
                }
            },
        }
    }
}

/// A pause that went through keeps the forest well-formed and tidy. The guard of the
/// paused application passes to the teardown, or to the caller if the teardown is done.
proof fn lemma_pause_done(old: ArgoCdForest, new: ArgoCdForest, policy: Option<SyncPolicy>)
    requires
        old.wf(),
        old.pending() matches Some(PendingOp::Tear { chain }) && ({
            let c = chain@.last() as int;
            &&& new.apps() == with_tear(old.apps(), c, fresh_teardown(old.apps(), c, policy))
            &&& if chain@.len() > 1 {
                new.pending() matches Some(PendingOp::Tear { chain: rest }) && rest@
                    == chain@.drop_last()
            } else {
                new.pending() is None
            }
        }),
        new.shape() == old.shape(),
    ensures
        new.wf(),
        old.tidy() ==> new.tidy(),
        old.pending() matches Some(PendingOp::Tear { chain }) && (if chain@.len() > 1 {
            guards_kept(old, new)
        } else {
            guards_moved(old, new, chain@.last() as int, 1)
        }),
{
    let a = old.apps();
    let b = new.apps();
    let n = a.len() as int;
    let chain = old.pending()->Some_0->Tear_chain@;
    let c = chain.last() as int;
    assert(well_placed(old.shape(), c));
    // Nobody holds a guard on an application that is idle.
    assert(holders(a, c, n) == 0) by {
        lemma_holders_zero(a, c, n);
        assert forall|j: int| 0 <= j < n implies !holds_upstream(a, j, c) by {
            if holds_upstream(a, j, c) {
                assert(holds_parent(a, j));
            }
        }
    }
    assert forall|j: int| 0 <= j < n && #[trigger] holds_parent(b, j) implies {
        &&& b[j].parent matches Some(p)
        &&& b[p as int].tear is Torn
    } by {
        assert(well_placed(old.shape(), j));
        if j != c {
            assert(holds_parent(a, j));
        }
    }
    assert forall|i: int| 0 <= i < n implies #[trigger] new.guards(i) == old.guards(i) + if i == c
        && chain.len() == 1 {
        1int
    } else {
        0int
    } by {
        if a[c].parent == Some(i as usize) {
            lemma_holders_one(a, b, i, n, c);
            assert(op_holds(old.pending(), a, i));
            if chain.len() > 1 {
                let rest = new.pending()->Some_0->Tear_chain@;
                assert(rest.last() == chain[chain.len() - 2]);
                assert(a[chain[chain.len() - 2] as int].parent == Some(chain[chain.len() - 2 + 1]));
                assert(!op_holds(new.pending(), b, i));
            }
        } else {
            lemma_holders_same(a, b, i, n);
            if chain.len() > 1 {
                let rest = new.pending()->Some_0->Tear_chain@;
                assert(rest.last() == chain[chain.len() - 2]);
                assert(a[chain[chain.len() - 2] as int].parent == Some(chain[chain.len() - 2 + 1]));
            }
        }
    }
    assert forall|i: int| 0 <= i < n implies #[trigger] new.guards(i) >= 0 by {
        assert(old.guards(i) >= 0);
    }
    if chain.len() > 1 {
        let rest = new.pending()->Some_0->Tear_chain@;
        assert forall|k: int| 0 <= k < rest.len() implies (#[trigger] rest[k]) < b.len()
            && b[rest[k] as int].tear is Idle by {
            assert(rest[k] == chain[k]);
            assert(a[chain[k] as int].parent == Some(chain[k + 1]));
            assert(well_placed(old.shape(), chain[k] as int));
        }
        assert forall|k: int| 0 <= k < rest.len() - 1 implies b[#[trigger] rest[k] as int].parent
            == Some(rest[k + 1]) by {
            assert(rest[k] == chain[k]);
            assert(rest[k + 1] == chain[k + 1]);
        }
        assert(rest.last() == chain[chain.len() - 2]);
        assert(a[chain[chain.len() - 2] as int].parent == Some(chain[chain.len() - 2 + 1]));
        assert(tear_fits(b, rest));
    }
    if old.tidy() {
        assert forall|i: int|
            0 <= i < n && #[trigger] counter_of(b, i) == 0 && b[i].tear is Torn implies false by {
            assert(counter_of(a, i) == 0);
        }
    }
}

/// A pause that failed keeps the forest well-formed and tidy, and nobody's guards change:
/// the guard that the teardown held on the parent is gone with the teardown.
proof fn lemma_pause_failed(old: ArgoCdForest, new: ArgoCdForest, error: ArgoCdError)
    requires
        old.wf(),
        old.pending() matches Some(PendingOp::Tear { chain }) && ({
            let c = chain@.last() as int;
            let failed = with_tear(old.apps(), c, TearState::Failed(error));
            match old.apps()[c].parent {
                None => new.apps() == failed && new.pending() is None,
                Some(p) => {
                    &&& new.apps() == with_tear(failed, p as int, one_guard_fewer(old.apps(), p as int))
                    &&& if counter_of(old.apps(), p as int) == 1 {
                        &&& new.pending() matches Some(
                            PendingOp::Release { current, restored, cause },
                        )
                        &&& current == p
                        &&& restored@.len() == 0
                    } else {
                        new.pending() is None
                    }
                },
            }
        }),
        new.shape() == old.shape(),
    ensures
        new.wf(),
        old.tidy() ==> new.tidy(),
        guards_kept(old, new),
{
    let a = old.apps();
    let b = new.apps();
    let n = a.len() as int;
    let chain = old.pending()->Some_0->Tear_chain@;
    let c = chain.last() as int;
    assert(well_placed(old.shape(), c));
    assert forall|j: int| 0 <= j < n implies holds_parent(b, j) == holds_parent(a, j) && b[j].parent
        == a[j].parent by {}
    match a[c].parent {
        Some(p) => {
            assert(old.guards(p as int) >= 0);
            assert(op_holds(old.pending(), a, p as int));
            assert(a[p as int].tear is Torn);
        },
        None => {},
    }
    assert forall|j: int| 0 <= j < n && #[trigger] holds_parent(b, j) implies {
        &&& b[j].parent matches Some(p)
        &&& b[p as int].tear is Torn
    } by {
        assert(well_placed(old.shape(), j));
        assert(holds_parent(a, j));
    }
    assert forall|i: int| 0 <= i < n implies #[trigger] new.guards(i) == old.guards(i) by {
        lemma_holders_same(a, b, i, n);
    }
    assert forall|i: int| 0 <= i < n implies #[trigger] new.guards(i) >= 0 by {
        assert(old.guards(i) >= 0);
    }
    if old.tidy() {
        assert forall|i: int|
            0 <= i < n && #[trigger] counter_of(b, i) == 0 && b[i].tear is Torn implies {
            &&& new.pending() matches Some(PendingOp::Release { current, restored, cause })
            &&& (i == current || restored@.contains(i as usize))
        } by {
            if a[c].parent != Some(i as usize) {
                assert(counter_of(a, i) == 0);
            }
        }
    }
}


/// `apps` with every application at one of the positions `nodes` made idle.
pub open spec fn idled(apps: Seq<ArgoCd>, nodes: Seq<usize>) -> Seq<ArgoCd> {
    Seq::new(
        apps.len(),
        |i: int|
            if nodes.contains(i as usize) {
                ArgoCd {
                    name: apps[i].name,
                    path: apps[i].path,
                    parent: apps[i].parent,
                    kind: apps[i].kind,
                    tear: TearState::Idle,
                }
            } else {
                apps[i]
            },
    )
}

/// The suspension of application `i` without the guard on its parent.
pub open spec fn without_upstream(apps: Seq<ArgoCd>, i: int) -> TearState {
    match apps[i].tear {
        TearState::Torn(teardown) => TearState::Torn(
            Teardown {
                upstream: false,
                original_sync_policy: teardown.original_sync_policy,
                counter: teardown.counter,
            },
        ),
        other => other,
    }
}

/// How a release ends that had nothing more to restore: closed, or, where it rolled a
/// failed teardown back, failed with the error of that teardown.
pub open spec fn release_result(cause: Option<ArgoCdError>) -> TeardownStep {
    match cause {
        Some(error) => TeardownStep::Failed(error),
        None => TeardownStep::Closed,
    }
}

/// What closing a guard on the application at `target` comes to at its first step.
///
/// A guard that a caller can hold takes one off the open guards of the application; if
/// that was the last, the application is to be restored, else the release is done. Any
/// other guard is refused, and nothing changes.
pub open spec fn closes(
    old: ArgoCdForest,
    new: ArgoCdForest,
    target: usize,
    step: TeardownStep,
) -> bool {
    ({
        let apps = old.apps();
        let a = target as int;
        if a < apps.len() && old.guards(a) >= 1 {
            &&& new.apps() == with_tear(apps, a, one_guard_fewer(apps, a))
            &&& guards_moved(old, new, a, -1)
            &&& if counter_of(apps, a) == 1 {
                &&& new.pending() matches Some(
                    PendingOp::Release { current, restored, cause },
                )
                &&& current == a
                &&& restored@.len() == 0
                &&& cause is None
                &&& step == (TeardownStep::Restore { app: current })
            } else {
                &&& new.pending() is None
                &&& step == TeardownStep::Closed
            }
        } else {
            &&& step == TeardownStep::Failed(ArgoCdError::Dropped)
            &&& new.apps() == apps
            &&& new.pending() is None
            &&& guards_kept(old, new)
        }
    })
}

impl TearingArgoCdGuard {
    /// Gives the guard back.
    ///
    /// A guard that the forest does not know (its application is not there, is not
    /// suspended, or has no guard open that a caller could hold) is refused with
    /// `Dropped`, and nothing changes. Otherwise the application counts one guard fewer.
    /// If that was its last, it is to be restored; else the release is done.
    pub fn close(self, forest: &mut ArgoCdForest) -> (step: TeardownStep)
        requires
            old(forest).wf(),
            old(forest).pending() is None,
        ensures
            final(forest).wf(),
            final(forest).shape() == old(forest).shape(),
            old(forest).tidy() ==> final(forest).tidy(),
            closes(*old(forest), *final(forest), self.target(), step),
    {
        let a = self.app;
        if a >= forest.apps.len() {
            proof {
                lemma_same_forest(*old(forest), *forest);
            }
            return TeardownStep::Failed(ArgoCdError::Dropped);
        }
        let counter = match &forest.apps[a].tear {
            TearState::Torn(teardown) => teardown.counter,
            _ => 0,
        };
        let held = forest.count_holders(a);
        if counter <= held {
            proof {
                lemma_same_forest(*old(forest), *forest);
            }
            return TeardownStep::Failed(ArgoCdError::Dropped);
        }
        if forest.drop_guard(a) {
            forest.pending = Some(
                PendingOp::Release { current: a, restored: Vec::new(), cause: None },
            );
            proof {
                lemma_guard_closed(*old(forest), *forest, a as int);
            }
            TeardownStep::Restore { app: a }
        } else {
            proof {
                lemma_guard_closed(*old(forest), *forest, a as int);
            }
            TeardownStep::Closed
        }
    }
}

/// Closing a guard that a caller holds keeps the forest well-formed and tidy, and takes
/// that one guard off.
proof fn lemma_guard_closed(old: ArgoCdForest, new: ArgoCdForest, a: int)
    requires
        old.wf(),
        old.pending() is None,
        0 <= a < old.apps().len(),
        old.guards(a) >= 1,
        new.apps() == with_tear(old.apps(), a, one_guard_fewer(old.apps(), a)),
        new.shape() == old.shape(),
        if counter_of(old.apps(), a) == 1 {
            &&& new.pending() matches Some(PendingOp::Release { current, restored, cause })
            &&& current == a
            &&& restored@.len() == 0
        } else {
            new.pending() is None
        },
    ensures
        new.wf(),
        old.tidy() ==> new.tidy(),
        guards_moved(old, new, a, -1),
{
    let x = old.apps();
    let y = new.apps();
    let n = x.len() as int;
    assert forall|j: int| 0 <= j < n implies holds_parent(y, j) == holds_parent(x, j) && y[j].parent
        == x[j].parent && (y[j].tear is Torn) == (x[j].tear is Torn) by {}
    assert forall|j: int| 0 <= j < n && #[trigger] holds_parent(y, j) implies {
        &&& y[j].parent matches Some(p)
        &&& y[p as int].tear is Torn
    } by {
        assert(well_placed(old.shape(), j));
        assert(holds_parent(x, j));
    }
    assert forall|i: int| 0 <= i < n implies #[trigger] new.guards(i) == old.guards(i) + if i == a {
        -1int
    } else {
        0int
    } by {
        lemma_holders_same(x, y, i, n);
    }
    assert forall|i: int| 0 <= i < n implies #[trigger] new.guards(i) >= 0 by {
        assert(old.guards(i) >= 0);
    }
    if old.tidy() {
        assert forall|i: int|
            0 <= i < n && #[trigger] counter_of(y, i) == 0 && y[i].tear is Torn implies {
            &&& new.pending() matches Some(PendingOp::Release { current, restored, cause })
            &&& (i == current || restored@.contains(i as usize))
        } by {
            if i != a {
                assert(counter_of(x, i) == 0);
            }
        }
    }
}


impl ArgoCdForest {
    /// Makes every application of `nodes` idle.
    fn make_idle(&mut self, nodes: &Vec<usize>)
        requires
            forall|k: int| 0 <= k < nodes@.len() ==> (#[trigger] nodes@[k]) < old(self).apps().len(),
        ensures
            final(self).apps() == idled(old(self).apps(), nodes@),
            final(self).pending() == old(self).pending(),
            final(self).shape() == old(self).shape(),
    {
        let ghost start = self.apps@;
        let mut k: usize = 0;
        assert(self.apps.len() <= usize::MAX);
        assert(self.apps@ =~= idled(start, nodes@.take(0)));
        while k < nodes.len()
            invariant
                k <= nodes.len(),
                start == old(self).apps(),
                start.len() <= usize::MAX,
                forall|m: int| 0 <= m < nodes@.len() ==> (#[trigger] nodes@[m]) < start.len(),
                self.apps@ == idled(start, nodes@.take(k as int)),
                self.pending() == old(self).pending(),
                self.shape() == old(self).shape(),
            decreases nodes.len() - k,
        {
            let ghost before = self.apps@;
            self.replace_tear(nodes[k], TearState::Idle);
            proof {
                let done = nodes@.take(k as int);
                let more = nodes@.take(k as int + 1);
                assert(more =~= done.push(nodes@[k as int]));
                assert forall|i: int| 0 <= i < start.len() implies self.apps@[i] == idled(
                    start,
                    more,
                )[i] by {
                    if i == nodes@[k as int] {
                        assert(more[k as int] == i as usize);
                    } else if done.contains(i as usize) {
                        let m = choose|m: int| 0 <= m < done.len() && done[m] == i as usize;
                        assert(more[m] == i as usize);
                    } else if more.contains(i as usize) {
                        let m = choose|m: int| 0 <= m < more.len() && more[m] == i as usize;
                        assert(m < k);
                        assert(done[m] == i as usize);
                    }
                }
                assert(self.apps@ =~= idled(start, more));
            }
            k += 1;
        }
        assert(nodes@.take(nodes@.len() as int) =~= nodes@);
    }

    /// Reports how the restore that the release under way asked for went.
    ///
    /// - A restore that failed ends the release with an error: the error of the teardown
    ///   that is rolled back if there is one, else the error of the restore. Nothing
    ///   changes in the forest; the applications restored so far stay as they are.
    /// - A restore that went through takes the guard that the application held on its
    ///   parent, if it held one, off the parent. If that was the parent's last guard, the
    ///   parent is restored next. Else the release has nothing more to restore: every
    ///   application it has restored becomes idle, and it ends.
    ///
    /// An application is restored only when it has no guard open, and so only after
    /// every child that held a guard on it has been restored and has given that guard
    /// back.
    pub fn restored(&mut self, outcome: Result<(), ArgoCdError>) -> (step: TeardownStep)
        requires
            old(self).wf(),
            old(self).pending() matches Some(PendingOp::Release { current, restored, cause }),
        ensures
            final(self).wf(),
            final(self).shape() == old(self).shape(),
            guards_kept(*old(self), *final(self)),
            outcome is Ok && old(self).tidy() ==> final(self).tidy(),
            step matches TeardownStep::Restore { app } ==> {
                &&& app < final(self).apps().len()
                &&& counter_of(final(self).apps(), app as int) == 0
                &&& forall|j: int|
                    0 <= j < final(self).apps().len() ==> !holds_upstream(
                        final(self).apps(),
                        j,
                        app as int,
                    )
            },
            old(self).pending() matches Some(PendingOp::Release { current, restored, cause }) && ({
                let apps = old(self).apps();
                let c = current as int;
                match outcome {
                    Err(error) => {
                        &&& final(self).apps() == apps
                        &&& final(self).pending() is None
                        &&& step == TeardownStep::Failed(
                            match cause {
                                Some(first) => first,
                                None => error,
                            },
                        )
                    },
                    Ok(_) => {
                        let released = with_tear(apps, c, without_upstream(apps, c));
                        if holds_parent(apps, c) {
                            let p = apps[c].parent->0 as int;
                            let passed = with_tear(released, p, one_guard_fewer(apps, p));
                            if counter_of(apps, p) == 1 {
                                &&& final(self).apps() == passed
                                &&& final(self).pending() matches Some(
                                    PendingOp::Release {
                                        current: next,
                                        restored: behind,
                                        cause: kept,
                                    },
                                )
                                &&& next == p
                                &&& behind@ == restored@.push(current)
                                &&& kept == cause
                                &&& step == (TeardownStep::Restore { app: next })
                            } else {
                                &&& final(self).apps() == idled(passed, restored@.push(current))
                                &&& final(self).pending() is None
                                &&& step == release_result(cause)
                            }
                        } else {
                            &&& final(self).apps() == idled(released, restored@.push(current))
                            &&& final(self).pending() is None
                            &&& step == release_result(cause)
                        }
                    },
                }
            }),
    {
        let ghost apps = self.apps@;
        let pending = self.pending.take();
        let (current, mut restored, cause) = match pending {
            Some(PendingOp::Release { current, restored, cause }) => (current, restored, cause),
            _ => {
                assert(false);
                (0, Vec::new(), None)
            },
        };
        let ghost behind = restored@;
        assert(well_placed(self.shape(), current as int));
        match outcome {
            Err(error) => {
                proof {
                    lemma_restore_failed(*old(self), *self);
                }
                match cause {
                    Some(first) => TeardownStep::Failed(first),
                    None => TeardownStep::Failed(error),
                }
            },
            Ok(_) => {
                let before = self.replace_tear(current, TearState::Idle);
                let (upstream, original_sync_policy, counter) = match before {
                    TearState::Torn(teardown) => {
                        let Teardown { upstream, original_sync_policy, counter } = teardown;
                        (upstream, original_sync_policy, counter)
                    },
                    _ => {
                        assert(false);
                        (false, None, 0)
                    },
                };
                self.replace_tear(
                    current,
                    TearState::Torn(Teardown { upstream: false, original_sync_policy, counter }),
                );
                assert(self.apps@ =~= with_tear(
                    apps,
                    current as int,
                    without_upstream(apps, current as int),
                ));
                let ghost released = self.apps@;
                let parent = self.apps[current].parent;
                restored.push(current);
                let mut next: Option<usize> = None;
                if upstream {
                    assert(holds_parent(old(self).apps(), current as int));
                    match parent {
                        Some(p) => {
                            proof {
                                assert(holds_parent(apps, current as int));
                                assert(old(self).guards(p as int) >= 0);
                                lemma_holders_zero(apps, p as int, apps.len() as int);
                                assert(holds_upstream(apps, current as int, p as int));
                            }
                            if self.drop_guard(p) {
                                next = Some(p);
                            }
                            assert(self.apps@ =~= with_tear(
                                released,
                                p as int,
                                one_guard_fewer(apps, p as int),
                            ));
                        },
                        None => {
                            assert(false);
                        },
                    }
                }
                let ghost passed = self.apps@;
                match next {
                    Some(p) => {
                        self.pending = Some(
                            PendingOp::Release { current: p, restored, cause },
                        );
                        proof {
                            lemma_restore_passed(*old(self), *self);
                        }
                        TeardownStep::Restore { app: p }
                    },
                    None => {
                        proof {
                            assert forall|k: int| 0 <= k < restored@.len() implies (
                            #[trigger] restored@[k]) < self.apps().len() by {
                                if k < behind.len() {
                                    assert(restored@[k] == behind[k]);
                                }
                            }
                        }
                        self.make_idle(&restored);
                        proof {
                            lemma_release_done(*old(self), *self, passed);
                        }
                        match cause {
                            Some(first) => TeardownStep::Failed(first),
                            None => TeardownStep::Closed,
                        }
                    },
                }
            },
        }
    }
}

/// A restore that failed ends the release and changes nothing else: the forest stays
/// well-formed and nobody's guards change.
proof fn lemma_restore_failed(old: ArgoCdForest, new: ArgoCdForest)
    requires
        old.wf(),
        old.pending() matches Some(PendingOp::Release { current, restored, cause }),
        new.apps() == old.apps(),
        new.pending() is None,
    ensures
        new.wf(),
        new.shape() == old.shape(),
        guards_kept(old, new),
{
    assert(new.shape() =~= old.shape());
    assert forall|i: int| 0 <= i < old.apps().len() implies #[trigger] new.guards(i) == old.guards(
        i,
    ) by {}
    assert forall|i: int| 0 <= i < new.apps().len() implies #[trigger] new.guards(i) >= 0 by {
        assert(old.guards(i) >= 0);
    }
}

/// The state of a release after its current application was restored: that application
/// holds no guard on its parent any more, and the parent counts one guard fewer.
pub open spec fn after_restore(apps: Seq<ArgoCd>, c: int) -> Seq<ArgoCd> {
    let released = with_tear(apps, c, without_upstream(apps, c));
    if holds_parent(apps, c) {
        let p = apps[c].parent->0 as int;
        with_tear(released, p, one_guard_fewer(apps, p))
    } else {
        released
    }
}

/// What holds after the current application of a release was restored and gave its guard
/// on the parent back, whatever follows.
proof fn lemma_after_restore(old: ArgoCdForest, c: int)
    requires
        old.wf(),
        old.pending() matches Some(PendingOp::Release { current, restored, cause }) && current
            == c,
    ensures
        ({
            let a = old.apps();
            let b = after_restore(a, c);
            let n = a.len() as int;
            &&& b.len() == a.len()
            &&& forall|j: int|
                0 <= j < n ==> (#[trigger] b[j]).parent == a[j].parent && (b[j].tear is Torn) == (
                a[j].tear is Torn) && (b[j].tear is Idle) == (a[j].tear is Idle)
            &&& forall|j: int|
                0 <= j < n && j != c ==> #[trigger] holds_parent(b, j) == holds_parent(a, j)
            &&& !holds_parent(b, c)
            &&& is_released(b, c)
            &&& forall|i: int|
                0 <= i < n ==> counter_of(b, i) - #[trigger] holders(b, i, n) == counter_of(a, i)
                    - holders(a, i, n)
            &&& forall|i: int|
                0 <= i < n && !(holds_parent(a, c) && a[c].parent == Some(i as usize))
                    ==> #[trigger] counter_of(b, i) == counter_of(a, i)
            &&& holds_parent(a, c) ==> {
                &&& a[c].parent matches Some(p)
                &&& p < c
                &&& a[p as int].tear is Torn
                &&& counter_of(a, p as int) >= 1
                &&& counter_of(b, p as int) == counter_of(a, p as int) - 1
            }
        }),
{
    let a = old.apps();
    let b = after_restore(a, c);
    let n = a.len() as int;
    assert(well_placed(old.shape(), c));
    if holds_parent(a, c) {
        let p = a[c].parent->0 as int;
        assert(old.guards(p) >= 0);
        assert(holds_upstream(a, c, p));
        lemma_holders_zero(a, p, n);
        assert(counter_of(a, p) >= 1);
        assert forall|i: int| 0 <= i < n implies counter_of(b, i) - #[trigger] holders(b, i, n)
            == counter_of(a, i) - holders(a, i, n) by {
            if i == p {
                lemma_holders_one(a, b, i, n, c);
            } else {
                lemma_holders_same(a, b, i, n);
            }
        }
    } else {
        assert forall|i: int| 0 <= i < n implies counter_of(b, i) - #[trigger] holders(b, i, n)
            == counter_of(a, i) - holders(a, i, n) by {
            lemma_holders_same(a, b, i, n);
        }
    }
}

/// A restore that went through and leaves the parent without a guard keeps the forest
/// well-formed and tidy: the release goes on to the parent.
proof fn lemma_restore_passed(old: ArgoCdForest, new: ArgoCdForest)
    requires
        old.wf(),
        old.pending() matches Some(PendingOp::Release { current, restored, cause }) && ({
            &&& holds_parent(old.apps(), current as int)
            &&& counter_of(old.apps(), old.apps()[current as int].parent->0 as int) == 1
            &&& new.apps() == after_restore(old.apps(), current as int)
            &&& new.pending() matches Some(
                PendingOp::Release { current: next, restored: behind, cause: kept },
            )
            &&& Some(next) == old.apps()[current as int].parent
            &&& behind@ == restored@.push(current)
        }),
        new.shape() == old.shape(),
    ensures
        new.wf(),
        guards_kept(old, new),
        old.tidy() ==> new.tidy(),
        new.pending() matches Some(PendingOp::Release { current: next, restored: behind, cause: kept })
            && counter_of(new.apps(), next as int) == 0 && forall|j: int|
            0 <= j < new.apps().len() ==> !holds_upstream(new.apps(), j, next as int),
{
    let a = old.apps();
    let b = new.apps();
    let n = a.len() as int;
    let c = old.pending()->Some_0->Release_current as int;
    let restored = old.pending()->Some_0->Release_restored@;
    let behind = new.pending()->Some_0->Release_restored@;
    let p = new.pending()->Some_0->Release_current as int;
    lemma_after_restore(old, c);
    assert forall|j: int| 0 <= j < n && #[trigger] holds_parent(b, j) implies {
        &&& b[j].parent matches Some(q)
        &&& b[q as int].tear is Torn
    } by {
        assert(well_placed(old.shape(), j));
        assert(holds_parent(a, j));
    }
    assert forall|i: int| 0 <= i < n implies #[trigger] new.guards(i) == old.guards(i) by {
        assert(counter_of(b, i) - holders(b, i, n) == counter_of(a, i) - holders(a, i, n));
    }
    assert forall|i: int| 0 <= i < n implies #[trigger] new.guards(i) >= 0 by {
        assert(old.guards(i) >= 0);
    }
    assert forall|k: int| 0 <= k < behind.len() implies (#[trigger] behind[k]) < b.len()
        && is_released(b, behind[k] as int) by {
        if k < restored.len() {
            assert(behind[k] == restored[k]);
            assert(is_released(a, restored[k] as int));
            assert(!holds_parent(a, restored[k] as int));
        }
    }
    assert(new.guards(p) >= 0);
    lemma_holders_zero(b, p, n);
    if old.tidy() {
        assert forall|i: int|
            0 <= i < n && #[trigger] counter_of(b, i) == 0 && b[i].tear is Torn implies i == p
            || behind.contains(i as usize) by {
            if i != p {
                assert(counter_of(a, i) == 0);
                if i == c {
                    assert(behind[behind.len() - 1] == c as usize);
                } else {
                    assert(restored.contains(i as usize));
                    let k = choose|k: int| 0 <= k < restored.len() && restored[k] == i as usize;
                    assert(behind[k] == i as usize);
                }
            }
        }
    }
}

/// A release that has nothing more to restore, and makes what it restored idle, keeps
/// the forest well-formed and tidy.
proof fn lemma_release_done(old: ArgoCdForest, new: ArgoCdForest, passed: Seq<ArgoCd>)
    requires
        old.wf(),
        old.pending() matches Some(PendingOp::Release { current, restored, cause }) && ({
            &&& passed == after_restore(old.apps(), current as int)
            &&& holds_parent(old.apps(), current as int) ==> counter_of(
                old.apps(),
                old.apps()[current as int].parent->0 as int,
            ) != 1
            &&& new.apps() == idled(passed, restored@.push(current))
        }),
        new.pending() is None,
        new.shape() == old.shape(),
    ensures
        new.wf(),
        guards_kept(old, new),
        old.tidy() ==> new.tidy(),
{
    let a = old.apps();
    let m = passed;
    let b = new.apps();
    let n = a.len() as int;
    let c = old.pending()->Some_0->Release_current as int;
    let restored = old.pending()->Some_0->Release_restored@;
    let nodes = restored.push(c as usize);
    lemma_after_restore(old, c);
    // Every application that becomes idle was released: no guard open, none held.
    assert forall|i: int| 0 <= i < n && nodes.contains(i as usize) implies is_released(m, i) by {
        if i != c {
            let k = choose|k: int| 0 <= k < nodes.len() && nodes[k] == i as usize;
            assert(nodes[k] == restored[k]);
            assert(is_released(a, restored[k] as int));
            assert(!holds_parent(a, i));
            assert(!(holds_parent(a, c) && a[c].parent == Some(i as usize))) by {
                if holds_parent(a, c) && a[c].parent == Some(i as usize) {
                    assert(counter_of(a, i) >= 1);
                }
            }
            assert(counter_of(m, i) == counter_of(a, i));
            assert(holds_parent(m, i) == holds_parent(a, i));
        }
    }
    assert forall|j: int, i: int| 0 <= j < n && 0 <= i < n implies holds_upstream(b, j, i)
        == holds_upstream(m, j, i) by {
        if nodes.contains(j as usize) {
            assert(is_released(m, j));
        }
    }
    assert forall|i: int| 0 <= i < n implies holders(b, i, n) == #[trigger] holders(m, i, n) by {
        lemma_holders_same(m, b, i, n);
    }
    assert forall|i: int| 0 <= i < n implies #[trigger] new.guards(i) == old.guards(i) by {
        assert(counter_of(m, i) - holders(m, i, n) == counter_of(a, i) - holders(a, i, n));
        if nodes.contains(i as usize) {
            assert(is_released(m, i));
        }
    }
    assert forall|i: int| 0 <= i < n implies #[trigger] new.guards(i) >= 0 by {
        assert(old.guards(i) >= 0);
    }
    assert forall|j: int| 0 <= j < n && #[trigger] holds_parent(b, j) implies {
        &&& b[j].parent matches Some(q)
        &&& b[q as int].tear is Torn
    } by {
        assert(well_placed(old.shape(), j));
        assert(!nodes.contains(j as usize));
        assert(holds_parent(m, j));
        assert(holds_parent(a, j));
        let q = a[j].parent->0 as int;
        if nodes.contains(q as usize) {
            assert(is_released(m, q));
            assert(counter_of(m, q) - holders(m, q, n) == counter_of(a, q) - holders(a, q, n));
            assert(old.guards(q) >= 0);
            assert(holds_upstream(m, j, q));
            lemma_holders_zero(m, q, n);
        }
    }
    if old.tidy() {
        assert forall|i: int|
            0 <= i < n && #[trigger] counter_of(b, i) == 0 && b[i].tear is Torn implies false by {
            assert(!nodes.contains(i as usize));
            assert(counter_of(m, i) == 0);
            if holds_parent(a, c) && a[c].parent == Some(i as usize) {
            } else {
                assert(counter_of(a, i) == 0);
                assert(i == c || restored.contains(i as usize));
                if i != c {
                    let k = choose|k: int| 0 <= k < restored.len() && restored[k] == i as usize;
                    assert(nodes[k] == i as usize);
                } else {
                    assert(nodes[nodes.len() - 1] == c as usize);
                }
            }
        }
    }
}


/// While a caller holds a guard on an application, the application is suspended and has a
/// guard open.
pub proof fn lemma_guarded_stays_suspended(forest: ArgoCdForest, i: int)
    requires
        forest.wf(),
        0 <= i < forest.apps().len(),
        forest.guards(i) >= 1,
    ensures
        forest.apps()[i].tear is Torn,
        counter_of(forest.apps(), i) >= 1,
{
}

/// While a suspended application holds a guard on its parent, the parent is suspended and
/// has a guard open.
pub proof fn lemma_parent_outlives_child(forest: ArgoCdForest, j: int)
    requires
        forest.wf(),
        0 <= j < forest.apps().len(),
        holds_parent(forest.apps(), j),
    ensures
        forest.apps()[j].parent matches Some(p) && p < j && forest.apps()[p as int].tear is Torn
            && counter_of(forest.apps(), p as int) >= 1,
{
    let apps = forest.apps();
    assert(well_placed(forest.shape(), j));
    let p = apps[j].parent->0 as int;
    assert(forest.guards(p) >= 0);
    assert(holds_upstream(apps, j, p));
    lemma_holders_zero(apps, p, apps.len() as int);
}

/// Once every guard that was handed out has been closed, no application is suspended any
/// more, provided that no restore failed (the forest is tidy) and nothing is under way.
pub proof fn lemma_no_guard_nothing_suspended(forest: ArgoCdForest)
    requires
        forest.wf(),
        forest.pending() is None,
        forest.tidy(),
        forall|i: int| 0 <= i < forest.apps().len() ==> forest.guards(i) == 0,
    ensures
        forall|i: int| 0 <= i < forest.apps().len() ==> !(forest.apps()[i].tear is Torn),
{
    lemma_none_suspended_from(forest, 0);
}

proof fn lemma_none_suspended_from(forest: ArgoCdForest, from: int)
    requires
        forest.wf(),
        forest.pending() is None,
        forest.tidy(),
        forall|i: int| 0 <= i < forest.apps().len() ==> forest.guards(i) == 0,
        0 <= from <= forest.apps().len(),
    ensures
        forall|i: int| from <= i < forest.apps().len() ==> !(forest.apps()[i].tear is Torn),
    decreases forest.apps().len() - from,
{
    let apps = forest.apps();
    let n = apps.len() as int;
    if from < n {
        lemma_none_suspended_from(forest, from + 1);
        if apps[from].tear is Torn {
            assert forall|j: int| 0 <= j < n implies !holds_upstream(apps, j, from) by {
                if holds_upstream(apps, j, from) {
                    assert(well_placed(forest.shape(), j));
                }
            }
            lemma_holders_zero(apps, from, n);
            assert(forest.guards(from) == 0);
            assert(counter_of(apps, from) == 0);
        }
    }
}

/// A forest in which nothing is suspended and nothing is under way is well-formed and
/// tidy, and nobody holds a guard on it.
pub proof fn lemma_idle_forest(forest: ArgoCdForest)
    requires
        forest.all_idle(),
        well_shaped(forest.shape()),
    ensures
        forest.wf(),
        forest.tidy(),
        forest.has_room(),
        forall|i: int| 0 <= i < forest.apps().len() ==> forest.guards(i) == 0,
{
    forest.lemma_bounded();
    let apps = forest.apps();
    let n = apps.len() as int;
    assert forall|i: int| 0 <= i < n implies #[trigger] forest.guards(i) == 0 by {
        lemma_holders_zero(apps, i, n);
    }
}


/// A caller that tears an application down which is suspended already, and closes its
/// guard while another guard on the application is open, has nothing sent to the cluster
/// and leaves the forest as it found it: the teardown is granted at once, the release is
/// done at once, and every application is as it was.
pub proof fn lemma_shared_teardown_changes_nothing(
    before: ArgoCdForest,
    held: ArgoCdForest,
    after: ArgoCdForest,
    app: usize,
    granted: TeardownStep,
    closed: TeardownStep,
)
    requires
        before.wf(),
        before.pending() is None,
        app < before.apps().len(),
        before.apps()[app as int].tear is Torn,
        1 <= counter_of(before.apps(), app as int) < usize::MAX,
        tears(before, held, app, granted),
        closes(held, after, app, closed),
    ensures
        granted matches TeardownStep::Granted(guard) && guard.target() == app,
        closed == TeardownStep::Closed,
        after.apps() == before.apps(),
        after.pending() is None,
{
    let a = app as int;
    assert(first_settled(before.apps(), a) == Some(a));
    assert(before.guards(a) >= 0);
    assert(held.guards(a) == before.guards(a) + 1);
    assert(held.apps().len() == before.apps().len());
    assert(after.apps() =~= before.apps());
}

} // verus!
