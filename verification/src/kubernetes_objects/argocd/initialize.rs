//! Adding applications to the forest.

use crate::kubernetes_objects::argocd::{
    well_placed, well_shaped, ArgoCd, ArgoCdForest, ArgoCdKind, ArgoCdView, TearState,
};
use vstd::prelude::*;

verus! {

/// A copy of a list of names.
pub fn clone_names(names: &Vec<String>) -> (copy: Vec<String>)
    ensures
        copy.deep_view() == names.deep_view(),
{
    let mut copy: Vec<String> = Vec::new();
    let mut i: usize = 0;
    while i < names.len()
        invariant
            i <= names.len(),
            copy.len() == i,
            forall|k: int| 0 <= k < i ==> (#[trigger] copy@[k])@ == names@[k]@,
        decreases names.len() - i,
    {
        copy.push(names[i].clone());
        i += 1;
    }
    assert(copy.deep_view() =~= names.deep_view());
    copy
}

impl ArgoCdForest {
    /// The shape that the forest has after a node of the given name, parent and kind was
    /// added to it.
    pub open spec fn shape_with(
        self,
        name: Seq<char>,
        parent: Option<usize>,
        kind: ArgoCdKind,
    ) -> Seq<ArgoCdView> {
        self.shape().push(
            ArgoCdView {
                name,
                path: match parent {
                    Some(p) => self.shape()[p as int].path.push(name),
                    None => seq![name],
                },
                parent,
                kind,
            },
        )
    }

    /// Adds an inner node under `parent`, or as a root, and returns its position.
    pub fn new_app_of_apps(&mut self, name: String, parent: Option<usize>) -> (app: usize)
        requires
            parent matches Some(p) ==> p < old(self).apps().len(),
        ensures
            app == old(self).apps().len(),
            final(self).shape() == old(self).shape_with(name@, parent, ArgoCdKind::AppOfApps),
            final(self).apps().len() == old(self).apps().len() + 1,
            forall|i: int| 0 <= i < app ==> final(self).apps()[i] == old(self).apps()[i],
            final(self).apps()[app as int].tear is Idle,
            final(self).pending() == old(self).pending(),
            well_shaped(old(self).shape()) ==> well_shaped(final(self).shape()),
    {
        self.add(name, parent, ArgoCdKind::AppOfApps)
    }

    /// Adds an application under `parent`, or as a root, and returns its position.
    pub fn new_application(&mut self, name: String, parent: Option<usize>) -> (app: usize)
        requires
            parent matches Some(p) ==> p < old(self).apps().len(),
        ensures
            app == old(self).apps().len(),
            final(self).shape() == old(self).shape_with(name@, parent, ArgoCdKind::Application),
            final(self).apps().len() == old(self).apps().len() + 1,
            forall|i: int| 0 <= i < app ==> final(self).apps()[i] == old(self).apps()[i],
            final(self).apps()[app as int].tear is Idle,
            final(self).pending() == old(self).pending(),
            well_shaped(old(self).shape()) ==> well_shaped(final(self).shape()),
    {
        self.add(name, parent, ArgoCdKind::Application)
    }

    /// The path of a node called `name` under `parent`: the parent's path and then the
    /// name, or the name alone for a root.
    pub fn path(&self, parent: Option<usize>, name: String) -> (path: Vec<String>)
        requires
            parent matches Some(p) ==> p < self.apps().len(),
        ensures
            path.deep_view() == match parent {
                Some(p) => self.shape()[p as int].path.push(name@),
                None => seq![name@],
            },
    {
        let mut path = match parent {
            Some(p) => clone_names(&self.apps[p].path),
            None => Vec::new(),
        };
        let ghost before = path.deep_view();
        path.push(name);
        assert(path.deep_view() =~= before.push(name@));
        path
    }

    fn add(&mut self, name: String, parent: Option<usize>, kind: ArgoCdKind) -> (app: usize)
        requires
            parent matches Some(p) ==> p < old(self).apps().len(),
        ensures
            app == old(self).apps().len(),
            final(self).shape() == old(self).shape_with(name@, parent, kind),
            final(self).apps().len() == old(self).apps().len() + 1,
            forall|i: int| 0 <= i < app ==> final(self).apps()[i] == old(self).apps()[i],
            final(self).apps()[app as int].tear is Idle,
            final(self).pending() == old(self).pending(),
            well_shaped(old(self).shape()) ==> well_shaped(final(self).shape()),
    {
        let app = self.apps.len();
        let path = self.path(parent, name.clone());
        self.apps.push(ArgoCd { name, path, parent, kind, tear: TearState::Idle });
        proof {
            assert(final(self).shape() =~= old(self).shape_with(name@, parent, kind));
            if well_shaped(old(self).shape()) {
                assert forall|i: int| 0 <= i < final(self).shape().len() implies #[trigger] well_placed(
                    final(self).shape(),
                    i,
                ) by {
                    if i < app {
                        assert(well_placed(old(self).shape(), i));
                    }
                }
            }
        }
        app
    }
}

} // verus!
