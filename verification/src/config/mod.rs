//! The validated configuration of one maintenance run.

pub mod polling;
pub mod raw;

pub use raw::ConfigParseError;

use crate::config::raw::{
    build_jobs_after_snapshot, checked_jobs, raw_servers_view, ConfigParseErrorView, RawConfig,
    RawConfigView, RawMinecraftChart, RawMinecraftChartView,
};
use crate::kubernetes_objects::argocd::tearing::lemma_idle_forest;
use crate::kubernetes_objects::argocd::{
    shape_names, well_placed, well_shaped, ArgoCdForest, ArgoCdKind, ArgoCdView,
};
use crate::kubernetes_objects::minecraft_chart::{MinecraftChart, MinecraftChartView};
use crate::text::{
    contains_slash, distinct, first_slashed, index_of, join_path, join_with_slash,
    lemma_first_slashed_is, lemma_index_of, lemma_index_of_distinct, lemma_join_split,
    lemma_split_segments_have_no_slash, slash, split_on_slash, split_path, str_equal,
};
use vstd::prelude::*;
use vstd::string::StringExecFns;

verus! {

/// The validated configuration.
#[derive(Debug)]
pub struct Config {
    /// The namespace in which the servers' workloads live.
    pub namespace: String,
    /// The forest of GitOps applications that the charts are bound to.
    pub argocds: ArgoCdForest,
    pub mcproxy: MinecraftChart,
    /// The game servers by key, in the order in which they were read.
    pub mcservers: Vec<(String, MinecraftChart)>,
}

/// The game servers as specifications see them.
pub open spec fn servers_view(servers: Seq<(String, MinecraftChart)>) -> Seq<
    (Seq<char>, MinecraftChartView),
> {
    Seq::new(servers.len(), |i: int| (servers[i].0@, servers[i].1@))
}

/// The configuration as specifications see it.
pub struct ConfigView {
    pub namespace: Seq<char>,
    pub argocds: Seq<ArgoCdView>,
    pub mcproxy: MinecraftChartView,
    pub mcservers: Seq<(Seq<char>, MinecraftChartView)>,
}

impl View for Config {
    type V = ConfigView;

    open spec fn view(&self) -> ConfigView {
        ConfigView {
            namespace: self.namespace@,
            argocds: self.argocds.shape(),
            mcproxy: self.mcproxy@,
            mcservers: servers_view(self.mcservers@),
        }
    }
}

/// A forest's shape after an attempt to add to it, and what the attempt objected to.
pub struct Grown {
    pub shape: Seq<ArgoCdView>,
    pub error: Option<ConfigParseErrorView>,
}

/// The view of an optional name.
pub open spec fn name_view(name: Option<&str>) -> Option<Seq<char>> {
    match name {
        Some(text) => Some(text@),
        None => None,
    }
}

/// How an optional parent is written in an error: its name, or `None`.
pub open spec fn parent_label(parent: Option<Seq<char>>) -> Seq<char> {
    match parent {
        Some(name) => name,
        None => "None"@,
    }
}

/// The name of the parent of node `at`, if it has one.
pub open spec fn parent_name_of(shape: Seq<ArgoCdView>, at: int) -> Option<Seq<char>> {
    match shape[at].parent {
        Some(p) => Some(shape[p as int].name),
        None => None,
    }
}

/// The node called `name` of the given kind, placed under the node called `parent`, or as
/// a root.
pub open spec fn node_under(
    shape: Seq<ArgoCdView>,
    parent: Option<Seq<char>>,
    name: Seq<char>,
    kind: ArgoCdKind,
) -> ArgoCdView {
    match parent {
        Some(parent_name) => {
            let p = index_of(shape_names(shape), parent_name);
            ArgoCdView { name, path: shape[p].path.push(name), parent: Some(p as usize), kind }
        },
        None => ArgoCdView { name, path: seq![name], parent: None, kind },
    }
}

/// Whether the forest holds the parent that a new node called `name` would be put under.
pub open spec fn parent_is_there(
    shape: Seq<ArgoCdView>,
    parent: Option<Seq<char>>,
    name: Seq<char>,
) -> bool {
    !shape_names(shape).contains(name) ==> match parent {
        Some(parent_name) => shape_names(shape).contains(parent_name),
        None => true,
    }
}

/// The forest after an inner node called `name` was asked for under `parent`.
///
/// A node of that name that is already there is taken as it is, provided that it was
/// placed under a parent of the same name, or under none where none is given; otherwise
/// the two parents are reported. A name that is new gives a new inner node.
pub open spec fn with_app_of_apps(
    shape: Seq<ArgoCdView>,
    parent: Option<Seq<char>>,
    name: Seq<char>,
) -> Grown {
    let at = index_of(shape_names(shape), name);
    if at < shape.len() {
        if parent_name_of(shape, at) == parent {
            Grown { shape, error: None }
        } else {
            Grown {
                shape,
                error: Some(
                    ConfigParseErrorView::ArgoCdParentMismatch {
                        name,
                        first_parent: parent_label(parent_name_of(shape, at)),
                        second_parent: parent_label(parent),
                    },
                ),
            }
        }
    } else {
        Grown {
            shape: shape.push(node_under(shape, parent, name, ArgoCdKind::AppOfApps)),
            error: None,
        }
    }
}

/// The forest after an application called `name` was added under `parent`. A name that is
/// already there is refused.
pub open spec fn with_application(
    shape: Seq<ArgoCdView>,
    parent: Option<Seq<char>>,
    name: Seq<char>,
) -> Grown {
    if index_of(shape_names(shape), name) < shape.len() {
        Grown { shape, error: Some(ConfigParseErrorView::ArgoCdHasMultipleCharts { name }) }
    } else {
        Grown {
            shape: shape.push(node_under(shape, parent, name, ArgoCdKind::Application)),
            error: None,
        }
    }
}

/// The segment before segment `k`, which names the parent of the node of segment `k`.
pub open spec fn segment_parent(segments: Seq<Seq<char>>, k: int) -> Option<Seq<char>> {
    if k <= 0 {
        None
    } else {
        Some(segments[k - 1])
    }
}

/// The forest after the first `k` segments of a path were asked for as inner nodes, each
/// under the one before it. It stops at the first segment that is objected to.
pub open spec fn with_prefixes(shape: Seq<ArgoCdView>, segments: Seq<Seq<char>>, k: int) -> Grown
    decreases k,
{
    if k <= 0 {
        Grown { shape, error: None }
    } else {
        let before = with_prefixes(shape, segments, k - 1);
        if before.error is Some {
            before
        } else {
            with_app_of_apps(before.shape, segment_parent(segments, k - 1), segments[k - 1])
        }
    }
}

/// The forest after the application of `path` was added to it: every segment but the last
/// as an inner node, the last as the application itself.
pub open spec fn with_hierarchy(shape: Seq<ArgoCdView>, path: Seq<char>) -> Grown {
    let segments = split_on_slash(path);
    let last = segments.len() - 1;
    let inner = with_prefixes(shape, segments, last);
    if inner.error is Some {
        inner
    } else {
        with_application(inner.shape, segment_parent(segments, last), segments[last])
    }
}

proof fn lemma_push_keeps_distinct(names: Seq<Seq<char>>, name: Seq<char>)
    requires
        distinct(names),
        !names.contains(name),
    ensures
        distinct(names.push(name)),
{
    let grown = names.push(name);
    assert forall|i: int, j: int| 0 <= i < j < grown.len() implies grown[i] != grown[j] by {
        if j == names.len() {
            assert(names[i] == grown[i]);
        }
    }
}

impl Config {
    /// Whether the forest is well shaped, its names are distinct, and every chart is bound
    /// to a node of it.
    pub open spec fn wf(self) -> bool {
        &&& well_shaped(self.argocds.shape())
        &&& distinct(shape_names(self.argocds.shape()))
        &&& self.mcproxy.argocd < self.argocds.apps().len()
        &&& forall|i: int|
            0 <= i < self.mcservers@.len() ==> (#[trigger] self.mcservers@[i]).1.argocd
                < self.argocds.apps().len()
    }

    /// Finds the inner node called `name`, or adds it under the node called `parent_name`.
    ///
    /// A node that is already there must have been placed under a parent of the same
    /// name; the position returned is that of the node.
    pub fn get_or_insert_argocd_apps_of_apps(
        argocds: &mut ArgoCdForest,
        parent_name: Option<&str>,
        name: &str,
    ) -> (found: Result<usize, ConfigParseError>)
        requires
            well_shaped(old(argocds).shape()),
            parent_is_there(old(argocds).shape(), name_view(parent_name), name@),
        ensures
            final(argocds).shape() == with_app_of_apps(
                old(argocds).shape(),
                name_view(parent_name),
                name@,
            ).shape,
            match found {
                Ok(app) => {
                    &&& with_app_of_apps(
                        old(argocds).shape(),
                        name_view(parent_name),
                        name@,
                    ).error is None
                    &&& app < final(argocds).apps().len()
                    &&& app == index_of(shape_names(final(argocds).shape()), name@)
                },
                Err(error) => with_app_of_apps(
                    old(argocds).shape(),
                    name_view(parent_name),
                    name@,
                ).error == Some(error@),
            },
            well_shaped(final(argocds).shape()),
            distinct(shape_names(old(argocds).shape())) ==> distinct(
                shape_names(final(argocds).shape()),
            ),
            final(argocds).apps().len() >= old(argocds).apps().len(),
            forall|i: int|
                0 <= i < old(argocds).apps().len() ==> final(argocds).apps()[i] == old(
                    argocds,
                ).apps()[i],
            old(argocds).all_idle() ==> final(argocds).all_idle(),
            final(argocds).pending() == old(argocds).pending(),
            forall|i: int|
                old(argocds).apps().len() <= i < final(argocds).apps().len() ==> (
                #[trigger] final(argocds).apps()[i]).tear is Idle,
    {
        let ghost shape = argocds.shape();
        let ghost names = shape_names(shape);
        proof {
            lemma_index_of(names, name@);
        }
        match argocds.find(name) {
            Some(at) => {
                let node = argocds.node(at);
                assert(well_placed(shape, at as int));
                let same = match node.parent {
                    None => parent_name.is_none(),
                    Some(p) => match parent_name {
                        None => false,
                        Some(second) => str_equal(argocds.node(p).name.as_str(), second),
                    },
                };
                assert(same == (parent_name_of(shape, at as int) == name_view(parent_name)));
                if same {
                    Ok(at)
                } else {
                    let first_parent = match node.parent {
                        Some(p) => argocds.node(p).name.clone(),
                        None => String::from_str("None"),
                    };
                    let second_parent = match parent_name {
                        Some(second) => String::from_str(second),
                        None => String::from_str("None"),
                    };
                    Err(
                        ConfigParseError::ArgoCdParentMismatch {
                            name: String::from_str(name),
                            first_parent,
                            second_parent,
                        },
                    )
                }
            },
            None => {
                let parent = match parent_name {
                    Some(second) => {
                        proof {
                            lemma_index_of(names, second@);
                        }
                        argocds.find(second)
                    },
                    None => None,
                };
                let app = argocds.new_app_of_apps(String::from_str(name), parent);
                proof {
                    let grown = shape_names(argocds.shape());
                    assert(grown =~= names.push(name@));
                    if distinct(names) {
                        lemma_push_keeps_distinct(names, name@);
                    }
                    lemma_index_of(grown, name@);
                    let at = index_of(grown, name@);
                    if at < app {
                        assert(names[at] == grown[at]);
                    }
                    assert(grown[app as int] == name@);
                    assert(at == app);
                }
                Ok(app)
            },
        }
    }

    /// Adds the application called `name` under the node called `parent_name`. A name
    /// that the forest already holds is refused.
    pub fn insert_argocd_application(
        argocds: &mut ArgoCdForest,
        parent_name: Option<&str>,
        name: &str,
    ) -> (added: Result<usize, ConfigParseError>)
        requires
            well_shaped(old(argocds).shape()),
            parent_is_there(old(argocds).shape(), name_view(parent_name), name@),
        ensures
            final(argocds).shape() == with_application(
                old(argocds).shape(),
                name_view(parent_name),
                name@,
            ).shape,
            match added {
                Ok(app) => {
                    &&& with_application(
                        old(argocds).shape(),
                        name_view(parent_name),
                        name@,
                    ).error is None
                    &&& app == old(argocds).apps().len()
                },
                Err(error) => with_application(
                    old(argocds).shape(),
                    name_view(parent_name),
                    name@,
                ).error == Some(error@),
            },
            well_shaped(final(argocds).shape()),
            distinct(shape_names(old(argocds).shape())) ==> distinct(
                shape_names(final(argocds).shape()),
            ),
            final(argocds).apps().len() >= old(argocds).apps().len(),
            forall|i: int|
                0 <= i < old(argocds).apps().len() ==> final(argocds).apps()[i] == old(
                    argocds,
                ).apps()[i],
            old(argocds).all_idle() ==> final(argocds).all_idle(),
            final(argocds).pending() == old(argocds).pending(),
            forall|i: int|
                old(argocds).apps().len() <= i < final(argocds).apps().len() ==> (
                #[trigger] final(argocds).apps()[i]).tear is Idle,
    {
        let ghost shape = argocds.shape();
        let ghost names = shape_names(shape);
        proof {
            lemma_index_of(names, name@);
        }
        match argocds.find(name) {
            Some(_) => Err(
                ConfigParseError::ArgoCdHasMultipleCharts { name: String::from_str(name) },
            ),
            None => {
                let parent = match parent_name {
                    Some(second) => {
                        proof {
                            lemma_index_of(names, second@);
                        }
                        argocds.find(second)
                    },
                    None => None,
                };
                let app = argocds.new_application(String::from_str(name), parent);
                proof {
                    let grown = shape_names(argocds.shape());
                    assert(grown =~= names.push(name@));
                    if distinct(names) {
                        lemma_push_keeps_distinct(names, name@);
                    }
                }
                Ok(app)
            },
        }
    }
}


/// Once a segment was objected to, the segments after it change nothing.
proof fn lemma_prefixes_stop(shape: Seq<ArgoCdView>, segments: Seq<Seq<char>>, k: int, m: int)
    requires
        0 <= k <= m,
        with_prefixes(shape, segments, k).error is Some,
    ensures
        with_prefixes(shape, segments, m) == with_prefixes(shape, segments, k),
    decreases m - k,
{
    if k < m {
        lemma_prefixes_stop(shape, segments, k, m - 1);
    }
}

impl Config {
    /// Adds the application of `path` to the forest: every segment of the path but the
    /// last is found or added as an inner node under the segment before it, and the last
    /// is added as the application. The position returned is that of the application.
    ///
    /// The forest keeps what was added before a segment was objected to.
    pub fn build_argocd_hierarchy(argocds: &mut ArgoCdForest, path: &str) -> (built: Result<
        usize,
        ConfigParseError,
    >)
        requires
            well_shaped(old(argocds).shape()),
        ensures
            final(argocds).shape() == with_hierarchy(old(argocds).shape(), path@).shape,
            match built {
                Ok(app) => {
                    &&& with_hierarchy(old(argocds).shape(), path@).error is None
                    &&& app == final(argocds).apps().len() - 1
                },
                Err(error) => with_hierarchy(old(argocds).shape(), path@).error == Some(error@),
            },
            well_shaped(final(argocds).shape()),
            distinct(shape_names(old(argocds).shape())) ==> distinct(
                shape_names(final(argocds).shape()),
            ),
            final(argocds).apps().len() >= old(argocds).apps().len(),
            forall|i: int|
                0 <= i < old(argocds).apps().len() ==> final(argocds).apps()[i] == old(
                    argocds,
                ).apps()[i],
            old(argocds).all_idle() ==> final(argocds).all_idle(),
            final(argocds).pending() == old(argocds).pending(),
            forall|i: int|
                old(argocds).apps().len() <= i < final(argocds).apps().len() ==> (
                #[trigger] final(argocds).apps()[i]).tear is Idle,
    {
        let ghost start = argocds.shape();
        let ghost segs = split_on_slash(path@);
        let segments = split_path(path);
        proof {
            lemma_split_segments_have_no_slash(path@);
        }
        let last = segments.len() - 1;
        let mut k: usize = 0;
        while k < last
            invariant
                segs == split_on_slash(path@),
                segments.deep_view() == segs,
                last == segs.len() - 1,
                k <= last,
                with_prefixes(start, segs, k as int) == (Grown {
                    shape: argocds.shape(),
                    error: None,
                }),
                k >= 1 ==> shape_names(argocds.shape()).contains(segs[k - 1]),
                well_shaped(argocds.shape()),
                start == old(argocds).shape(),
                distinct(shape_names(start)) ==> distinct(shape_names(argocds.shape())),
                argocds.apps().len() >= old(argocds).apps().len(),
                forall|i: int|
                    0 <= i < old(argocds).apps().len() ==> argocds.apps()[i] == old(
                        argocds,
                    ).apps()[i],
                old(argocds).all_idle() ==> argocds.all_idle(),
                argocds.pending() == old(argocds).pending(),
                forall|i: int|
                    old(argocds).apps().len() <= i < argocds.apps().len() ==> (
                    #[trigger] argocds.apps()[i]).tear is Idle,
            decreases last - k,
        {
            assert(segs[k as int] == segments@[k as int]@);
            let ghost before = argocds.shape();
            let found = if k == 0 {
                Config::get_or_insert_argocd_apps_of_apps(argocds, None, segments[k].as_str())
            } else {
                assert(segs[k - 1] == segments@[k - 1]@);
                Config::get_or_insert_argocd_apps_of_apps(
                    argocds,
                    Some(segments[k - 1].as_str()),
                    segments[k].as_str(),
                )
            };
            proof {
                assert(with_prefixes(start, segs, k as int + 1) == with_app_of_apps(
                    before,
                    segment_parent(segs, k as int),
                    segs[k as int],
                ));
            }
            match found {
                Err(error) => {
                    proof {
                        lemma_prefixes_stop(start, segs, k + 1, last as int);
                    }
                    return Err(error);
                },
                Ok(app) => {
                    proof {
                        lemma_index_of(shape_names(argocds.shape()), segs[k as int]);
                    }
                },
            }
            k += 1;
        }
        assert(segs[last as int] == segments@[last as int]@);
        let ghost inner = argocds.shape();
        assert(with_hierarchy(start, path@) == with_application(
            inner,
            segment_parent(segs, last as int),
            segs[last as int],
        ));
        let added = if last == 0 {
            Config::insert_argocd_application(argocds, None, segments[last].as_str())
        } else {
            assert(segs[last - 1] == segments@[last - 1]@);
            Config::insert_argocd_application(
                argocds,
                Some(segments[last - 1].as_str()),
                segments[last].as_str(),
            )
        };
        assert(argocds.shape().len() == argocds.apps().len());
        added
    }
}


/// The forest and the charts after an attempt to place game servers, and what the attempt
/// objected to.
pub struct Placed {
    pub shape: Seq<ArgoCdView>,
    pub charts: Seq<(Seq<char>, MinecraftChartView)>,
    pub error: Option<ConfigParseErrorView>,
}

/// The keys of the game servers, in order.
pub open spec fn server_keys(servers: Seq<(Seq<char>, RawMinecraftChartView)>) -> Seq<Seq<char>> {
    Seq::new(servers.len(), |i: int| servers[i].0)
}

/// The name of a game server's chart: the one it was given, or else its key.
pub open spec fn chart_name(key: Seq<char>, raw: RawMinecraftChartView) -> Seq<char> {
    match raw.name {
        Some(name) => name,
        None => key,
    }
}

/// Whether the proxy waits for a game server: it does unless the server says no.
pub open spec fn is_required(raw: RawMinecraftChartView) -> bool {
    raw.required_to_start != Some(false)
}

/// Whether some game server is required to start.
pub open spec fn any_required(servers: Seq<(Seq<char>, RawMinecraftChartView)>) -> bool {
    exists|i: int| 0 <= i < servers.len() && is_required((#[trigger] servers[i]).1)
}

/// The chart of the game server `key`, bound to the application at `argocd`.
pub open spec fn server_chart(
    key: Seq<char>,
    raw: RawMinecraftChartView,
    argocd: usize,
) -> MinecraftChartView {
    MinecraftChartView {
        name: chart_name(key, raw),
        argocd,
        rcon_container: raw.rcon_container,
        jobs_after_snapshot: raw.jobs_after_snapshot,
        required_to_start: is_required(raw),
    }
}

/// The forest and the charts after the first `k` game servers were placed, in order: for
/// each its application is added to the forest, then its jobs are checked. It stops at the
/// first server that is objected to.
pub open spec fn with_servers(
    shape: Seq<ArgoCdView>,
    servers: Seq<(Seq<char>, RawMinecraftChartView)>,
    k: int,
) -> Placed
    decreases k,
{
    if k <= 0 {
        Placed { shape, charts: Seq::empty(), error: None }
    } else {
        let before = with_servers(shape, servers, k - 1);
        if before.error is Some {
            before
        } else {
            let key = servers[k - 1].0;
            let raw = servers[k - 1].1;
            let grown = with_hierarchy(before.shape, raw.argocd);
            if grown.error is Some {
                Placed { shape: grown.shape, charts: before.charts, error: grown.error }
            } else {
                match checked_jobs(raw.jobs_after_snapshot, chart_name(key, raw)) {
                    Some(error) => Placed {
                        shape: grown.shape,
                        charts: before.charts,
                        error: Some(error),
                    },
                    None => Placed {
                        shape: grown.shape,
                        charts: before.charts.push(
                            (key, server_chart(key, raw, (grown.shape.len() - 1) as usize)),
                        ),
                        error: None,
                    },
                }
            }
        }
    }
}

/// What validating a configuration gives.
///
/// The checks run in this order, and the first that fails is the error: no key of a game
/// server holds a `/`; the proxy does not say whether it is required to start; some game
/// server is required to start; the proxy's application fits into the forest; the proxy
/// has a name; no name of a job of the proxy holds a `/`; then, for each game server in
/// order, its application fits into the forest and no name of its jobs holds a `/`.
pub open spec fn parse(raw: RawConfigView) -> Result<ConfigView, ConfigParseErrorView> {
    let keys = server_keys(raw.mcservers);
    let slashed = first_slashed(keys);
    if slashed < keys.len() {
        Err(ConfigParseErrorView::McserverNameIncludesSlash { name: keys[slashed] })
    } else if raw.mcproxy.required_to_start is Some {
        Err(ConfigParseErrorView::RequiredToStartCannotBeSetForMcproxy)
    } else if !any_required(raw.mcservers) {
        Err(ConfigParseErrorView::McproxyRequiresNoServerToStart)
    } else {
        let grown = with_hierarchy(Seq::empty(), raw.mcproxy.argocd);
        match grown.error {
            Some(error) => Err(error),
            None => match raw.mcproxy.name {
                None => Err(ConfigParseErrorView::McproxyNameMissing),
                Some(name) => match checked_jobs(raw.mcproxy.jobs_after_snapshot, name) {
                    Some(error) => Err(error),
                    None => {
                        let placed = with_servers(
                            grown.shape,
                            raw.mcservers,
                            raw.mcservers.len() as int,
                        );
                        match placed.error {
                            Some(error) => Err(error),
                            None => Ok(
                                ConfigView {
                                    namespace: raw.namespace,
                                    argocds: placed.shape,
                                    mcproxy: MinecraftChartView {
                                        name,
                                        argocd: (grown.shape.len() - 1) as usize,
                                        rcon_container: raw.mcproxy.rcon_container,
                                        jobs_after_snapshot: raw.mcproxy.jobs_after_snapshot,
                                        required_to_start: false,
                                    },
                                    mcservers: placed.charts,
                                },
                            ),
                        }
                    },
                },
            },
        }
    }
}

/// Once a game server was objected to, the servers after it change nothing.
proof fn lemma_servers_stop(
    shape: Seq<ArgoCdView>,
    servers: Seq<(Seq<char>, RawMinecraftChartView)>,
    k: int,
    m: int,
)
    requires
        0 <= k <= m,
        with_servers(shape, servers, k).error is Some,
    ensures
        with_servers(shape, servers, m) == with_servers(shape, servers, k),
    decreases m - k,
{
    if k < m {
        lemma_servers_stop(shape, servers, k, m - 1);
    }
}

/// Whether some game server is required to start.
fn some_required(servers: &Vec<(String, RawMinecraftChart)>) -> (found: bool)
    ensures
        found == any_required(raw_servers_view(servers@)),
{
    let ghost view = raw_servers_view(servers@);
    let mut i: usize = 0;
    while i < servers.len()
        invariant
            view == raw_servers_view(servers@),
            i <= servers.len(),
            forall|k: int| 0 <= k < i ==> !is_required((#[trigger] view[k]).1),
        decreases servers.len() - i,
    {
        assert(view[i as int].1 == servers@[i as int].1@);
        let required = match servers[i].1.required_to_start {
            Some(required) => required,
            None => true,
        };
        if required {
            return true;
        }
        i += 1;
    }
    false
}

/// The key of the first game server whose key holds a `/`, if there is one.
fn find_slashed_key(servers: &Vec<(String, RawMinecraftChart)>) -> (found: Option<String>)
    ensures
        match found {
            Some(key) => {
                let keys = server_keys(raw_servers_view(servers@));
                first_slashed(keys) < keys.len() && key@ == keys[first_slashed(keys)]
            },
            None => {
                let keys = server_keys(raw_servers_view(servers@));
                first_slashed(keys) == keys.len()
            },
        },
{
    let ghost keys = server_keys(raw_servers_view(servers@));
    let mut i: usize = 0;
    while i < servers.len()
        invariant
            keys == server_keys(raw_servers_view(servers@)),
            i <= servers.len(),
            forall|k: int| 0 <= k < i ==> !(#[trigger] keys[k]).contains(slash()),
        decreases servers.len() - i,
    {
        assert(keys[i as int] == servers@[i as int].0@);
        if contains_slash(servers[i].0.as_str()) {
            proof {
                lemma_first_slashed_is(keys, i as int);
            }
            return Some(servers[i].0.clone());
        }
        i += 1;
    }
    proof {
        lemma_first_slashed_is(keys, servers.len() as int);
    }
    None
}

impl Config {
    /// Validates a configuration as it was read.
    ///
    /// The result is what [`parse`] says: the configuration with its forest built and its
    /// charts bound, or the first objection. In a configuration that is returned nothing
    /// is torn down yet.
    pub fn try_from(raw: RawConfig) -> (parsed: Result<Config, ConfigParseError>)
        ensures
            match parsed {
                Ok(config) => {
                    &&& parse(raw@) == Ok::<ConfigView, ConfigParseErrorView>(config@)
                    &&& config.wf()
                    &&& config.argocds.wf()
                    &&& config.argocds.all_idle()
                    &&& config.mcproxy.argocd_tear is None
                    &&& forall|i: int|
                        0 <= i < config.mcservers@.len() ==> (
                        #[trigger] config.mcservers@[i]).1.argocd_tear is None
                },
                Err(error) => parse(raw@) == Err::<ConfigView, ConfigParseErrorView>(error@),
            },
    {
        let ghost raw_v = raw@;
        let RawConfig { namespace, mcproxy, mcservers } = raw;
        match find_slashed_key(&mcservers) {
            Some(name) => {
                return Err(ConfigParseError::McserverNameIncludesSlash { name });
            },
            None => {},
        }
        let RawMinecraftChart {
            name: proxy_name,
            argocd: proxy_path,
            rcon_container: proxy_rcon,
            jobs_after_snapshot: proxy_jobs,
            required_to_start: proxy_required,
        } = mcproxy;
        if proxy_required.is_some() {
            return Err(ConfigParseError::RequiredToStartCannotBeSetForMcproxy);
        }
        if !some_required(&mcservers) {
            return Err(ConfigParseError::McproxyRequiresNoServerToStart);
        }
        let mut argocds = ArgoCdForest::new();
        assert(argocds.shape() =~= Seq::<ArgoCdView>::empty());
        let proxy_app = match Config::build_argocd_hierarchy(&mut argocds, proxy_path.as_str()) {
            Ok(app) => app,
            Err(error) => {
                return Err(error);
            },
        };
        let ghost after_proxy = argocds.shape();
        let proxy_name = match proxy_name {
            Some(name) => name,
            None => {
                return Err(ConfigParseError::McproxyNameMissing);
            },
        };
        let proxy_jobs = match build_jobs_after_snapshot(proxy_jobs, proxy_name.as_str()) {
            Ok(jobs) => jobs,
            Err(error) => {
                return Err(error);
            },
        };
        let proxy = MinecraftChart::new(proxy_name, proxy_app, proxy_rcon, proxy_jobs, false);
        let ghost servers_v = raw_v.mcservers;
        let ghost total = servers_v.len();
        let mut remaining = mcservers;
        let mut charts: Vec<(String, MinecraftChart)> = Vec::new();
        let ghost target = with_servers(after_proxy, servers_v, total as int);
        proof {
            assert(servers_view(charts@) =~= Seq::<(Seq<char>, MinecraftChartView)>::empty());
            assert(raw_servers_view(remaining@) =~= servers_v.subrange(0, total as int));
            assert(parse(raw_v) == match target.error {
                Some(error) => Err::<ConfigView, ConfigParseErrorView>(error),
                None => Ok(
                    ConfigView {
                        namespace: namespace@,
                        argocds: target.shape,
                        mcproxy: proxy@,
                        mcservers: target.charts,
                    },
                ),
            });
        }
        while remaining.len() > 0
            invariant
                raw_v == raw@,
                target == with_servers(after_proxy, servers_v, total as int),
                parse(raw_v) == match target.error {
                    Some(error) => Err::<ConfigView, ConfigParseErrorView>(error),
                    None => Ok(
                        ConfigView {
                            namespace: namespace@,
                            argocds: target.shape,
                            mcproxy: proxy@,
                            mcservers: target.charts,
                        },
                    ),
                },
                servers_v == raw_v.mcservers,
                total == servers_v.len(),
                charts.len() + remaining.len() == total,
                raw_servers_view(remaining@) == servers_v.subrange(
                    charts.len() as int,
                    total as int,
                ),
                with_servers(after_proxy, servers_v, charts.len() as int) == (Placed {
                    shape: argocds.shape(),
                    charts: servers_view(charts@),
                    error: None,
                }),
                well_shaped(argocds.shape()),
                distinct(shape_names(argocds.shape())),
                argocds.all_idle(),
                proxy.argocd < argocds.apps().len(),
                forall|i: int|
                    0 <= i < charts@.len() ==> (#[trigger] charts@[i]).1.argocd
                        < argocds.apps().len(),
                forall|i: int| 0 <= i < charts@.len() ==> (#[trigger] charts@[i]).1.argocd_tear is None,
            decreases remaining.len(),
        {
            let ghost k = charts.len() as int;
            let ghost before = argocds.shape();
            let ghost placed = servers_view(charts@);
            let ghost rest = remaining@;
            let (key, server) = remaining.remove(0);
            proof {
                assert(raw_servers_view(rest)[0] == servers_v[k]);
                assert(key@ == servers_v[k].0);
                assert(server@ == servers_v[k].1);
                assert forall|j: int| 0 <= j < remaining@.len() implies raw_servers_view(
                    remaining@,
                )[j] == servers_v.subrange(k + 1, total as int)[j] by {
                    assert(remaining@[j] == rest[j + 1]);
                    assert(raw_servers_view(rest)[j + 1] == servers_v[k + j + 1]);
                }
                assert(raw_servers_view(remaining@) =~= servers_v.subrange(k + 1, total as int));
            }
            let RawMinecraftChart {
                name,
                argocd: path,
                rcon_container,
                jobs_after_snapshot,
                required_to_start,
            } = server;
            let app = match Config::build_argocd_hierarchy(&mut argocds, path.as_str()) {
                Ok(app) => app,
                Err(error) => {
                    proof {
                        assert(with_servers(after_proxy, servers_v, k + 1).error == Some(error@));
                        lemma_servers_stop(after_proxy, servers_v, k + 1, total as int);
                    }
                    return Err(error);
                },
            };
            let name = match name {
                Some(name) => name,
                None => key.clone(),
            };
            let jobs = match build_jobs_after_snapshot(jobs_after_snapshot, name.as_str()) {
                Ok(jobs) => jobs,
                Err(error) => {
                    proof {
                        assert(with_servers(after_proxy, servers_v, k + 1).error == Some(error@));
                        lemma_servers_stop(after_proxy, servers_v, k + 1, total as int);
                    }
                    return Err(error);
                },
            };
            let required = match required_to_start {
                Some(required) => required,
                None => true,
            };
            let chart = MinecraftChart::new(name, app, rcon_container, jobs, required);
            charts.push((key, chart));
            proof {
                assert(servers_view(charts@) =~= placed.push(
                    (servers_v[k].0, server_chart(servers_v[k].0, servers_v[k].1, app)),
                ));
            }
        }
        proof {
            lemma_idle_forest(argocds);
        }
        Ok(Config { namespace, argocds, mcproxy: proxy, mcservers: charts })
    }
}


/// A chart written back as it is read: with its name, with the path of its application,
/// and with `required` as its word on whether it is required to start.
pub open spec fn emitted_chart(
    shape: Seq<ArgoCdView>,
    chart: MinecraftChartView,
    required: Option<bool>,
) -> RawMinecraftChartView {
    RawMinecraftChartView {
        name: Some(chart.name),
        argocd: join_with_slash(shape[chart.argocd as int].path),
        rcon_container: chart.rcon_container,
        jobs_after_snapshot: chart.jobs_after_snapshot,
        required_to_start: required,
    }
}

/// A configuration written back as it is read, in full: every chart has its name, and
/// every game server says whether it is required to start.
pub open spec fn emitted(config: ConfigView) -> RawConfigView {
    RawConfigView {
        namespace: config.namespace,
        mcproxy: emitted_chart(config.argocds, config.mcproxy, None),
        mcservers: Seq::new(
            config.mcservers.len(),
            |i: int|
                (
                    config.mcservers[i].0,
                    emitted_chart(
                        config.argocds,
                        config.mcservers[i].1,
                        Some(config.mcservers[i].1.required_to_start),
                    ),
                ),
        ),
    }
}

/// Whether `longer` begins with the nodes of `shorter`.
pub open spec fn extends(shorter: Seq<ArgoCdView>, longer: Seq<ArgoCdView>) -> bool {
    &&& shorter.len() <= longer.len()
    &&& forall|i: int| 0 <= i < shorter.len() ==> longer[i] == #[trigger] shorter[i]
}

proof fn lemma_names_pushed(shape: Seq<ArgoCdView>, node: ArgoCdView)
    ensures
        shape_names(shape.push(node)) == shape_names(shape).push(node.name),
{
    assert(shape_names(shape.push(node)) =~= shape_names(shape).push(node.name));
}

/// A node that is added under the parent it names keeps the forest well shaped.
proof fn lemma_node_added(
    shape: Seq<ArgoCdView>,
    parent: Option<Seq<char>>,
    name: Seq<char>,
    kind: ArgoCdKind,
)
    requires
        well_shaped(shape),
        distinct(shape_names(shape)),
        shape.len() < usize::MAX,
        !shape_names(shape).contains(name),
        parent matches Some(parent_name) ==> shape_names(shape).contains(parent_name),
    ensures
        well_shaped(shape.push(node_under(shape, parent, name, kind))),
        distinct(shape_names(shape.push(node_under(shape, parent, name, kind)))),
        extends(shape, shape.push(node_under(shape, parent, name, kind))),
        index_of(shape_names(shape.push(node_under(shape, parent, name, kind))), name)
            == shape.len(),
{
    let node = node_under(shape, parent, name, kind);
    let grown = shape.push(node);
    let names = shape_names(shape);
    lemma_names_pushed(shape, node);
    lemma_push_keeps_distinct(names, name);
    match parent {
        Some(parent_name) => {
            lemma_index_of(names, parent_name);
        },
        None => {},
    }
    assert forall|i: int| 0 <= i < grown.len() implies #[trigger] well_placed(grown, i) by {
        if i < shape.len() {
            assert(well_placed(shape, i));
        }
    }
    lemma_index_of(shape_names(grown), name);
    let at = index_of(shape_names(grown), name);
    if at < shape.len() {
        assert(names[at] == shape_names(grown)[at]);
    }
    assert(shape_names(grown)[shape.len() as int] == name);
}

/// After the first `k` segments of a path were taken into the forest, the node of each
/// of them carries the segments up to it as its path.
proof fn lemma_prefix_paths(shape: Seq<ArgoCdView>, segments: Seq<Seq<char>>, k: int)
    requires
        well_shaped(shape),
        distinct(shape_names(shape)),
        0 <= k <= segments.len(),
        with_prefixes(shape, segments, k).error is None,
        with_prefixes(shape, segments, k).shape.len() < usize::MAX,
    ensures
        well_shaped(with_prefixes(shape, segments, k).shape),
        distinct(shape_names(with_prefixes(shape, segments, k).shape)),
        extends(shape, with_prefixes(shape, segments, k).shape),
        k >= 1 ==> ({
            let grown = with_prefixes(shape, segments, k).shape;
            let at = index_of(shape_names(grown), segments[k - 1]);
            at < grown.len() && grown[at].path == segments.take(k)
        }),
    decreases k,
{
    if k > 0 {
        let before = with_prefixes(shape, segments, k - 1);
        let name = segments[k - 1];
        let parent = segment_parent(segments, k - 1);
        let after = with_app_of_apps(before.shape, parent, name);
        assert(with_prefixes(shape, segments, k) == after);
        assert(before.shape.len() <= after.shape.len());
        lemma_prefix_paths(shape, segments, k - 1);
        let names = shape_names(before.shape);
        lemma_index_of(names, name);
        let at = index_of(names, name);
        if k - 1 >= 1 {
            lemma_index_of(names, segments[k - 2]);
        }
        if at < before.shape.len() {
            assert(well_placed(before.shape, at));
            if k - 1 >= 1 {
                let p = before.shape[at].parent->0 as int;
                lemma_index_of_distinct(names, p);
                assert(names[p] == before.shape[p].name);
                assert(segments.take(k - 1).push(name) =~= segments.take(k));
            } else {
                assert(seq![name] =~= segments.take(k));
            }
        } else {
            lemma_node_added(before.shape, parent, name, ArgoCdKind::AppOfApps);
            if k - 1 >= 1 {
                assert(segments.take(k - 1).push(name) =~= segments.take(k));
            } else {
                assert(seq![name] =~= segments.take(k));
            }
        }
    }
}

/// The application that was added for a path carries the segments of the path as its
/// path, and the forest is what it was with more nodes at its end.
proof fn lemma_hierarchy_leaf(shape: Seq<ArgoCdView>, path: Seq<char>)
    requires
        well_shaped(shape),
        distinct(shape_names(shape)),
        with_hierarchy(shape, path).error is None,
        with_hierarchy(shape, path).shape.len() < usize::MAX,
    ensures
        well_shaped(with_hierarchy(shape, path).shape),
        distinct(shape_names(with_hierarchy(shape, path).shape)),
        extends(shape, with_hierarchy(shape, path).shape),
        with_hierarchy(shape, path).shape.len() > shape.len(),
        with_hierarchy(shape, path).shape.last().path == split_on_slash(path),
{
    let segments = split_on_slash(path);
    lemma_split_segments_have_no_slash(path);
    let last = segments.len() - 1;
    let inner = with_prefixes(shape, segments, last);
    let name = segments[last];
    let parent = segment_parent(segments, last);
    let grown = with_application(inner.shape, parent, name);
    assert(with_hierarchy(shape, path) == grown);
    lemma_prefix_paths(shape, segments, last);
    let names = shape_names(inner.shape);
    lemma_index_of(names, name);
    if last >= 1 {
        lemma_index_of(names, segments[last - 1]);
        assert(segments.take(last).push(name) =~= segments);
    } else {
        assert(seq![name] =~= segments);
    }
    lemma_node_added(inner.shape, parent, name, ArgoCdKind::Application);
}

/// Whether game server `i` is placed as it was read: its chart is bound to an application
/// that carries the segments of the server's path as its path.
pub open spec fn is_placed(
    placed: Placed,
    servers: Seq<(Seq<char>, RawMinecraftChartView)>,
    i: int,
) -> bool {
    let chart = placed.charts[i].1;
    &&& placed.charts[i].0 == servers[i].0
    &&& chart.argocd < placed.shape.len()
    &&& placed.shape[chart.argocd as int].path == split_on_slash(servers[i].1.argocd)
    &&& chart == server_chart(servers[i].0, servers[i].1, chart.argocd)
}

/// After the first `k` game servers were placed, each of them is placed as it was read.
proof fn lemma_servers_paths(
    shape: Seq<ArgoCdView>,
    servers: Seq<(Seq<char>, RawMinecraftChartView)>,
    k: int,
)
    requires
        well_shaped(shape),
        distinct(shape_names(shape)),
        0 <= k <= servers.len(),
        with_servers(shape, servers, k).error is None,
        with_servers(shape, servers, k).shape.len() < usize::MAX,
    ensures
        well_shaped(with_servers(shape, servers, k).shape),
        distinct(shape_names(with_servers(shape, servers, k).shape)),
        extends(shape, with_servers(shape, servers, k).shape),
        with_servers(shape, servers, k).charts.len() == k,
        forall|i: int|
            0 <= i < k ==> #[trigger] is_placed(with_servers(shape, servers, k), servers, i),
    decreases k,
{
    if k > 0 {
        let before = with_servers(shape, servers, k - 1);
        let key = servers[k - 1].0;
        let raw = servers[k - 1].1;
        let grown = with_hierarchy(before.shape, raw.argocd);
        let after = with_servers(shape, servers, k);
        assert(before.error is None);
        assert(grown.error is None);
        assert(after.shape == grown.shape);
        // The forest only grows: what is small enough now was small enough before.
        assert(before.shape.len() <= grown.shape.len()) by {
            let segments = split_on_slash(raw.argocd);
            lemma_shape_grows(before.shape, segments, segments.len() - 1);
        }
        lemma_servers_paths(shape, servers, k - 1);
        lemma_hierarchy_leaf(before.shape, raw.argocd);
        assert forall|i: int| 0 <= i < k implies #[trigger] is_placed(after, servers, i) by {
            if i < k - 1 {
                assert(is_placed(before, servers, i));
                assert(after.charts[i] == before.charts[i]);
                let chart = before.charts[i].1;
                assert(grown.shape[chart.argocd as int] == before.shape[chart.argocd as int]);
            }
        }
    }
}

/// Taking segments into a forest never makes it smaller.
proof fn lemma_shape_grows(shape: Seq<ArgoCdView>, segments: Seq<Seq<char>>, k: int)
    requires
        0 <= k,
    ensures
        shape.len() <= with_prefixes(shape, segments, k).shape.len(),
    decreases k,
{
    if k > 0 {
        lemma_shape_grows(shape, segments, k - 1);
    }
}

/// Whether two charts as they are read are taken for the same: they differ at most in how
/// they say their name and whether they are required to start.
pub open spec fn reads_alike(
    a: (Seq<char>, RawMinecraftChartView),
    b: (Seq<char>, RawMinecraftChartView),
) -> bool {
    &&& a.0 == b.0
    &&& a.1.argocd == b.1.argocd
    &&& a.1.rcon_container == b.1.rcon_container
    &&& a.1.jobs_after_snapshot == b.1.jobs_after_snapshot
    &&& chart_name(a.0, a.1) == chart_name(b.0, b.1)
    &&& is_required(a.1) == is_required(b.1)
}

/// Game servers that read alike are placed alike.
proof fn lemma_servers_alike(
    shape: Seq<ArgoCdView>,
    a: Seq<(Seq<char>, RawMinecraftChartView)>,
    b: Seq<(Seq<char>, RawMinecraftChartView)>,
    k: int,
)
    requires
        0 <= k <= a.len(),
        a.len() == b.len(),
        forall|i: int| 0 <= i < k ==> reads_alike(#[trigger] a[i], b[i]),
    ensures
        with_servers(shape, a, k) == with_servers(shape, b, k),
    decreases k,
{
    if k > 0 {
        lemma_servers_alike(shape, a, b, k - 1);
        assert(reads_alike(a[k - 1], b[k - 1]));
    }
}

/// Reading a configuration, writing it back in full, and reading that again gives the
/// same configuration.
pub proof fn lemma_round_trip(raw: RawConfigView)
    requires
        parse(raw) is Ok,
        parse(raw)->Ok_0.argocds.len() < usize::MAX,
    ensures
        parse(emitted(parse(raw)->Ok_0)) == parse(raw),
{
    let config = parse(raw)->Ok_0;
    let again = emitted(config);
    let n = raw.mcservers.len() as int;
    let empty = Seq::<ArgoCdView>::empty();
    let grown = with_hierarchy(empty, raw.mcproxy.argocd);
    let name = raw.mcproxy.name->0;
    let placed = with_servers(grown.shape, raw.mcservers, n);
    assert(config.argocds == placed.shape);
    assert(config.mcservers == placed.charts);

    assert(well_shaped(empty));
    assert(distinct(shape_names(empty)));
    assert(grown.shape.len() <= placed.shape.len()) by {
        lemma_servers_grow(grown.shape, raw.mcservers, n);
    }
    lemma_hierarchy_leaf(empty, raw.mcproxy.argocd);
    lemma_servers_paths(grown.shape, raw.mcservers, n);

    // The proxy's application is written back under the path it was read from.
    let leaf = grown.shape.len() - 1;
    assert(config.mcproxy.argocd == leaf);
    assert(placed.shape[leaf] == grown.shape[leaf]);
    lemma_join_split(raw.mcproxy.argocd);
    assert(again.mcproxy.argocd == raw.mcproxy.argocd);

    // So is that of every game server, and the servers read as they did.
    assert forall|i: int| 0 <= i < n implies reads_alike(
        #[trigger] again.mcservers[i],
        raw.mcservers[i],
    ) by {
        assert(is_placed(placed, raw.mcservers, i));
        lemma_join_split(raw.mcservers[i].1.argocd);
    }
    lemma_servers_alike(grown.shape, again.mcservers, raw.mcservers, n);

    assert(server_keys(again.mcservers) =~= server_keys(raw.mcservers)) by {
        assert forall|i: int| 0 <= i < n implies server_keys(again.mcservers)[i] == server_keys(
            raw.mcservers,
        )[i] by {
            assert(reads_alike(again.mcservers[i], raw.mcservers[i]));
        }
    }
    let witness = choose|i: int| 0 <= i < n && is_required((#[trigger] raw.mcservers[i]).1);
    assert(reads_alike(again.mcservers[witness], raw.mcservers[witness]));
    assert(is_required(again.mcservers[witness].1));
    assert(any_required(again.mcservers));
}

/// Placing game servers never makes the forest smaller.
proof fn lemma_servers_grow(
    shape: Seq<ArgoCdView>,
    servers: Seq<(Seq<char>, RawMinecraftChartView)>,
    k: int,
)
    requires
        0 <= k,
    ensures
        shape.len() <= with_servers(shape, servers, k).shape.len(),
    decreases k,
{
    if k > 0 {
        lemma_servers_grow(shape, servers, k - 1);
        let before = with_servers(shape, servers, k - 1);
        if before.error is None {
            let segments = split_on_slash(servers[k - 1].1.argocd);
            lemma_shape_grows(before.shape, segments, segments.len() - 1);
        }
    }
}


impl Config {
    /// Writes one chart back as it is read.
    fn emit_chart(argocds: &ArgoCdForest, chart: MinecraftChart, required: Option<bool>) -> (raw:
        RawMinecraftChart)
        requires
            chart.argocd < argocds.apps().len(),
        ensures
            raw@ == emitted_chart(argocds.shape(), chart@, required),
    {
        let path = join_path(&argocds.node(chart.argocd).path);
        let MinecraftChart {
            name,
            argocd,
            rcon_container,
            jobs_after_snapshot,
            required_to_start,
            argocd_tear,
        } = chart;
        RawMinecraftChart {
            name: Some(name),
            argocd: path,
            rcon_container,
            jobs_after_snapshot,
            required_to_start: required,
        }
    }

    /// Writes the configuration back as it is read, in full: every chart with its name
    /// and the path of its application, every game server with its word on whether it is
    /// required to start. What the charts remember of their teardown is not written.
    ///
    /// Read again, it gives the same configuration: see [`lemma_round_trip`].
    pub fn into_raw(self) -> (raw: RawConfig)
        requires
            self.wf(),
        ensures
            raw@ == emitted(self@),
    {
        let ghost view = self@;
        let Config { namespace, argocds, mcproxy, mcservers } = self;
        let proxy = Config::emit_chart(&argocds, mcproxy, None);
        let ghost all = mcservers@;
        let mut remaining = mcservers;
        let mut servers: Vec<(String, RawMinecraftChart)> = Vec::new();
        proof {
            assert(remaining@ =~= all.subrange(0, all.len() as int));
        }
        while remaining.len() > 0
            invariant
                view.argocds == argocds.shape(),
                view.mcservers == servers_view(all),
                servers.len() + remaining.len() == all.len(),
                remaining@ == all.subrange(servers.len() as int, all.len() as int),
                forall|i: int|
                    0 <= i < all.len() ==> (#[trigger] all[i]).1.argocd < argocds.apps().len(),
                forall|i: int|
                    0 <= i < servers.len() ==> (#[trigger] servers@[i]).0@ == all[i].0@
                        && servers@[i].1@ == emitted_chart(
                        view.argocds,
                        all[i].1@,
                        Some(all[i].1.required_to_start),
                    ),
            decreases remaining.len(),
        {
            let ghost k = servers.len() as int;
            let ghost rest = remaining@;
            let (key, chart) = remaining.remove(0);
            proof {
                assert(rest[0] == all[k]);
                assert(remaining@ =~= all.subrange(k + 1, all.len() as int));
            }
            let required = chart.required_to_start;
            let raw = Config::emit_chart(&argocds, chart, Some(required));
            servers.push((key, raw));
        }
        let raw = RawConfig { namespace, mcproxy: proxy, mcservers: servers };
        proof {
            assert(raw@.mcservers =~= emitted(view).mcservers) by {
                assert forall|i: int| 0 <= i < all.len() implies raw@.mcservers[i] == emitted(
                    view,
                ).mcservers[i] by {
                    assert(servers_view(all)[i] == (all[i].0@, all[i].1@));
                }
            }
        }
        raw
    }
}

} // verus!
