//! What is left to do when a run of the daily routine is over.

use crate::config::Config;
use crate::kubernetes_objects::argocd::tearing::TearingArgoCdGuard;
use crate::kubernetes_objects::minecraft_chart::MinecraftChart;
use vstd::prelude::*;

verus! {

/// The guards that the first `upto` game servers hold, in the order of the servers.
pub open spec fn held_guards(servers: Seq<(String, MinecraftChart)>, upto: int) -> Seq<
    TearingArgoCdGuard,
>
    decreases upto,
{
    if upto <= 0 {
        Seq::empty()
    } else {
        match servers[upto - 1].1.argocd_tear {
            Some(Ok(guard)) => held_guards(servers, upto - 1).push(guard),
            _ => held_guards(servers, upto - 1),
        }
    }
}

/// The guards that the charts of a configuration hold: the proxy's first, then those of
/// the game servers in their order.
pub open spec fn all_held_guards(config: Config) -> Seq<TearingArgoCdGuard> {
    (match config.mcproxy.argocd_tear {
        Some(Ok(guard)) => seq![guard],
        _ => Seq::empty(),
    }) + held_guards(config.mcservers@, config.mcservers@.len() as int)
}

/// Releases every chart, whatever the run came to, and hands out the guards that are to
/// be closed, in the order in which to close them: the proxy's first, then those of the
/// game servers.
///
/// Afterwards no chart holds a guard, so a second call hands out nothing. A chart whose
/// teardown failed still remembers that; the charts and the forest are otherwise as they
/// were.
pub fn finalizer(config: &mut Config) -> (guards: Vec<TearingArgoCdGuard>)
    ensures
        guards@ == all_held_guards(*old(config)),
        final(config)@ == old(config)@,
        final(config).argocds == old(config).argocds,
        !final(config).mcproxy.holds_guard(),
        final(config).mcservers@.len() == old(config).mcservers@.len(),
        forall|i: int|
            0 <= i < final(config).mcservers@.len() ==> !(
            #[trigger] final(config).mcservers@[i]).1.holds_guard(),
        all_held_guards(*final(config)).len() == 0,
{
    let mut guards: Vec<TearingArgoCdGuard> = Vec::new();
    match config.mcproxy.release() {
        Some(guard) => {
            guards.push(guard);
        },
        None => {},
    }
    let ghost head = guards@;
    let ghost before = config.mcservers@;
    let n = config.mcservers.len();
    let mut done: Vec<(String, MinecraftChart)> = Vec::new();
    let mut i: usize = 0;
    while i < n
        invariant
            n == before.len(),
            i <= n,
            done.len() == i,
            config.mcservers@ == before.subrange(i as int, n as int),
            guards@ == head + held_guards(before, i as int),
            forall|k: int|
                0 <= k < i ==> (#[trigger] done@[k]).0 == before[k].0 && done@[k].1@ == before[k].1@
                    && !done@[k].1.holds_guard(),
            config.namespace == old(config).namespace,
            config.argocds == old(config).argocds,
            config.mcproxy@ == old(config).mcproxy@,
            !config.mcproxy.holds_guard(),
        decreases n - i,
    {
        let ghost rest = config.mcservers@;
        let (key, mut chart) = config.mcservers.remove(0);
        assert(rest[0] == before[i as int]);
        assert(config.mcservers@ =~= before.subrange(i + 1, n as int));
        let ghost so_far = guards@;
        match chart.release() {
            Some(guard) => {
                guards.push(guard);
            },
            None => {},
        }
        assert(guards@ =~= head + held_guards(before, i + 1));
        done.push((key, chart));
        i += 1;
    }
    config.mcservers = done;
    proof {
        assert(crate::config::servers_view(config.mcservers@) =~= crate::config::servers_view(
            before,
        ));
        lemma_nothing_held(config.mcservers@, n as int);
    }
    guards
}

/// Charts that hold no guard have no guard to hand out.
proof fn lemma_nothing_held(servers: Seq<(String, MinecraftChart)>, upto: int)
    requires
        0 <= upto <= servers.len(),
        forall|i: int| 0 <= i < servers.len() ==> !(#[trigger] servers[i]).1.holds_guard(),
    ensures
        held_guards(servers, upto).len() == 0,
    decreases upto,
{
    if upto > 0 {
        lemma_nothing_held(servers, upto - 1);
        assert(!servers[upto - 1].1.holds_guard());
    }
}

} // verus!
