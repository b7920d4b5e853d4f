//! What follows from the way a machine is built and from the way it lists
//! its actions.

use vstd::prelude::*;
use crate::matching::value_matches;
use crate::state::{all_resolvable, edge_total, fan, ids_of, initial, lemma_resolve,
    lemma_sources_in_range, lemma_sources_len, links_of, links_upto, names_of, others, resolvable,
    resolve, sources, target, GraphView, Link, MachineView, State, Transition};

verus! {

/// The number of edges that the first `m` transitions would get if each
/// got one for each state it names, and one where it names none.
pub open spec fn named_total(ts: Seq<Transition>, m: int) -> nat
    decreases m,
{
    if m <= 0 {
        0
    } else if ts[m - 1].from@.len() > 0 {
        named_total(ts, m - 1) + ts[m - 1].from@.len()
    } else {
        named_total(ts, m - 1) + 1
    }
}

/// The number of actions of the first `n` transitions.
pub open spec fn action_total(g: GraphView, n: int) -> nat
    decreases n,
{
    if n <= 0 {
        0
    } else {
        action_total(g, n - 1) + g.edges[n - 1].actions.len()
    }
}

/// Where the first `n` transitions are resolvable, as many edges are made
/// of them as they ask for.
pub proof fn lemma_links_len(names: Seq<Seq<char>>, ts: Seq<Transition>, n: int)
    requires
        0 <= n <= ts.len(),
        forall|i: int| 0 <= i < n ==> resolvable(names, #[trigger] ts[i]),
    ensures
        links_upto(names, ts, n).len() == edge_total(names.len(), ts, n),
    decreases n,
{
    if n > 0 {
        lemma_links_len(names, ts, n - 1);
        lemma_sources_len(names, ts[n - 1]);
    }
}

/// A description in which every name stands for a state gives a graph with
/// one edge for each state that each transition leaves: as many as a
/// transition names, and for one that names none as many as there are other
/// states than its target.
pub proof fn lemma_edge_count(states: Seq<State>, ts: Seq<Transition>)
    requires
        all_resolvable(names_of(states), ts),
    ensures
        initial(states, ts).graph.links.len() == edge_total(states.len(), ts, ts.len() as int),
{
    lemma_links_len(names_of(states), ts, ts.len() as int);
}

proof fn lemma_totals_agree(n: nat, ts: Seq<Transition>, m: int)
    requires
        0 <= m <= ts.len(),
        n == 2 || forall|i: int| 0 <= i < ts.len() ==> (#[trigger] ts[i]).from@.len() > 0,
    ensures
        edge_total(n, ts, m) == named_total(ts, m),
    decreases m,
{
    if m > 0 {
        lemma_totals_agree(n, ts, m - 1);
        assert(fan(n, ts[m - 1]) == if ts[m - 1].from@.len() > 0 {
            ts[m - 1].from@.len()
        } else {
            1
        });
    }
}

/// Where every transition names the states it leaves, or there are just two
/// states, the number of edges is the sum over the transitions of the
/// number of states named, a transition that names none counting as one.
pub proof fn lemma_edge_count_named(states: Seq<State>, ts: Seq<Transition>)
    requires
        all_resolvable(names_of(states), ts),
        states.len() == 2 || forall|i: int|
            0 <= i < ts.len() ==> (#[trigger] ts[i]).from@.len() > 0,
    ensures
        initial(states, ts).graph.links.len() == named_total(ts, ts.len() as int),
{
    lemma_edge_count(states, ts);
    lemma_totals_agree(states.len(), ts, ts.len() as int);
}

/// The graph of a description in which every name stands for a state is
/// well formed.
pub proof fn lemma_initial_wf(states: Seq<State>, ts: Seq<Transition>)
    requires
        all_resolvable(names_of(states), ts),
    ensures
        initial(states, ts).graph.wf(),
        initial(states, ts).graph.names() == names_of(states),
{
    let g = initial(states, ts).graph;
    let names = names_of(states);
    assert(g.names() =~= names);
    assert forall|e: int| 0 <= e < g.links.len() implies 0 <= (#[trigger] g.links[e]).owner
        < g.edges.len() && 0 <= g.links[e].from < g.states.len() && 0 <= g.links[e].to
        < g.states.len() by {
        lemma_link_origin(names, ts, ts.len() as int, e);
        lemma_sources_in_range(names, ts[g.links[e].owner]);
    }
    assert forall|t: int| 0 <= t < g.edges.len() implies (#[trigger] g.target(t)) is Some by {
        assert(resolvable(names, ts[t]));
    }
}

/// Each of the edges made of the first `n` transitions belongs to one of
/// them, leaves one of the states that this one leaves, and leads to its
/// target.
pub proof fn lemma_link_origin(names: Seq<Seq<char>>, ts: Seq<Transition>, n: int, e: int)
    requires
        0 <= n <= ts.len(),
        0 <= e < links_upto(names, ts, n).len(),
    ensures
        ({
            let l = links_upto(names, ts, n)[e];
            &&& 0 <= l.owner < n
            &&& sources(names, ts[l.owner]).contains(l.from)
            &&& l.to == target(names, ts[l.owner])->0
        }),
    decreases n,
{
    if n > 0 {
        let before = links_upto(names, ts, n - 1);
        if e < before.len() {
            lemma_link_origin(names, ts, n - 1, e);
        } else {
            let k = e - before.len();
            assert(links_upto(names, ts, n)[e] == links_of(names, ts[n - 1], n - 1)[k]);
            assert(sources(names, ts[n - 1])[k] == links_upto(names, ts, n)[e].from);
        }
    }
}

/// Each state that one of the first `n` transitions leaves is left by an
/// edge of that transition.
pub proof fn lemma_link_exists(
    names: Seq<Seq<char>>,
    ts: Seq<Transition>,
    n: int,
    t: int,
    s: int,
) -> (e: int)
    requires
        0 <= t < n <= ts.len(),
        sources(names, ts[t]).contains(s),
    ensures
        0 <= e < links_upto(names, ts, n).len(),
        links_upto(names, ts, n)[e] == (Link { owner: t, from: s, to: target(names, ts[t])->0 }),
    decreases n,
{
    let all = links_upto(names, ts, n);
    let before = links_upto(names, ts, n - 1);
    if t < n - 1 {
        let e = lemma_link_exists(names, ts, n - 1, t, s);
        assert(all[e] == before[e]);
        e
    } else {
        let k = sources(names, ts[t]).index_of(s);
        assert(sources(names, ts[t])[k] == s);
        assert(all[before.len() + k] == links_of(names, ts[t], t)[k]);
        before.len() + k
    }
}

/// The edges made of the `t`-th transition stand among those of the first
/// `n`, behind those of the transitions before it and in the order of the
/// states that it leaves.
pub proof fn lemma_links_place(names: Seq<Seq<char>>, ts: Seq<Transition>, n: int, t: int, k: int)
    requires
        0 <= t < n <= ts.len(),
        0 <= k < sources(names, ts[t]).len(),
    ensures
        links_upto(names, ts, t).len() + k < links_upto(names, ts, n).len(),
        links_upto(names, ts, n)[links_upto(names, ts, t).len() + k] == (Link {
            owner: t,
            from: sources(names, ts[t])[k],
            to: target(names, ts[t])->0,
        }),
    decreases n,
{
    let before = links_upto(names, ts, n - 1);
    if t < n - 1 {
        lemma_links_place(names, ts, n - 1, t, k);
        assert(links_upto(names, ts, n)[links_upto(names, ts, t).len() + k]
            == before[links_upto(names, ts, t).len() + k]);
    } else {
        assert(links_upto(names, ts, n)[before.len() + k] == links_of(names, ts[t], t)[k]);
    }
}

/// The edges that a transition has recorded are its own: it has recorded
/// one for each state that it leaves, in their order, and the edge at the
/// position recorded belongs to it, leaves that state and leads to its
/// target.
pub proof fn lemma_recorded_ids(states: Seq<State>, ts: Seq<Transition>, t: int, k: int)
    requires
        0 <= t < ts.len(),
        0 <= k < sources(names_of(states), ts[t]).len(),
    ensures
        ({
            let g = initial(states, ts).graph;
            let e = g.edges[t].ids[k];
            &&& g.edges[t].ids.len() == sources(names_of(states), ts[t]).len()
            &&& 0 <= e < g.links.len()
            &&& g.links[e] == (Link {
                owner: t,
                from: sources(names_of(states), ts[t])[k],
                to: target(names_of(states), ts[t])->0,
            })
        }),
{
    lemma_links_place(names_of(states), ts, ts.len() as int, t, k);
}

/// Every edge made of the first `n` transitions is recorded on the
/// transition that it belongs to.
pub proof fn lemma_edge_place(names: Seq<Seq<char>>, ts: Seq<Transition>, n: int, e: int) -> (k:
    int)
    requires
        0 <= n <= ts.len(),
        0 <= e < links_upto(names, ts, n).len(),
    ensures
        ({
            let t = links_upto(names, ts, n)[e].owner;
            &&& 0 <= t < n
            &&& 0 <= k < ids_of(names, ts, t).len()
            &&& ids_of(names, ts, t)[k] == e
        }),
    decreases n,
{
    let before = links_upto(names, ts, n - 1);
    if e < before.len() {
        let k = lemma_edge_place(names, ts, n - 1, e);
        assert(links_upto(names, ts, n)[e] == before[e]);
        k
    } else {
        assert(links_upto(names, ts, n)[e] == links_of(names, ts[n - 1], n - 1)[e - before.len()]);
        e - before.len()
    }
}

/// Every edge is recorded on the transition that it belongs to, and on no
/// other.
pub proof fn lemma_edge_recorded(states: Seq<State>, ts: Seq<Transition>, e: int)
    requires
        0 <= e < initial(states, ts).graph.links.len(),
    ensures
        ({
            let g = initial(states, ts).graph;
            &&& 0 <= g.links[e].owner < g.edges.len()
            &&& g.edges[g.links[e].owner].ids.contains(e)
            &&& forall|t: int|
                0 <= t < g.edges.len() && (#[trigger] g.edges[t]).ids.contains(e) ==> t
                    == g.links[e].owner
        }),
{
    let g = initial(states, ts).graph;
    let names = names_of(states);
    let k = lemma_edge_place(names, ts, ts.len() as int, e);
    assert(g.edges[g.links[e].owner].ids[k] == e);
    assert forall|t: int| 0 <= t < g.edges.len() && (#[trigger] g.edges[t]).ids.contains(
        e,
    ) implies t == g.links[e].owner by {
        let j = g.edges[t].ids.index_of(e);
        lemma_recorded_ids(states, ts, t, j);
    }
}

/// The edges listed as leaving a state are edges, and do leave it.
pub proof fn lemma_leaving_sound(g: GraphView, s: int, n: int, p: int)
    requires
        0 <= n <= g.links.len(),
        0 <= p < g.leaving(s, n).len(),
    ensures
        0 <= g.leaving(s, n)[p] < n,
        g.links[g.leaving(s, n)[p]].from == s,
    decreases n,
{
    if n > 0 {
        if p < g.leaving(s, n - 1).len() {
            lemma_leaving_sound(g, s, n - 1, p);
        }
    }
}

/// Every edge that leaves a state is listed as leaving it.
pub proof fn lemma_leaving_complete(g: GraphView, s: int, n: int, e: int)
    requires
        0 <= e < n <= g.links.len(),
        g.links[e].from == s,
    ensures
        g.leaving(s, n).contains(e),
    decreases n,
{
    let now = g.leaving(s, n);
    if e < n - 1 {
        lemma_leaving_complete(g, s, n - 1, e);
        let before = g.leaving(s, n - 1);
        let p = before.index_of(e);
        assert(now[p] == e);
    } else {
        assert(now[now.len() - 1] == e);
    }
}

/// What is listed along some edges belongs to the transition of one of
/// them.
pub proof fn lemma_along_sound(g: GraphView, es: Seq<int>, k: int) -> (q: int)
    requires
        0 <= k < g.along(es).len(),
    ensures
        0 <= q < es.len(),
        g.along(es)[k].0 == g.links[es[q]].owner,
        0 <= g.along(es)[k].1 < g.edges[g.links[es[q]].owner].actions.len(),
    decreases es.len(),
{
    let head = es.drop_last();
    let before = g.along(head);
    if k < before.len() {
        let q = lemma_along_sound(g, head, k);
        assert(es[q] == head[q]);
        q
    } else {
        assert(g.along(es)[k] == g.batch(g.links[es.last()].owner)[k - before.len()]);
        es.len() - 1
    }
}

/// Every action of the transition of an edge is listed along the edges.
pub proof fn lemma_along_complete(g: GraphView, es: Seq<int>, q: int, j: int)
    requires
        0 <= q < es.len(),
        0 <= j < g.edges[g.links[es[q]].owner].actions.len(),
    ensures
        g.along(es).contains((g.links[es[q]].owner, j)),
    decreases es.len(),
{
    let head = es.drop_last();
    let before = g.along(head);
    let now = g.along(es);
    let want = (g.links[es[q]].owner, j);
    if q < head.len() {
        assert(head[q] == es[q]);
        lemma_along_complete(g, head, q, j);
        let k = before.index_of(want);
        assert(now[k] == before[k]);
    } else {
        assert(g.batch(want.0)[j] == want);
        assert(now[before.len() + j] == want);
    }
}

/// There are as many actions listed of the first `n` transitions as these
/// have.
pub proof fn lemma_every_len(g: GraphView, n: int)
    requires
        0 <= n <= g.edges.len(),
    ensures
        g.every(n).len() == action_total(g, n),
    decreases n,
{
    if n > 0 {
        lemma_every_len(g, n - 1);
    }
}

/// Every action of the first `n` transitions is listed of them.
pub proof fn lemma_every_complete(g: GraphView, n: int, t: int, j: int)
    requires
        0 <= t < n <= g.edges.len(),
        0 <= j < g.edges[t].actions.len(),
    ensures
        g.every(n).contains((t, j)),
    decreases n,
{
    let before = g.every(n - 1);
    let now = g.every(n);
    if t < n - 1 {
        lemma_every_complete(g, n - 1, t, j);
        let k = before.index_of((t, j));
        assert(now[k] == before[k]);
    } else {
        assert(g.batch(t)[j] == (t, j));
        assert(now[before.len() + j] == (t, j));
    }
}

/// While no state is known, every action of every transition counts, once.
pub proof fn lemma_unknown_lists_all(g: GraphView)
    ensures
        g.listed(None).len() == action_total(g, g.edges.len() as int),
{
    lemma_every_len(g, g.edges.len() as int);
}

/// In a known state only actions of transitions that leave it count: each
/// belongs to a transition that names the state among those it leaves, or
/// names none.
pub proof fn lemma_listed_leave_current(states: Seq<State>, ts: Seq<Transition>, s: int, k: int)
    requires
        all_resolvable(names_of(states), ts),
        0 <= k < initial(states, ts).graph.listed(Some(s)).len(),
    ensures
        ({
            let t = initial(states, ts).graph.listed(Some(s))[k].0;
            &&& 0 <= t < ts.len()
            &&& ts[t].from@.len() == 0 || exists|i: int|
                0 <= i < ts[t].from@.len() && resolve(names_of(states), #[trigger] ts[t].from@[i]@)
                    == Some(s)
        }),
{
    let g = initial(states, ts).graph;
    let names = names_of(states);
    let es = g.leaving(s, g.links.len() as int);
    let q = lemma_along_sound(g, es, k);
    lemma_leaving_sound(g, s, g.links.len() as int, q);
    let e = es[q];
    lemma_link_origin(names, ts, ts.len() as int, e);
    let t = g.links[e].owner;
    if ts[t].from@.len() > 0 {
        let i = sources(names, ts[t]).index_of(s);
        assert(sources(names, ts[t])[i] == s);
        assert(resolve(names, ts[t].from@[i]@) is Some);
    }
}

/// The actions of a transition that names no state it leaves count in
/// every state but its own target, and while no state is known.
pub proof fn lemma_wildcard_listed(
    states: Seq<State>,
    ts: Seq<Transition>,
    t: int,
    j: int,
    current: Option<int>,
)
    requires
        all_resolvable(names_of(states), ts),
        0 <= t < ts.len(),
        ts[t].from@.len() == 0,
        0 <= j < ts[t].actions@.len(),
        current matches Some(s) ==> 0 <= s < states.len() && Some(s) != target(
            names_of(states),
            ts[t],
        ),
    ensures
        initial(states, ts).graph.listed(current).contains((t, j)),
{
    let g = initial(states, ts).graph;
    let names = names_of(states);
    match current {
        None => {
            lemma_every_complete(g, g.edges.len() as int, t, j);
        },
        Some(s) => {
            assert(resolvable(names, ts[t]));
            lemma_resolve(names, ts[t].to@);
            let to = target(names, ts[t])->0;
            let rest = others(names.len(), to);
            if s < to {
                assert(rest[s] == s);
            } else {
                assert(rest[s - 1] == s);
            }
            assert(sources(names, ts[t]).contains(s));
            let e = lemma_link_exists(names, ts, ts.len() as int, t, s);
            let es = g.leaving(s, g.links.len() as int);
            lemma_leaving_complete(g, s, g.links.len() as int, e);
            let q = es.index_of(e);
            lemma_along_complete(g, es, q, j);
        },
    }
}

/// At most one action is the first to match a line.
pub proof fn lemma_one_hit(m: MachineView, line: Seq<char>, k: int, h: int)
    requires
        m.hits(line, k),
        m.hits(line, h),
    ensures
        k == h,
{
    if k < h {
        assert(!value_matches(m.graph.value(m.listed()[k]), line));
    } else if h < k {
        assert(!value_matches(m.graph.value(m.listed()[h]), line));
    }
}

} // verus!
