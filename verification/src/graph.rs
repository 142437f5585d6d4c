//! The dependency graph and the order in which crates can be published.

use petgraph::graph::{DiGraph, Graph, NodeIndex};
use vstd::prelude::*;
use vstd::string::*;

use crate::discover::{DepSection, Ecosystem};
use crate::group;
use crate::text;
use crate::text_map::TextMap;

verus! {

broadcast use text::lemma_texts_push;

// ── What is believed of petgraph ──

/// petgraph's marker for directed graphs.
#[verifier::external_type_specification]
#[verifier::external_body]
pub struct ExDirected(petgraph::Directed);

/// petgraph's graph.
#[verifier::external_type_specification]
#[verifier::external_body]
#[verifier::reject_recursive_types(N)]
#[verifier::reject_recursive_types(E)]
#[verifier::reject_recursive_types(Ty)]
#[verifier::reject_recursive_types(Ix)]
pub struct ExGraph<N, E, Ty, Ix>(Graph<N, E, Ty, Ix>);

/// The weights of a graph's nodes, by index.
pub uninterp spec fn graph_nodes(g: DiGraph<String, ()>) -> Seq<Seq<char>>;

/// The edges of a graph, each from the first index to the second, in the order they were added.
pub uninterp spec fn graph_edges(g: DiGraph<String, ()>) -> Seq<(int, int)>;

/// The targets of the edges that start at `a`.
pub open spec fn targets(edges: Seq<(int, int)>, a: int) -> Seq<int>
    decreases edges.len(),
{
    if edges.len() == 0 {
        Seq::empty()
    } else if edges.last().0 == a {
        targets(edges.drop_last(), a).push(edges.last().1)
    } else {
        targets(edges.drop_last(), a)
    }
}

/// Whether each step of `w` is an edge.
pub open spec fn is_walk(edges: Seq<(int, int)>, w: Seq<int>) -> bool {
    w.len() >= 2 && forall|i: int|
        0 <= i < w.len() - 1 ==> #[trigger] edges.contains((w[i], w[i + 1]))
}

/// Whether a walk leads from `a` back to `a`.
pub open spec fn on_cycle(edges: Seq<(int, int)>, a: int) -> bool {
    exists|w: Seq<int>| #[trigger] is_walk(edges, w) && w[0] == a && w.last() == a
}

/// Whether `v` stands in `order`.
pub open spec fn placed(order: Seq<usize>, v: int) -> bool {
    exists|i: int| 0 <= i < order.len() && #[trigger] order[i] == v
}

/// Whether `order` holds each of `0..n` once, each edge leading forward.
pub open spec fn is_topological(edges: Seq<(int, int)>, n: int, order: Seq<usize>) -> bool {
    &&& order.len() == n
    &&& forall|i: int| 0 <= i < n ==> (#[trigger] order[i]) < n
    &&& forall|i: int, j: int| 0 <= i < j < n ==> #[trigger] order[i] != #[trigger] order[j]
    &&& forall|v: int| 0 <= v < n ==> #[trigger] placed(order, v)
    &&& forall|i: int, j: int|
        0 <= i < n && 0 <= j < n && #[trigger] edges.contains((order[i] as int, order[j] as int))
            ==> i < j
}

/// `Graph::new`: no nodes and no edges.
#[verifier::external_body]
fn empty_graph() -> (g: DiGraph<String, ()>)
    ensures
        graph_nodes(g) == Seq::<Seq<char>>::empty(),
        graph_edges(g) == Seq::<(int, int)>::empty(),
{
    DiGraph::new()
}

/// `Graph::add_node`: appends a node and returns its index, which is the number of nodes
/// before. It panics where the index type has no index left.
#[verifier::external_body]
fn add_node(g: &mut DiGraph<String, ()>, name: String) -> (r: usize)
    requires
        graph_nodes(*old(g)).len() < u32::MAX,
    ensures
        r == graph_nodes(*old(g)).len(),
        graph_nodes(*final(g)) == graph_nodes(*old(g)).push(name@),
        graph_edges(*final(g)) == graph_edges(*old(g)),
{
    g.add_node(name).index()
}

/// `Graph::contains_edge`: whether there is an edge from `a` to `b`.
#[verifier::external_body]
fn contains_edge(g: &DiGraph<String, ()>, a: usize, b: usize) -> (r: bool)
    requires
        a < graph_nodes(*g).len(),
        b < graph_nodes(*g).len(),
    ensures
        r == graph_edges(*g).contains((a as int, b as int)),
{
    g.contains_edge(NodeIndex::new(a), NodeIndex::new(b))
}

/// `Graph::add_edge`: appends an edge from `a` to `b`. It panics where a node is missing or
/// the index type has no index left.
#[verifier::external_body]
fn add_edge(g: &mut DiGraph<String, ()>, a: usize, b: usize)
    requires
        a < graph_nodes(*old(g)).len(),
        b < graph_nodes(*old(g)).len(),
        graph_edges(*old(g)).len() < u32::MAX,
    ensures
        graph_nodes(*final(g)) == graph_nodes(*old(g)),
        graph_edges(*final(g)) == graph_edges(*old(g)).push((a as int, b as int)),
{
    g.add_edge(NodeIndex::new(a), NodeIndex::new(b), ());
}

/// `Graph::neighbors`: the targets of the edges that start at `a`, the edge added last first.
#[verifier::external_body]
fn neighbors(g: &DiGraph<String, ()>, a: usize) -> (r: Vec<usize>)
    requires
        a < graph_nodes(*g).len(),
    ensures
        r@.map_values(|v: usize| v as int) == targets(graph_edges(*g), a as int).reverse(),
{
    g.neighbors(NodeIndex::new(a)).map(|n| n.index()).collect()
}

/// `petgraph::algo::toposort`: all nodes, each before the targets of its edges; or, where the
/// graph has a cycle, a node on one.
#[verifier::external_body]
fn toposort(g: &DiGraph<String, ()>) -> (r: Result<Vec<usize>, usize>)
    ensures
        match r {
            Ok(order) => is_topological(
                graph_edges(*g),
                graph_nodes(*g).len() as int,
                order@,
            ),
            Err(c) => c < graph_nodes(*g).len() && on_cycle(graph_edges(*g), c as int),
        },
{
    match petgraph::algo::toposort(g, None) {
        Ok(order) => Ok(order.into_iter().map(|n| n.index()).collect()),
        Err(cycle) => Err(cycle.node_id().index()),
    }
}

// ── The graph of an ecosystem ──

/// Whether a crate takes part in the graph.
pub open spec fn selected(eco: Ecosystem, publishable_only: bool, name: Seq<char>) -> bool {
    eco.crates.has(name) && (publishable_only ==> eco.crates@[name].publishable)
}

/// Whether a dependency matters: for the publish order, development and self dependencies
/// do not.
pub open spec fn matters(eco: Ecosystem, ordering: bool, i: int) -> bool {
    ordering ==> eco.deps@[i].section != DepSection::DevDependencies && eco.deps@[i].from_crate@
        != eco.deps@[i].to_crate@
}

/// Whether one of the first `n` dependencies that matter leads from `a` to `b`.
pub open spec fn linked_upto(
    eco: Ecosystem,
    ordering: bool,
    n: int,
    a: Seq<char>,
    b: Seq<char>,
) -> bool {
    exists|i: int|
        0 <= i < n && #[trigger] matters(eco, ordering, i) && eco.deps@[i].from_crate@ == a
            && eco.deps@[i].to_crate@ == b
}

pub open spec fn linked(eco: Ecosystem, ordering: bool, a: Seq<char>, b: Seq<char>) -> bool {
    linked_upto(eco, ordering, eco.deps@.len() as int, a, b)
}

/// Whether `a` must be published after `b`.
pub open spec fn needs(
    eco: Ecosystem,
    publishable_only: bool,
    a: Seq<char>,
    b: Seq<char>,
) -> bool {
    &&& selected(eco, publishable_only, a)
    &&& selected(eco, publishable_only, b)
    &&& linked(eco, true, a, b)
}

/// Whether `g` is the graph of the selected crates in the order of their names.
pub open spec fn graph_shows(
    eco: Ecosystem,
    publishable_only: bool,
    ordering: bool,
    nodes: Seq<Seq<char>>,
    edges: Seq<(int, int)>,
    n: int,
) -> bool {
    &&& text::strictly_ordered(nodes)
    &&& forall|x: Seq<char>| #[trigger] nodes.contains(x) <==> selected(eco, publishable_only, x)
    &&& edges.no_duplicates()
    &&& forall|i: int|
        0 <= i < edges.len() ==> 0 <= (#[trigger] edges[i]).0 < nodes.len() && 0 <= edges[i].1
            < nodes.len()
    &&& forall|a: int, b: int|
        0 <= a < nodes.len() && 0 <= b < nodes.len() ==> (#[trigger] edges.contains((a, b))
            <==> linked_upto(eco, ordering, n, nodes[a], nodes[b]))
}

/// Whether `indices` gives each node's index.
pub open spec fn indexes(nodes: Seq<Seq<char>>, indices: Map<Seq<char>, usize>) -> bool {
    &&& forall|x: Seq<char>| #[trigger] indices.dom().contains(x) <==> nodes.contains(x)
    &&& forall|i: int|
        0 <= i < nodes.len() ==> indices.dom().contains(#[trigger] nodes[i])
            && indices[nodes[i]] == i
}

/// Whether the ecosystem fits into a graph with 32-bit indices.
pub open spec fn fits(eco: Ecosystem) -> bool {
    eco.crates.keys().len() <= u32::MAX && eco.deps@.len() <= u32::MAX
}

fn graph_of(eco: &Ecosystem, publishable_only: bool, ordering: bool) -> (r: (
    DiGraph<String, ()>,
    TextMap<usize>,
))
    requires
        fits(*eco),
    ensures
        graph_shows(
            *eco,
            publishable_only,
            ordering,
            graph_nodes(r.0),
            graph_edges(r.0),
            eco.deps@.len() as int,
        ),
        indexes(graph_nodes(r.0), r.1@),
{
    let mut graph = empty_graph();
    let mut indices: TextMap<usize> = TextMap::new();
    let n: usize = eco.crates.len();
    let mut i: usize = 0;
    while i < n
        invariant
            i <= n,
            n == eco.crates.keys().len(),
            graph_nodes(graph).len() <= i,
            graph_edges(graph) == Seq::<(int, int)>::empty(),
            text::strictly_ordered(graph_nodes(graph)),
            forall|x: Seq<char>| #[trigger]
                graph_nodes(graph).contains(x) <==> selected(*eco, publishable_only, x)
                    && eco.crates.keys().take(i as int).contains(x),
            indexes(graph_nodes(graph), indices@),
        decreases n - i,
    {
        let name = eco.crates.key_at(i);
        let info = eco.crates.value_at(i);
        let ghost keys = eco.crates.keys();
        let ghost nodes = graph_nodes(graph);
        let ghost known = indices@;
        proof {
            assert(keys.take(i + 1) =~= keys.take(i as int).push(name@));
            assert forall|x: Seq<char>| #[trigger] keys.take(i + 1).contains(x) <==> keys.take(
                i as int,
            ).contains(x) || x == name@ by {
                if keys.take(i + 1).contains(x) {
                    let k = keys.take(i + 1).index_of(x);
                    if k < i {
                        assert(keys.take(i as int)[k] == x);
                    }
                }
                if keys.take(i as int).contains(x) {
                    let k = keys.take(i as int).index_of(x);
                    assert(keys.take(i + 1)[k] == x);
                }
                if x == name@ {
                    assert(keys.take(i + 1)[i as int] == x);
                }
            }
            assert(keys.contains(name@));
            assert forall|x: Seq<char>| keys.take(i as int).contains(x) implies text::precedes(
                x,
                name@,
            ) by {
                let k = keys.take(i as int).index_of(x);
                assert(keys[k] == x);
            }
        }
        if !publishable_only || info.publishable {
            let idx = add_node(&mut graph, name.clone());
            indices.insert(name.clone(), idx);
            proof {
                let now = graph_nodes(graph);
                assert(now =~= nodes.push(name@));
                assert forall|x: Seq<char>| #[trigger] now.contains(x) <==> nodes.contains(x) || x
                    == name@ by {
                    if nodes.contains(x) {
                        assert(now[nodes.index_of(x)] == x);
                    }
                    if x == name@ {
                        assert(now[nodes.len() as int] == x);
                    }
                    if now.contains(x) && now.index_of(x) < nodes.len() {
                        assert(nodes[now.index_of(x)] == x);
                    }
                }
                assert forall|a: int, b: int| 0 <= a < b < now.len() implies text::precedes(
                    #[trigger] now[a],
                    #[trigger] now[b],
                ) by {
                    assert(now[a] == nodes[a]);
                    assert(nodes.contains(nodes[a]));
                    if b < nodes.len() {
                        assert(now[b] == nodes[b]);
                    }
                }
                assert forall|k: int| 0 <= k < now.len() implies indices@.dom().contains(
                    #[trigger] now[k],
                ) && indices@[now[k]] == k by {
                    if k < nodes.len() {
                        assert(now[k] == nodes[k]);
                        assert(nodes.contains(nodes[k]));
                        text::lemma_precedes_irreflexive(name@);
                    }
                }
            }
        }
        i += 1;
    }
    assert(eco.crates.keys().take(n as int) =~= eco.crates.keys());
    let ghost nodes = graph_nodes(graph);
    assert(graph_shows(*eco, publishable_only, ordering, nodes, graph_edges(graph), 0));
    let mut d: usize = 0;
    while d < eco.deps.len()
        invariant
            d <= eco.deps.len() <= u32::MAX,
            graph_nodes(graph) == nodes,
            graph_edges(graph).len() <= d,
            graph_shows(*eco, publishable_only, ordering, nodes, graph_edges(graph), d as int),
            indexes(nodes, indices@),
        decreases eco.deps.len() - d,
    {
        let dep = &eco.deps[d];
        let ghost edges = graph_edges(graph);
        let skip = ordering && (dep.section == DepSection::DevDependencies || text::same(
            dep.from_crate.as_str(),
            dep.to_crate.as_str(),
        ));
        assert(skip == !matters(*eco, ordering, d as int));
        assert forall|a: Seq<char>, b: Seq<char>| #[trigger]
            linked_upto(*eco, ordering, d + 1, a, b) <==> linked_upto(
                *eco,
                ordering,
                d as int,
                a,
                b,
            ) || (!skip && dep.from_crate@ == a && dep.to_crate@ == b) by {
            if linked_upto(*eco, ordering, d as int, a, b) {
                let k = choose|k: int|
                    0 <= k < d && #[trigger] matters(*eco, ordering, k) && eco.deps@[k].from_crate@
                        == a && eco.deps@[k].to_crate@ == b;
                assert(matters(*eco, ordering, k));
            }
        }
        if !skip {
            if let (Some(from), Some(to)) = (
                indices.get(dep.from_crate.as_str()),
                indices.get(dep.to_crate.as_str()),
            ) {
                let from: usize = *from;
                let to: usize = *to;
                proof {
                    assert(nodes.contains(dep.from_crate@));
                    assert(nodes.contains(dep.to_crate@));
                    assert(nodes[nodes.index_of(dep.from_crate@)] == dep.from_crate@);
                    assert(nodes[nodes.index_of(dep.to_crate@)] == dep.to_crate@);
                    assert(nodes[from as int] == dep.from_crate@);
                    assert(nodes[to as int] == dep.to_crate@);
                }
                if !contains_edge(&graph, from, to) {
                    add_edge(&mut graph, from, to);
                    proof {
                        let e = (from as int, to as int);
                        let now = graph_edges(graph);
                        group::lemma_push_contains(edges, e);
                    }
                }
                proof {
                    assert forall|a: int, b: int|
                        0 <= a < nodes.len() && 0 <= b < nodes.len() implies (
                    #[trigger] graph_edges(graph).contains((a, b)) <==> linked_upto(
                        *eco,
                        ordering,
                        d + 1,
                        nodes[a],
                        nodes[b],
                    )) by {
                        assert(edges.contains((a, b)) <==> linked_upto(
                            *eco,
                            ordering,
                            d as int,
                            nodes[a],
                            nodes[b],
                        ));
                        if nodes[a] == dep.from_crate@ && nodes[b] == dep.to_crate@ {
                            assert(indices@[nodes[a]] == a && indices@[nodes[b]] == b);
                        }
                    }
                }
            } else {
                proof {
                    assert forall|a: int, b: int|
                        0 <= a < nodes.len() && 0 <= b < nodes.len() implies (
                    #[trigger] edges.contains((a, b)) <==> linked_upto(
                        *eco,
                        ordering,
                        d + 1,
                        nodes[a],
                        nodes[b],
                    )) by {
                        assert(nodes.contains(nodes[a]) && nodes.contains(nodes[b]));
                    }
                }
            }
        }
        d += 1;
    }
    (graph, indices)
}

/// Build a dependency graph from the ecosystem.
/// Returns the graph and each crate's index in it.
pub fn build_graph(eco: &Ecosystem) -> (r: (DiGraph<String, ()>, TextMap<usize>))
    requires
        fits(*eco),
    ensures
        graph_shows(
            *eco,
            false,
            false,
            graph_nodes(r.0),
            graph_edges(r.0),
            eco.deps@.len() as int,
        ),
        indexes(graph_nodes(r.0), r.1@),
{
    graph_of(eco, false, false)
}

// ── The publish order ──

/// Whether `x` stands in level `k`.
pub open spec fn listed(levels: Seq<Vec<String>>, k: int, x: Seq<char>) -> bool {
    0 <= k < levels.len() && text::lists(levels[k]@, x)
}

/// Whether `x` stands in a level below `k`.
pub open spec fn listed_below(levels: Seq<Vec<String>>, k: int, x: Seq<char>) -> bool {
    exists|j: int| 0 <= j < k && #[trigger] listed(levels, j, x)
}

/// Whether `x` needs a crate of level `k`.
pub open spec fn leans_on(
    eco: Ecosystem,
    publishable_only: bool,
    levels: Seq<Vec<String>>,
    k: int,
    x: Seq<char>,
) -> bool {
    exists|y: Seq<char>| #[trigger] listed(levels, k, y) && needs(eco, publishable_only, x, y)
}

/// Whether the levels hold each selected crate once, as low as what it needs allows.
pub open spec fn is_publish_order(
    eco: Ecosystem,
    publishable_only: bool,
    levels: Seq<Vec<String>>,
) -> bool {
    &&& levels.len() > 0
    &&& forall|k: int|
        0 <= k < levels.len() ==> text::strictly_ordered(#[trigger] text::texts(levels[k]@))
    &&& forall|k: int| 0 < k < levels.len() ==> (#[trigger] levels[k])@.len() > 0
    &&& forall|x: Seq<char>| #[trigger]
        selected(eco, publishable_only, x) <==> listed_below(levels, levels.len() as int, x)
    &&& forall|j: int, k: int, x: Seq<char>| #[trigger]
        listed(levels, j, x) && #[trigger] listed(levels, k, x) ==> j == k
    &&& forall|k: int, x: Seq<char>, y: Seq<char>| #[trigger]
        listed(levels, k, x) && #[trigger] needs(eco, publishable_only, x, y) ==> listed_below(
            levels,
            k,
            y,
        )
    &&& forall|k: int, x: Seq<char>| #[trigger]
        listed(levels, k, x) && k > 0 ==> leans_on(eco, publishable_only, levels, k - 1, x)
}

/// Whether each step of `w` goes from a crate to one that it needs.
pub open spec fn is_chain(eco: Ecosystem, publishable_only: bool, w: Seq<Seq<char>>) -> bool {
    w.len() >= 2 && forall|i: int|
        0 <= i < w.len() - 1 ==> #[trigger] needs(eco, publishable_only, w[i], w[i + 1])
}

/// Whether a crate needs itself in one or more steps.
pub open spec fn circular(eco: Ecosystem, publishable_only: bool, x: Seq<char>) -> bool {
    exists|w: Seq<Seq<char>>| #[trigger]
        is_chain(eco, publishable_only, w) && w[0] == x && w.last() == x
}

/// The message for a crate that needs itself.
pub open spec fn cycle_message(x: Seq<char>) -> Seq<char> {
    "circular dependency detected involving '"@ + x + "'"@
}

/// Crates at the same level can be published in parallel: none of them needs another.
pub proof fn law_level_is_parallel(
    eco: Ecosystem,
    publishable_only: bool,
    levels: Seq<Vec<String>>,
    k: int,
    x: Seq<char>,
    y: Seq<char>,
)
    requires
        is_publish_order(eco, publishable_only, levels),
        listed(levels, k, x),
        listed(levels, k, y),
    ensures
        !needs(eco, publishable_only, x, y),
{
    if needs(eco, publishable_only, x, y) {
        assert(listed_below(levels, k, y));
    }
}

/// In a publish order whatever a crate depends on, other than for development, stands in a strictly
/// lower level than the crate.
pub proof fn law_dependencies_go_first(
    eco: Ecosystem,
    publishable_only: bool,
    levels: Seq<Vec<String>>,
    i: int,
)
    requires
        is_publish_order(eco, publishable_only, levels),
        0 <= i < eco.deps@.len(),
        eco.deps@[i].section == DepSection::Dependencies || eco.deps@[i].section
            == DepSection::BuildDependencies || eco.deps@[i].section
            == DepSection::WorkspaceDependencies,
        eco.deps@[i].from_crate@ != eco.deps@[i].to_crate@,
        eco.crates.has(eco.deps@[i].from_crate@),
        eco.crates.has(eco.deps@[i].to_crate@),
        publishable_only ==> eco.crates@[eco.deps@[i].from_crate@].publishable
            && eco.crates@[eco.deps@[i].to_crate@].publishable,
    ensures
        exists|j: int, k: int|
            0 <= j < k < levels.len() && #[trigger] text::lists(
                levels[j]@,
                eco.deps@[i].to_crate@,
            ) && #[trigger] text::lists(levels[k]@, eco.deps@[i].from_crate@),
        forall|j: int, k: int|
            0 <= j < levels.len() && 0 <= k < levels.len() && #[trigger] text::lists(
                levels[j]@,
                eco.deps@[i].to_crate@,
            ) && #[trigger] text::lists(levels[k]@, eco.deps@[i].from_crate@) ==> j < k,
{
    let a = eco.deps@[i].from_crate@;
    let b = eco.deps@[i].to_crate@;
    assert(matters(eco, true, i));
    assert(linked_upto(eco, true, eco.deps@.len() as int, a, b));
    assert(needs(eco, publishable_only, a, b));
    assert(selected(eco, publishable_only, a));
    let k = choose|k: int| 0 <= k < levels.len() && #[trigger] listed(levels, k, a);
    assert(listed_below(levels, k, b));
    let j = choose|j: int| 0 <= j < k && #[trigger] listed(levels, j, b);
    assert(text::lists(levels[j]@, b) && text::lists(levels[k]@, a));
    assert forall|j: int, k: int|
        0 <= j < levels.len() && 0 <= k < levels.len() && #[trigger] text::lists(levels[j]@, b)
            && #[trigger] text::lists(levels[k]@, a) implies j < k by {
        assert(listed(levels, k, a) && listed(levels, j, b));
        assert(listed_below(levels, k, b));
        let m = choose|m: int| 0 <= m < k && #[trigger] listed(levels, m, b);
        assert(listed(levels, m, b));
    }
}

/// A crate stands above the lowest level only where it depends, other than for development, on
/// another crate of the level below its own.
pub proof fn law_levels_are_tight(
    eco: Ecosystem,
    publishable_only: bool,
    levels: Seq<Vec<String>>,
    k: int,
    x: Seq<char>,
)
    requires
        is_publish_order(eco, publishable_only, levels),
        0 < k < levels.len(),
        text::lists(levels[k]@, x),
    ensures
        exists|i: int|
            0 <= i < eco.deps@.len() && (#[trigger] eco.deps@[i]).from_crate@ == x
                && eco.deps@[i].to_crate@ != x && eco.deps@[i].section
                != DepSection::DevDependencies && text::lists(
                levels[k - 1]@,
                eco.deps@[i].to_crate@,
            ),
{
    assert(listed(levels, k, x));
    let y = choose|y: Seq<char>| #[trigger]
        listed(levels, k - 1, y) && needs(eco, publishable_only, x, y);
    let i = choose|i: int|
        0 <= i < eco.deps@.len() && #[trigger] matters(eco, true, i) && eco.deps@[i].from_crate@
            == x && eco.deps@[i].to_crate@ == y;
    assert(eco.deps@[i].from_crate@ == x);
}

/// A publish order holds exactly the crates that are asked for, each in one level.
pub proof fn law_each_crate_once(
    eco: Ecosystem,
    publishable_only: bool,
    levels: Seq<Vec<String>>,
    x: Seq<char>,
)
    requires
        is_publish_order(eco, publishable_only, levels),
    ensures
        (exists|k: int| 0 <= k < levels.len() && text::lists((#[trigger] levels[k])@, x))
            <==> eco.crates.has(x) && (eco.crates@[x].publishable || !publishable_only),
        forall|j: int, k: int|
            0 <= j < levels.len() && 0 <= k < levels.len() && #[trigger] text::lists(levels[j]@, x)
                && #[trigger] text::lists(levels[k]@, x) ==> j == k,
{
    if exists|k: int| 0 <= k < levels.len() && text::lists((#[trigger] levels[k])@, x) {
        let k = choose|k: int| 0 <= k < levels.len() && text::lists((#[trigger] levels[k])@, x);
        assert(listed(levels, k, x));
        assert(listed_below(levels, levels.len() as int, x));
        assert(selected(eco, publishable_only, x));
    }
    if selected(eco, publishable_only, x) {
        let k = choose|k: int| 0 <= k < levels.len() && #[trigger] listed(levels, k, x);
        assert(text::lists(levels[k]@, x));
    }
    assert forall|j: int, k: int|
        0 <= j < levels.len() && 0 <= k < levels.len() && #[trigger] text::lists(levels[j]@, x)
            && #[trigger] text::lists(levels[k]@, x) implies j == k by {
        assert(listed(levels, j, x) && listed(levels, k, x));
    }
}

/// A crate that blocks a publish order stands on a chain of dependencies, none of them for
/// development, that leads from it back to it.
pub proof fn law_cycles_are_of_dependencies(
    eco: Ecosystem,
    publishable_only: bool,
    x: Seq<char>,
)
    requires
        circular(eco, publishable_only, x),
    ensures
        exists|w: Seq<Seq<char>>|
            #![trigger is_chain(eco, publishable_only, w)]
            w.len() > 2 && w[0] == x && w.last() == x && forall|s: int|
                0 <= s < w.len() - 1 ==> depends(eco, #[trigger] w[s], w[s + 1]),
{
    let w = choose|w: Seq<Seq<char>>| #[trigger]
        is_chain(eco, publishable_only, w) && w[0] == x && w.last() == x;
    assert forall|s: int| 0 <= s < w.len() - 1 implies depends(eco, #[trigger] w[s], w[s + 1]) by {
        assert(needs(eco, publishable_only, w[s], w[s + 1]));
        let i = choose|i: int|
            0 <= i < eco.deps@.len() && #[trigger] matters(eco, true, i) && eco.deps@[i].from_crate@
                == w[s] && eco.deps@[i].to_crate@ == w[s + 1];
        assert(eco.deps@[i].from_crate@ == w[s]);
    }
    assert(depends(eco, w[0], w[0int + 1]));
}

/// Whether a crate depends on another one, other than for development.
pub open spec fn depends(eco: Ecosystem, a: Seq<char>, b: Seq<char>) -> bool {
    exists|i: int|
        0 <= i < eco.deps@.len() && (#[trigger] eco.deps@[i]).from_crate@ == a
            && eco.deps@[i].to_crate@ == b && a != b && eco.deps@[i].section
            != DepSection::DevDependencies
}

/// The graph of all crates has an edge between two exactly where one declares the other as a
/// dependency, in whichever section.
pub proof fn law_edges_are_dependencies(
    eco: Ecosystem,
    nodes: Seq<Seq<char>>,
    edges: Seq<(int, int)>,
    a: int,
    b: int,
)
    requires
        graph_shows(eco, false, false, nodes, edges, eco.deps@.len() as int),
        0 <= a < nodes.len(),
        0 <= b < nodes.len(),
    ensures
        edges.contains((a, b)) <==> exists|i: int|
            0 <= i < eco.deps@.len() && (#[trigger] eco.deps@[i]).from_crate@ == nodes[a]
                && eco.deps@[i].to_crate@ == nodes[b],
{
    if edges.contains((a, b)) {
        let i = choose|i: int|
            0 <= i < eco.deps@.len() && #[trigger] matters(eco, false, i)
                && eco.deps@[i].from_crate@ == nodes[a] && eco.deps@[i].to_crate@ == nodes[b];
        assert(eco.deps@[i].from_crate@ == nodes[a]);
    }
    if exists|i: int|
        0 <= i < eco.deps@.len() && (#[trigger] eco.deps@[i]).from_crate@ == nodes[a]
            && eco.deps@[i].to_crate@ == nodes[b] {
        let i = choose|i: int|
            0 <= i < eco.deps@.len() && (#[trigger] eco.deps@[i]).from_crate@ == nodes[a]
                && eco.deps@[i].to_crate@ == nodes[b];
        assert(matters(eco, false, i));
        assert(linked_upto(eco, false, eco.deps@.len() as int, nodes[a], nodes[b]));
    }
}

/// Where a publish order exists, no crate needs itself.
pub proof fn law_ordered_is_acyclic(
    eco: Ecosystem,
    publishable_only: bool,
    levels: Seq<Vec<String>>,
    x: Seq<char>,
)
    requires
        is_publish_order(eco, publishable_only, levels),
    ensures
        !circular(eco, publishable_only, x),
{
    if circular(eco, publishable_only, x) {
        let w = choose|w: Seq<Seq<char>>| #[trigger]
            is_chain(eco, publishable_only, w) && w[0] == x && w.last() == x;
        assert(needs(eco, publishable_only, w[0], w[0int + 1]));
        assert(listed_below(levels, levels.len() as int, x));
        let k = choose|k: int| 0 <= k < levels.len() && #[trigger] listed(levels, k, x);
        let m = lemma_chain_descends(eco, publishable_only, levels, w, k, w.len() - 1);
        assert(listed(levels, m, x));
        assert(listed(levels, k, x));
    }
}

/// The level where a chain stands after `n` steps from level `k`.
proof fn lemma_chain_descends(
    eco: Ecosystem,
    publishable_only: bool,
    levels: Seq<Vec<String>>,
    w: Seq<Seq<char>>,
    k: int,
    n: int,
) -> (m: int)
    requires
        is_publish_order(eco, publishable_only, levels),
        is_chain(eco, publishable_only, w),
        listed(levels, k, w[0]),
        0 <= n < w.len(),
    ensures
        listed(levels, m, w[n]),
        n > 0 ==> m < k,
        n == 0 ==> m == k,
    decreases n,
{
    if n == 0 {
        k
    } else {
        let m = lemma_chain_descends(eco, publishable_only, levels, w, k, n - 1);
        assert(needs(eco, publishable_only, w[n - 1], w[n - 1 + 1]));
        assert(listed(levels, m, w[n - 1]));
        assert(listed_below(levels, m, w[n]));
        choose|j: int| 0 <= j < m && #[trigger] listed(levels, j, w[n])
    }
}

/// A cycle of the graph is a chain of crates.
proof fn lemma_cycle_is_circular(
    eco: Ecosystem,
    publishable_only: bool,
    nodes: Seq<Seq<char>>,
    edges: Seq<(int, int)>,
    c: int,
)
    requires
        graph_shows(eco, publishable_only, true, nodes, edges, eco.deps@.len() as int),
        0 <= c < nodes.len(),
        on_cycle(edges, c),
    ensures
        circular(eco, publishable_only, nodes[c]),
{
    let w = choose|w: Seq<int>| #[trigger] is_walk(edges, w) && w[0] == c && w.last() == c;
    let names = w.map_values(|v: int| nodes[v]);
    assert forall|i: int| 0 <= i < names.len() - 1 implies #[trigger] needs(
        eco,
        publishable_only,
        names[i],
        names[i + 1],
    ) by {
        assert(edges.contains((w[i], w[i + 1])));
        let k = edges.index_of((w[i], w[i + 1]));
        assert(edges[k] == (w[i], w[i + 1]));
        assert(nodes.contains(nodes[w[i]]) && nodes.contains(nodes[w[i + 1]]));
    }
    assert(is_chain(eco, publishable_only, names));
    assert(names[0] == nodes[c] && names.last() == nodes[c]);
}

proof fn lemma_targets(edges: Seq<(int, int)>, a: int)
    ensures
        forall|b: int| #[trigger] targets(edges, a).contains(b) <==> edges.contains((a, b)),
    decreases edges.len(),
{
    if edges.len() > 0 {
        let init = edges.drop_last();
        lemma_targets(init, a);
        assert(edges =~= init.push(edges.last()));
        group::lemma_push_contains(init, edges.last());
        group::lemma_push_contains(targets(init, a), edges.last().1);
    }
}

/// Whether the node's level is settled by the levels of its targets.
spec fn settled(edges: Seq<(int, int)>, levels: Seq<usize>, v: int) -> bool {
    &&& forall|t: int| #[trigger] edges.contains((v, t)) ==> levels[t] < levels[v]
    &&& levels[v] > 0 ==> exists|t: int| #[trigger]
        edges.contains((v, t)) && levels[t] == levels[v] - 1
}

/// The level of each node: one above the highest of its targets, or 0 where it has none.
fn node_levels(graph: &DiGraph<String, ()>, order: &Vec<usize>) -> (r: Vec<usize>)
    requires
        is_topological(graph_edges(*graph), graph_nodes(*graph).len() as int, order@),
        forall|i: int|
            0 <= i < graph_edges(*graph).len() ==> 0 <= (#[trigger] graph_edges(*graph)[i]).0
                < graph_nodes(*graph).len() && 0 <= graph_edges(*graph)[i].1 < graph_nodes(
                *graph,
            ).len(),
    ensures
        r.len() == graph_nodes(*graph).len(),
        forall|v: int|
            0 <= v < r.len() ==> (#[trigger] r@[v]) < r.len() && settled(
                graph_edges(*graph),
                r@,
                v,
            ),
{
    let n: usize = order.len();
    let ghost edges = graph_edges(*graph);
    let mut levels: Vec<usize> = Vec::new();
    let mut i: usize = 0;
    while i < n
        invariant
            i <= n,
            levels.len() == i,
        decreases n - i,
    {
        levels.push(0);
        i += 1;
    }
    let mut p: usize = n;
    while p > 0
        invariant
            p <= n,
            levels.len() == n,
            forall|q: int|
                p <= q < n ==> levels@[(#[trigger] order@[q]) as int] <= n - 1 - q && settled(
                    edges,
                    levels@,
                    order@[q] as int,
                ),
        decreases p,
    {
        let at: usize = p - 1;
        let node: usize = order[at];
        assert(order@[at as int] == node);
        let deps = neighbors(graph, node);
        let ghost ts = targets(edges, node as int);
        proof {
            lemma_targets(edges, node as int);
            let mapped = deps@.map_values(|v: usize| v as int);
            assert(mapped == ts.reverse());
            assert(mapped.len() == deps@.len() && mapped.len() == ts.len());
            assert forall|k: int| 0 <= k < deps.len() implies edges.contains(
                (node as int, (#[trigger] deps@[k]) as int),
            ) by {
                assert(mapped[k] == ts.reverse()[k]);
                assert(ts[ts.len() - 1 - k] == deps@[k]);
                assert(ts.contains(deps@[k] as int));
            }
            assert forall|t: int| #[trigger] edges.contains((node as int, t)) implies exists|k: int|
                0 <= k < deps.len() && #[trigger] deps@[k] == t by {
                assert(ts.contains(t));
                let k = ts.index_of(t);
                assert(ts.reverse()[ts.len() - 1 - k] == t);
                assert(mapped[ts.len() - 1 - k] == t);
                assert(deps@[ts.len() - 1 - k] == t);
            }
            assert forall|t: int| #[trigger] edges.contains((node as int, t)) implies 0 <= t < n
                && levels@[t] < n - p && t != node && exists|q: int|
                p <= q < n && #[trigger] order@[q] == t by {
                let e = edges.index_of((node as int, t));
                assert(edges[e] == (node as int, t));
                assert(placed(order@, t));
                let q = choose|q: int| 0 <= q < order@.len() && #[trigger] order@[q] == t;
                assert(edges.contains((order@[at as int] as int, order@[q] as int)));
                assert(at < q);
            }
        }
        let mut level: usize = 0;
        let mut k: usize = 0;
        while k < deps.len()
            invariant
                k <= deps.len(),
                level <= n - p,
                forall|j: int| 0 <= j < k ==> levels@[(#[trigger] deps@[j]) as int] < level,
                level > 0 ==> exists|j: int|
                    0 <= j < k && levels@[(#[trigger] deps@[j]) as int] == level - 1,
            decreases deps.len() - k,
        {
            let dep: usize = deps[k];
            assert(edges.contains((node as int, deps@[k as int] as int)));
            if levels[dep] >= level {
                level = levels[dep] + 1;
                assert(levels@[deps@[k as int] as int] == level - 1);
            }
            k += 1;
        }
        let ghost before = levels@;
        levels.set(node, level);
        proof {
            assert forall|t: int| #[trigger] edges.contains((node as int, t)) implies levels@[t]
                < level by {
                let j = choose|j: int| 0 <= j < deps.len() && #[trigger] deps@[j] == t;
                assert(before[deps@[j] as int] < level);
            }
            if level > 0 {
                let j = choose|j: int|
                    0 <= j < deps.len() && before[(#[trigger] deps@[j]) as int] == level - 1;
                assert(edges.contains((node as int, deps@[j] as int)));
                assert(levels@[deps@[j] as int] == level - 1);
            }
            assert(settled(edges, levels@, node as int));
            assert forall|q: int| at <= q < n implies levels@[(#[trigger] order@[q]) as int] <= n
                - 1 - q && settled(edges, levels@, order@[q] as int) by {
                if q > at {
                    let v = order@[q] as int;
                    assert(order@[at as int] != order@[q]);
                    assert(settled(edges, before, v));
                    assert forall|t: int| #[trigger] edges.contains((v, t)) implies levels@[t]
                        < levels@[v] by {
                        lemma_target_later(edges, n as int, order@, q, t);
                        assert(before[t] < before[v]);
                        if t == node {
                            let z = choose|z: int| q < z < n && #[trigger] order@[z] == t;
                            assert(order@[at as int] != order@[z]);
                        }
                    }
                    if levels@[v] > 0 {
                        let t = choose|t: int| #[trigger]
                            edges.contains((v, t)) && before[t] == before[v] - 1;
                        lemma_target_later(edges, n as int, order@, q, t);
                        if t == node {
                            let z = choose|z: int| q < z < n && #[trigger] order@[z] == t;
                            assert(order@[at as int] != order@[z]);
                        }
                        assert(edges.contains((v, t)) && levels@[t] == levels@[v] - 1);
                    }
                }
            }
        }
        p = at;
    }
    proof {
        assert forall|v: int| 0 <= v < levels.len() implies (#[trigger] levels@[v]) < levels.len()
            && settled(edges, levels@, v) by {
            assert(placed(order@, v));
            let q = choose|q: int| 0 <= q < order@.len() && #[trigger] order@[q] == v;
            assert(levels@[order@[q] as int] <= n - 1 - q);
        }
    }
    levels
}

proof fn lemma_target_later(
    edges: Seq<(int, int)>,
    n: int,
    order: Seq<usize>,
    q: int,
    t: int,
)
    requires
        is_topological(edges, n, order),
        0 <= q < n,
        edges.contains((order[q] as int, t)),
        0 <= t < n,
    ensures
        exists|z: int| q < z < n && #[trigger] order[z] == t,
{
    assert(placed(order, t));
    let z = choose|z: int| 0 <= z < order.len() && #[trigger] order[z] == t;
    assert(edges.contains((order[q] as int, order[z] as int)));
}

/// Compute topological publish order.
/// Returns levels: crates at the same level can be published in parallel.
/// Level 0 = leaf crates (no internal deps), Level N = depends on level N-1.
pub fn publish_order(eco: &Ecosystem, publishable_only: bool) -> (r: Result<
    Vec<Vec<String>>,
    String,
>)
    requires
        fits(*eco),
    ensures
        match r {
            Ok(levels) => is_publish_order(*eco, publishable_only, levels@),
            Err(m) => exists|x: Seq<char>| #[trigger]
                circular(*eco, publishable_only, x) && m@ == cycle_message(x),
        },
        r is Err <==> exists|x: Seq<char>| #[trigger] circular(*eco, publishable_only, x),
{
    let (graph, _) = graph_of(eco, publishable_only, true);
    let ghost nodes = graph_nodes(graph);
    let ghost edges = graph_edges(graph);
    let order = match toposort(&graph) {
        Ok(order) => order,
        Err(c) => {
            proof {
                lemma_cycle_is_circular(*eco, publishable_only, nodes, edges, c as int);
            }
            let mut message = "circular dependency detected involving '".to_string();
            let name = node_name(&graph, c);
            message.append(name.as_str());
            message.append("'");
            assert(message@ == cycle_message(nodes[c as int]));
            return Err(message);
        },
    };
    let node_level = node_levels(&graph, &order);
    let n: usize = node_level.len();
    let mut max: usize = 0;
    let mut i: usize = 0;
    while i < n
        invariant
            i <= n,
            n == node_level.len() == nodes.len(),
            forall|v: int| 0 <= v < i ==> (#[trigger] node_level@[v]) <= max,
            i > 0 ==> exists|v: int| 0 <= v < i && (#[trigger] node_level@[v]) == max,
            i == 0 ==> max == 0,
            n > 0 ==> max < n,
            n == 0 ==> max == 0,
        decreases n - i,
    {
        if node_level[i] > max {
            max = node_level[i];
        }
        assert(node_level@[i as int] <= max);
        i += 1;
    }
    let mut levels: Vec<Vec<String>> = Vec::new();
    let mut k: usize = 0;
    while k <= max
        invariant
            k <= max + 1,
            max < n || max == 0,
            levels.len() == k,
            forall|j: int| 0 <= j < k ==> (#[trigger] levels@[j])@.len() == 0,
        decreases max + 1 - k,
    {
        levels.push(Vec::new());
        k += 1;
    }
    let mut v: usize = 0;
    while v < n
        invariant
            v <= n,
            n == node_level.len() == nodes.len(),
            levels.len() == max + 1,
            graph_nodes(graph) == nodes,
            forall|u: int| 0 <= u < n ==> (#[trigger] node_level@[u]) <= max,
            forall|j: int|
                0 <= j <= max ==> (#[trigger] text::texts(levels@[j]@)) == members(
                    nodes,
                    node_level@,
                    v as nat,
                    j,
                ),
        decreases n - v,
    {
        let at: usize = node_level[v];
        let name = node_name(&graph, v);
        let ghost before = levels@;
        assert(node_level@[v as int] <= max);
        let mut level: Vec<String> = Vec::new();
        std::mem::swap(&mut level, &mut levels[at]);
        let ghost old_level = level@;
        level.push(name);
        levels.set(at, level);
        assert forall|j: int| 0 <= j <= max implies (#[trigger] text::texts(levels@[j]@))
            == members(nodes, node_level@, (v + 1) as nat, j) by {
            assert(text::texts(before[j]@) == members(nodes, node_level@, v as nat, j));
            if j == at {
                assert(levels@[j]@ == old_level.push(name));
            } else {
                assert(levels@[j] == before[j]);
            }
        }
        v += 1;
    }
    proof {
        assert forall|j: int, x: Seq<char>| #[trigger] listed(levels@, j, x) <==> 0 <= j <= max
            && exists|u: int| 0 <= u < n && node_level@[u] == j && #[trigger] nodes[u] == x by {
            if 0 <= j <= max {
                text::lemma_lists_texts(levels@[j]@, x);
                lemma_members(nodes, node_level@, n as nat, j);
                assert(text::texts(levels@[j]@) == members(nodes, node_level@, n as nat, j));
            }
        }
        lemma_levels_order(*eco, publishable_only, nodes, edges, node_level@, levels@, max as int);
        assert forall|x: Seq<char>| !(#[trigger] circular(*eco, publishable_only, x)) by {
            law_ordered_is_acyclic(*eco, publishable_only, levels@, x);
        }
    }
    Ok(levels)
}

/// Indexing a `Graph` by a node: the weight of that node.
#[verifier::external_body]
fn node_name(g: &DiGraph<String, ()>, a: usize) -> (r: String)
    requires
        a < graph_nodes(*g).len(),
    ensures
        r@ == graph_nodes(*g)[a as int],
{
    g[NodeIndex::new(a)].clone()
}

/// The names of the first `n` nodes that stand at level `k`, in order.
spec fn members(nodes: Seq<Seq<char>>, levels: Seq<usize>, n: nat, k: int) -> Seq<Seq<char>>
    decreases n,
{
    if n == 0 {
        Seq::empty()
    } else if levels[n - 1] == k {
        members(nodes, levels, (n - 1) as nat, k).push(nodes[n - 1])
    } else {
        members(nodes, levels, (n - 1) as nat, k)
    }
}

proof fn lemma_members(nodes: Seq<Seq<char>>, levels: Seq<usize>, n: nat, k: int)
    requires
        n <= nodes.len(),
        n <= levels.len(),
    ensures
        forall|x: Seq<char>| #[trigger]
            members(nodes, levels, n, k).contains(x) <==> exists|u: int|
                0 <= u < n && levels[u] == k && #[trigger] nodes[u] == x,
        text::strictly_ordered(nodes) ==> text::strictly_ordered(members(nodes, levels, n, k)),
    decreases n,
{
    if n > 0 {
        let m = (n - 1) as nat;
        lemma_members(nodes, levels, m, k);
        let before = members(nodes, levels, m, k);
        group::lemma_push_contains(before, nodes[m as int]);
        if levels[n - 1] == k && text::strictly_ordered(nodes) {
            let now = before.push(nodes[m as int]);
            assert forall|i: int, j: int| 0 <= i < j < now.len() implies text::precedes(
                #[trigger] now[i],
                #[trigger] now[j],
            ) by {
                assert(now[i] == before[i]);
                assert(before.contains(before[i]));
                if j < before.len() {
                    assert(now[j] == before[j]);
                }
            }
        }
    }
}

proof fn lemma_levels_order(
    eco: Ecosystem,
    publishable_only: bool,
    nodes: Seq<Seq<char>>,
    edges: Seq<(int, int)>,
    node_level: Seq<usize>,
    levels: Seq<Vec<String>>,
    max: int,
)
    requires
        graph_shows(eco, publishable_only, true, nodes, edges, eco.deps@.len() as int),
        node_level.len() == nodes.len(),
        levels.len() == max + 1,
        max >= 0,
        nodes.len() > 0 ==> exists|v: int| 0 <= v < nodes.len() && (#[trigger] node_level[v]) == max,
        nodes.len() == 0 ==> max == 0,
        forall|v: int|
            0 <= v < nodes.len() ==> (#[trigger] node_level[v]) <= max && settled(
                edges,
                node_level,
                v,
            ),
        forall|j: int|
            0 <= j <= max ==> (#[trigger] text::texts(levels[j]@)) == members(
                nodes,
                node_level,
                nodes.len(),
                j,
            ),
        forall|j: int, x: Seq<char>| #[trigger]
            listed(levels, j, x) <==> 0 <= j <= max && exists|u: int|
                0 <= u < nodes.len() && node_level[u] == j && #[trigger] nodes[u] == x,
    ensures
        is_publish_order(eco, publishable_only, levels),
{
    let only = publishable_only;
    assert forall|k: int| 0 <= k < levels.len() implies text::strictly_ordered(
        #[trigger] text::texts(levels[k]@),
    ) by {
        lemma_members(nodes, node_level, nodes.len(), k);
    }
    assert forall|x: Seq<char>| #[trigger] selected(eco, only, x) <==> listed_below(
        levels,
        levels.len() as int,
        x,
    ) by {
        if selected(eco, only, x) {
            assert(nodes.contains(x));
            let u = nodes.index_of(x);
            assert(nodes[u] == x);
            assert(node_level[u] <= max);
            assert(listed(levels, node_level[u] as int, x));
        }
        if listed_below(levels, levels.len() as int, x) {
            let j = choose|j: int| 0 <= j < levels.len() && #[trigger] listed(levels, j, x);
            let u = choose|u: int|
                0 <= u < nodes.len() && node_level[u] == j && #[trigger] nodes[u] == x;
            assert(nodes.contains(x));
        }
    }
    assert forall|j: int, k: int, x: Seq<char>| #[trigger]
        listed(levels, j, x) && #[trigger] listed(levels, k, x) implies j == k by {
        let u = choose|u: int|
            0 <= u < nodes.len() && node_level[u] == j && #[trigger] nodes[u] == x;
        let v = choose|v: int|
            0 <= v < nodes.len() && node_level[v] == k && #[trigger] nodes[v] == x;
        crate::text_map::lemma_strict_unique(nodes, u, v);
    }
    assert forall|k: int, x: Seq<char>, y: Seq<char>| #[trigger]
        listed(levels, k, x) && #[trigger] needs(eco, only, x, y) implies listed_below(
        levels,
        k,
        y,
    ) by {
        let u = choose|u: int|
            0 <= u < nodes.len() && node_level[u] == k && #[trigger] nodes[u] == x;
        assert(nodes.contains(y));
        let v = nodes.index_of(y);
        assert(nodes[v] == y);
        assert(edges.contains((u, v)));
        assert(node_level[u] <= max && settled(edges, node_level, u));
        assert(node_level[v] < node_level[u]);
        assert(listed(levels, node_level[v] as int, y));
    }
    assert forall|k: int, x: Seq<char>| #[trigger] listed(levels, k, x) && k > 0 implies leans_on(
        eco,
        only,
        levels,
        k - 1,
        x,
    ) by {
        let u = choose|u: int|
            0 <= u < nodes.len() && node_level[u] == k && #[trigger] nodes[u] == x;
        assert(node_level[u] <= max && settled(edges, node_level, u));
        let t = choose|t: int| #[trigger]
            edges.contains((u, t)) && node_level[t] == node_level[u] - 1;
        let e = edges.index_of((u, t));
        assert(edges[e] == (u, t));
        assert(nodes[t] == nodes[t]);
        assert(listed(levels, k - 1, nodes[t]));
        assert(nodes.contains(nodes[t]) && nodes.contains(nodes[u]));
        assert(needs(eco, only, x, nodes[t]));
    }
    assert forall|k: int| 0 < k < levels.len() implies (#[trigger] levels[k])@.len() > 0 by {
        let v = choose|v: int| 0 <= v < nodes.len() && (#[trigger] node_level[v]) == max;
        assert(nodes[v] == nodes[v]);
        assert(listed(levels, max, nodes[v]));
        lemma_levels_filled(eco, only, levels, max, nodes[v], k);
    }
}

proof fn lemma_levels_filled(
    eco: Ecosystem,
    only: bool,
    levels: Seq<Vec<String>>,
    top: int,
    x: Seq<char>,
    k: int,
)
    requires
        listed(levels, top, x),
        0 < k <= top,
        forall|k: int, x: Seq<char>| #[trigger]
            listed(levels, k, x) && k > 0 ==> leans_on(eco, only, levels, k - 1, x),
    ensures
        levels[k]@.len() > 0,
    decreases top - k,
{
    if k < top {
        assert(leans_on(eco, only, levels, top - 1, x));
        let y = choose|y: Seq<char>| #[trigger]
            listed(levels, top - 1, y) && needs(eco, only, x, y);
        lemma_levels_filled(eco, only, levels, top - 1, y, k);
    }
}

/// The index of a crate is the place of its node, and every node has one.
pub proof fn law_indices_find_nodes(
    nodes: Seq<Seq<char>>,
    indices: Map<Seq<char>, usize>,
    i: int,
    name: Seq<char>,
)
    requires
        indexes(nodes, indices),
    ensures
        0 <= i < nodes.len() ==> indices.dom().contains(nodes[i]) && indices[nodes[i]] == i,
        indices.dom().contains(name) ==> indices[name] < nodes.len() && nodes[indices[name] as int]
            == name,
{
    if indices.dom().contains(name) {
        let k = nodes.index_of(name);
        assert(indices[nodes[k]] == k);
    }
}

} // verus!
