//! Exact-match queries over node tables and edge lists, and a store of nodes
//! and edges that answers them.

use crate::database::edge::{
    edge_between, edge_ref_views, edge_views, find_edge_between, Edge, EdgeView,
};
use crate::database::node::{keyed_by_id, node_views, Node, NodeView};
use crate::text::same_text;
use std::collections::HashMap;
use vstd::std_specs::hash::spec_hash_map_iter;
use vstd::std_specs::iter::IteratorSpec;
use vstd::prelude::*;

verus! {

/// The keys of the table under which a node stores exactly `value` under
/// `key`. Where every node is kept under its own identity, these are the
/// identities of those nodes.
pub open spec fn matching_nodes(
    nodes: Map<u32, NodeView>,
    key: Seq<char>,
    value: Seq<char>,
) -> Set<u32> {
    Set::new(|id: u32| nodes.contains_key(id) && nodes[id].has_property(key, value))
}

/// The edges that store exactly `value` under `key`, in the order of the list.
pub open spec fn matching_edges(
    edges: Seq<EdgeView>,
    key: Seq<char>,
    value: Seq<char>,
) -> Seq<EdgeView> {
    edges.filter(|e: EdgeView| e.has_property(key, value))
}

/// No edge is found in a list without edges.
pub proof fn lemma_matching_edges_empty(key: Seq<char>, value: Seq<char>)
    ensures
        matching_edges(Seq::empty(), key, value) == Seq::<EdgeView>::empty(),
{
    reveal(Seq::filter);
}

/// An appended edge is found behind the edges found before it, and only
/// where it stores `value` under `key`.
pub proof fn lemma_matching_edges_push(
    edges: Seq<EdgeView>,
    edge: EdgeView,
    key: Seq<char>,
    value: Seq<char>,
)
    ensures
        matching_edges(edges.push(edge), key, value) == if edge.has_property(key, value) {
            matching_edges(edges, key, value).push(edge)
        } else {
            matching_edges(edges, key, value)
        },
{
    edges.lemma_filter_push(edge, |e: EdgeView| e.has_property(key, value));
}

/// A node that takes the place kept for its identity is found by a query
/// exactly where it stores `value` under `key`; what the query finds under
/// every other identity is as before.
pub proof fn lemma_matching_nodes_after_add(
    nodes: Map<u32, NodeView>,
    node: NodeView,
    key: Seq<char>,
    value: Seq<char>,
)
    ensures
        matching_nodes(nodes.insert(node.id, node), key, value) == if node.has_property(
            key,
            value,
        ) {
            matching_nodes(nodes, key, value).insert(node.id)
        } else {
            matching_nodes(nodes, key, value).remove(node.id)
        },
{
    let after = matching_nodes(nodes.insert(node.id, node), key, value);
    let before = matching_nodes(nodes, key, value);
    if node.has_property(key, value) {
        assert(after =~= before.insert(node.id));
    } else {
        assert(after =~= before.remove(node.id));
    }
}

/// The identities of a list of borrowed nodes, in the same order.
pub open spec fn node_ids(nodes: Seq<&Node>) -> Seq<u32> {
    Seq::new(nodes.len(), |i: int| nodes[i].id)
}

/// Whether `node` stores exactly `value` under `key`.
pub fn node_has_property(node: &Node, key: &str, value: &str) -> (r: bool)
    ensures
        r == node@.has_property(key@, value@),
{
    match node.get_property(key) {
        Some(v) => same_text(v.as_str(), value),
        None => false,
    }
}

/// Whether `edge` stores exactly `value` under `key`.
pub fn edge_has_property(edge: &Edge, key: &str, value: &str) -> (r: bool)
    ensures
        r == edge@.has_property(key@, value@),
{
    match edge.get_property(key) {
        Some(v) => same_text(v.as_str(), value),
        None => false,
    }
}

/// `found` lists the nodes that the table keeps under the keys `keys`, and
/// `keys` holds, each once, the keys whose nodes store exactly `value` under
/// `key`.
pub open spec fn found_under(
    found: Seq<&Node>,
    keys: Seq<u32>,
    nodes: Map<u32, NodeView>,
    key: Seq<char>,
    value: Seq<char>,
) -> bool {
    &&& keys.len() == found.len()
    &&& keys.no_duplicates()
    &&& keys.to_set() == matching_nodes(nodes, key, value)
    &&& forall|i: int| 0 <= i < found.len() ==> (#[trigger] found[i])@ == nodes[keys[i]]
}

/// The nodes of `nodes` that store exactly `value` under `key`, each once, in
/// the order in which the table hands its nodes out. Where every node is kept
/// under its own identity, the keys of the nodes found are their identities.
pub fn nodes_with_property<'a>(nodes: &'a HashMap<u32, Node>, key: &str, value: &str) -> (r: Vec<
    &'a Node,
>)
    ensures
        exists|keys: Seq<u32>| found_under(r@, keys, node_views(nodes@), key@, value@),
        keyed_by_id(node_views(nodes@)) ==> found_under(
            r@,
            node_ids(r@),
            node_views(nodes@),
            key@,
            value@,
        ),
{
    let mut found: Vec<&Node> = Vec::new();
    let ghost all = spec_hash_map_iter(nodes).remaining();
    let ghost mut seen: int = 0;
    let ghost mut at: Seq<int> = Seq::empty();
    for pair in it: nodes.iter()
        invariant
            it.seq() == all,
            it.index() == seen,
            all.no_duplicates(),
            at.len() == found@.len(),
            forall|j: int|
                0 <= j < at.len() ==> 0 <= #[trigger] at[j] < seen && found@[j] == all[at[j]].1
                    && found@[j]@.has_property(key@, value@),
            forall|a: int, b: int| 0 <= a < b < at.len() ==> at[a] < at[b],
            forall|p: int|
                0 <= p < seen && (#[trigger] all[p]).1@.has_property(key@, value@) ==> exists|
                    j: int,
                | 0 <= j < at.len() && at[j] == p,
    {
        let node = pair.1;
        let ghost at_before = at;
        assert(pair == all[seen]);
        if node_has_property(node, key, value) {
            found.push(node);
            proof {
                at = at.push(seen);
            }
        }
        proof {
            assert forall|p: int|
                0 <= p < seen + 1 && (#[trigger] all[p]).1@.has_property(
                    key@,
                    value@,
                ) implies exists|j: int| 0 <= j < at.len() && at[j] == p by {
                if p < seen {
                    let j = choose|j: int| 0 <= j < at_before.len() && at_before[j] == p;
                    assert(at[j] == p);
                } else {
                    assert(at[at.len() - 1] == p);
                }
            }
            seen = seen + 1;
        }
    }
    assert(seen == all.len());
    proof {
        let views = node_views(nodes@);
        let keys = Seq::new(found@.len(), |j: int| *all[at[j]].0);
        assert forall|j: int| 0 <= j < found@.len() implies views.contains_key(
            #[trigger] keys[j],
        ) && views[keys[j]] == found@[j]@ by {
            assert(nodes@.contains_key(*all[at[j]].0));
        }
        assert forall|a: int, b: int| 0 <= a < b < keys.len() implies keys[a] != keys[b] by {
            if keys[a] == keys[b] {
                assert(*all[at[a]].1 == *all[at[b]].1);
                assert(all[at[a]] == all[at[b]]);
            }
        }
        assert forall|k: u32| keys.to_set().contains(k) <==> matching_nodes(
            views,
            key@,
            value@,
        ).contains(k) by {
            if keys.to_set().contains(k) {
                let j = choose|j: int| 0 <= j < keys.len() && keys[j] == k;
                assert(views[keys[j]] == found@[j]@);
            }
            if matching_nodes(views, key@, value@).contains(k) {
                assert(nodes@.contains_key(k));
                let p = choose|p: int| 0 <= p < all.len() && all[p] == (&k, &nodes@[k]);
                assert(all[p].1@.has_property(key@, value@));
                let j = choose|j: int| 0 <= j < at.len() && at[j] == p;
                assert(keys[j] == k);
            }
        }
        assert(keys.to_set() =~= matching_nodes(views, key@, value@));
        assert(found_under(found@, keys, views, key@, value@));
        if keyed_by_id(views) {
            assert forall|j: int| 0 <= j < keys.len() implies keys[j] == node_ids(found@)[j] by {
                assert(views[keys[j]].id == keys[j]);
            }
            assert(keys =~= node_ids(found@));
        }
    }
    found
}

/// The edges of `edges` that store exactly `value` under `key`, in the order
/// of the list.
pub fn edges_with_property<'a>(edges: &'a Vec<Edge>, key: &str, value: &str) -> (r: Vec<&'a Edge>)
    ensures
        edge_ref_views(r@) == matching_edges(edge_views(edges@), key@, value@),
{
    let mut found: Vec<&Edge> = Vec::new();
    let mut i: usize = 0;
    proof {
        lemma_matching_edges_empty(key@, value@);
        assert(edge_views(edges@).take(0) =~= Seq::empty());
        assert(edge_ref_views(found@) =~= Seq::empty());
    }
    while i < edges.len()
        invariant
            i <= edges@.len(),
            edge_ref_views(found@) == matching_edges(
                edge_views(edges@).take(i as int),
                key@,
                value@,
            ),
        decreases edges@.len() - i,
    {
        let ghost seen = edge_views(edges@).take(i as int);
        let ghost before = edge_ref_views(found@);
        let edge = &edges[i];
        proof {
            lemma_matching_edges_push(seen, edge@, key@, value@);
            assert(edge_views(edges@).take(i + 1) =~= seen.push(edge@));
        }
        if edge_has_property(edge, key, value) {
            found.push(edge);
            assert(edge_ref_views(found@) =~= before.push(edge@));
        }
        i += 1;
    }
    assert(edge_views(edges@).take(i as int) =~= edge_views(edges@));
    found
}

/// A store of nodes and edges that answers lookups by key and by property.
pub struct Database {
    nodes: HashMap<u32, Node>,
    edges: Vec<Edge>,
}

/// What a database holds, as plain values.
pub struct DatabaseView {
    pub nodes: Map<u32, NodeView>,
    pub edges: Seq<EdgeView>,
}

impl DatabaseView {
    /// A database that holds nothing.
    pub open spec fn empty() -> DatabaseView {
        DatabaseView { nodes: Map::empty(), edges: Seq::empty() }
    }

    /// The database after `node` took the place kept for its identity.
    pub open spec fn add_node(self, node: NodeView) -> DatabaseView {
        DatabaseView { nodes: self.nodes.insert(node.id, node), ..self }
    }

    /// The database after `edge` was appended.
    pub open spec fn add_edge(self, edge: EdgeView) -> DatabaseView {
        DatabaseView { edges: self.edges.push(edge), ..self }
    }

    /// The node stored under `id`, if any.
    pub open spec fn get_node(self, id: u32) -> Option<NodeView> {
        if self.nodes.contains_key(id) {
            Some(self.nodes[id])
        } else {
            None
        }
    }

    /// The earliest added edge that leads from `from` to `to`, if any.
    pub open spec fn get_edge(self, from: u32, to: u32) -> Option<EdgeView> {
        edge_between(self.edges, from, to)
    }
}

impl View for Database {
    type V = DatabaseView;

    closed spec fn view(&self) -> DatabaseView {
        DatabaseView { nodes: node_views(self.nodes@), edges: edge_views(self.edges@) }
    }
}

impl Database {
    #[verifier::type_invariant]
    spec fn nodes_keyed_by_id(&self) -> bool {
        keyed_by_id(node_views(self.nodes@))
    }

    /// A database that holds nothing.
    pub fn new() -> (r: Self)
        ensures
            r@ == DatabaseView::empty(),
    {
        let r = Database { nodes: HashMap::new(), edges: Vec::new() };
        assert(r@.nodes =~= Map::empty());
        assert(r@.edges =~= Seq::empty());
        r
    }

    /// Stores `node` under its identity, in place of any node stored there
    /// before.
    pub fn add_node(&mut self, node: Node)
        ensures
            final(self)@ == old(self)@.add_node(node@),
    {
        proof {
            use_type_invariant(&*self);
        }
        let mut nodes: HashMap<u32, Node> = HashMap::new();
        std::mem::swap(&mut nodes, &mut self.nodes);
        let ghost before = node_views(nodes@);
        nodes.insert(node.id, node);
        assert(node_views(nodes@) =~= before.insert(node.id, node@));
        self.nodes = nodes;
    }

    /// Appends `edge` behind the edges added before.
    pub fn add_edge(&mut self, edge: Edge)
        ensures
            final(self)@ == old(self)@.add_edge(edge@),
    {
        proof {
            use_type_invariant(&*self);
        }
        let mut edges: Vec<Edge> = Vec::new();
        std::mem::swap(&mut edges, &mut self.edges);
        let ghost before = edge_views(edges@);
        edges.push(edge);
        assert(edge_views(edges@) =~= before.push(edge@));
        self.edges = edges;
    }

    /// The node stored under `id`.
    pub fn get_node(&self, id: u32) -> (r: Option<&Node>)
        ensures
            match r {
                Some(n) => self@.get_node(id) == Some(n@),
                None => self@.get_node(id) is None,
            },
    {
        self.nodes.get(&id)
    }

    /// The earliest added edge that leads from `from` to `to`. Later edges
    /// between the same endpoints are not reached through this function.
    pub fn get_edge(&self, from: u32, to: u32) -> (r: Option<&Edge>)
        ensures
            match r {
                Some(e) => self@.get_edge(from, to) == Some(e@),
                None => self@.get_edge(from, to) is None,
            },
    {
        find_edge_between(&self.edges, from, to)
    }

    /// The stored nodes that hold exactly `value` under `key`, each once. The
    /// order is that of the node table and is not fixed.
    pub fn query_nodes_by_property(&self, key: &str, value: &str) -> (r: Vec<&Node>)
        ensures
            found_under(r@, node_ids(r@), self@.nodes, key@, value@),
    {
        proof {
            use_type_invariant(self);
        }
        nodes_with_property(&self.nodes, key, value)
    }

    /// The stored edges that hold exactly `value` under `key`, in the order in
    /// which they were added.
    pub fn query_edges_by_property(&self, key: &str, value: &str) -> (r: Vec<&Edge>)
        ensures
            edge_ref_views(r@) == matching_edges(self@.edges, key@, value@),
    {
        edges_with_property(&self.edges, key, value)
    }
}

} // verus!
