//! The graph store: every context, node and edge, with insertion and lookup
//! by key.

use crate::api::query::{
    edges_with_property, found_under, matching_edges, node_ids, nodes_with_property,
};
use crate::database::edge::{
    edge_between, edge_ref_views, edge_views, find_edge_between, lemma_earliest_edge_wins,
    lemma_first_edge_is_found, Edge, EdgeView,
};
use crate::database::node::{keyed_by_id, node_views, Node, NodeView};
use crate::models::context::{context_views, Context, ContextView};
use std::collections::HashMap;
use vstd::prelude::*;

verus! {

/// The store. Contexts and nodes are kept under their identities; edges are
/// kept in the order in which they were added.
#[derive(Debug)]
pub struct Schema {
    pub contexts: HashMap<u32, Context>,
    pub nodes: HashMap<u32, Node>,
    pub edges: Vec<Edge>,
}

/// What a store holds, as plain values.
pub struct SchemaView {
    pub contexts: Map<u32, ContextView>,
    pub nodes: Map<u32, NodeView>,
    pub edges: Seq<EdgeView>,
}

impl SchemaView {
    /// A store that holds nothing.
    pub open spec fn empty() -> SchemaView {
        SchemaView { contexts: Map::empty(), nodes: Map::empty(), edges: Seq::empty() }
    }

    /// Every context and every node is stored under its own identity.
    pub open spec fn wf(self) -> bool {
        &&& forall|id: u32|
            self.contexts.contains_key(id) ==> (#[trigger] self.contexts[id]).id == id
        &&& keyed_by_id(self.nodes)
    }

    /// The store after `context` took the place kept for its identity.
    pub open spec fn add_context(self, context: ContextView) -> SchemaView {
        SchemaView { contexts: self.contexts.insert(context.id, context), ..self }
    }

    /// The store after `node` took the place kept for its identity.
    pub open spec fn add_node(self, node: NodeView) -> SchemaView {
        SchemaView { nodes: self.nodes.insert(node.id, node), ..self }
    }

    /// The store after `edge` was appended.
    pub open spec fn add_edge(self, edge: EdgeView) -> SchemaView {
        SchemaView { edges: self.edges.push(edge), ..self }
    }

    /// The context stored under `id`, if any.
    pub open spec fn get_context(self, id: u32) -> Option<ContextView> {
        if self.contexts.contains_key(id) {
            Some(self.contexts[id])
        } else {
            None
        }
    }

    /// The node stored under `id`, if any.
    pub open spec fn get_node(self, id: u32) -> Option<NodeView> {
        if self.nodes.contains_key(id) {
            Some(self.nodes[id])
        } else {
            None
        }
    }

    /// The earliest added edge that leads from `from` to `to`, if any.
    pub open spec fn get_edge(self, from: u32, to: u32) -> Option<EdgeView> {
        edge_between(self.edges, from, to)
    }
}

/// A node that was added is the one found under its identity.
pub proof fn lemma_added_node_is_found(store: SchemaView, node: NodeView)
    ensures
        store.add_node(node).get_node(node.id) == Some(node),
{
}

/// A property that a node carried when it was added is found on the node
/// that the store hands back.
pub proof fn lemma_stored_node_keeps_property(
    store: SchemaView,
    node: NodeView,
    key: Seq<char>,
    value: Seq<char>,
)
    ensures
        store.add_node(node.with_property(key, value)).get_node(node.id) == Some(
            node.with_property(key, value),
        ),
        store.add_node(node.with_property(key, value)).get_node(node.id)->0.property(key)
            == Some(value),
{
}

/// A node added under an identity that is taken replaces the node stored
/// there: the store is as if the earlier node had never been added.
pub proof fn lemma_later_node_replaces(store: SchemaView, earlier: NodeView, later: NodeView)
    requires
        earlier.id == later.id,
    ensures
        store.add_node(earlier).add_node(later).get_node(earlier.id) == Some(later),
        store.add_node(earlier).add_node(later) == store.add_node(later),
{
    assert(store.nodes.insert(earlier.id, earlier).insert(later.id, later)
        =~= store.nodes.insert(later.id, later));
}

/// Adding a node leaves the nodes under every other identity, the contexts
/// and the edges as they were.
pub proof fn lemma_added_node_leaves_others(store: SchemaView, node: NodeView, other: u32)
    requires
        other != node.id,
    ensures
        store.add_node(node).get_node(other) == store.get_node(other),
        store.add_node(node).contexts == store.contexts,
        store.add_node(node).edges == store.edges,
{
}

/// Adding the same context a second time changes nothing: the store holds
/// one context under that identity, with the fields that were given.
pub proof fn lemma_add_context_is_idempotent(store: SchemaView, context: ContextView)
    ensures
        store.add_context(context).add_context(context) == store.add_context(context),
        store.add_context(context).get_context(context.id) == Some(context),
        store.add_context(context).contexts.dom() == store.contexts.dom().insert(context.id),
{
    assert(store.contexts.insert(context.id, context).insert(context.id, context)
        =~= store.contexts.insert(context.id, context));
    assert(store.contexts.insert(context.id, context).dom() =~= store.contexts.dom().insert(
        context.id,
    ));
}

/// Every write keeps each context and each node under its own identity.
pub proof fn lemma_writes_keep_wf(
    store: SchemaView,
    context: ContextView,
    node: NodeView,
    edge: EdgeView,
)
    requires
        store.wf(),
    ensures
        SchemaView::empty().wf(),
        store.add_context(context).wf(),
        store.add_node(node).wf(),
        store.add_edge(edge).wf(),
{
}

/// The earliest added edge between two endpoints is the one found, also
/// after later edges between them were added.
pub proof fn lemma_get_edge_finds_earliest(store: SchemaView, first: EdgeView, later: EdgeView)
    requires
        store.get_edge(first.from, first.to) is None,
    ensures
        store.add_edge(first).get_edge(first.from, first.to) == Some(first),
        store.add_edge(first).add_edge(later).get_edge(first.from, first.to) == Some(first),
{
    lemma_first_edge_is_found(store.edges, first);
    lemma_earliest_edge_wins(store.edges.push(first), later, first.from, first.to);
}

impl View for Schema {
    type V = SchemaView;

    open spec fn view(&self) -> SchemaView {
        SchemaView {
            contexts: context_views(self.contexts@),
            nodes: node_views(self.nodes@),
            edges: edge_views(self.edges@),
        }
    }
}

impl Schema {
    /// A store that holds nothing.
    pub fn new() -> (r: Self)
        ensures
            r@ == SchemaView::empty(),
    {
        let r = Schema { contexts: HashMap::new(), nodes: HashMap::new(), edges: Vec::new() };
        assert(r@.contexts =~= Map::empty());
        assert(r@.nodes =~= Map::empty());
        assert(r@.edges =~= Seq::empty());
        r
    }

    /// Stores `context` under its identity, in place of any context stored
    /// there before.
    pub fn add_context(&mut self, context: Context)
        ensures
            final(self)@ == old(self)@.add_context(context@),
    {
        self.contexts.insert(context.id, context);
        assert(self@.contexts =~= old(self)@.contexts.insert(context.id, context@));
    }

    /// Stores `node` under its identity, in place of any node stored there
    /// before.
    pub fn add_node(&mut self, node: Node)
        ensures
            final(self)@ == old(self)@.add_node(node@),
    {
        self.nodes.insert(node.id, node);
        assert(self@.nodes =~= old(self)@.nodes.insert(node.id, node@));
    }

    /// Appends `edge` behind the edges added before.
    pub fn add_edge(&mut self, edge: Edge)
        ensures
            final(self)@ == old(self)@.add_edge(edge@),
    {
        self.edges.push(edge);
        assert(self@.edges =~= old(self)@.edges.push(edge@));
    }

    /// The context stored under `id`.
    pub fn get_context(&self, id: u32) -> (r: Option<&Context>)
        ensures
            match r {
                Some(c) => self@.get_context(id) == Some(c@),
                None => self@.get_context(id) is None,
            },
    {
        self.contexts.get(&id)
    }

    /// The node stored under `id`.
    pub fn get_node(&self, id: u32) -> (r: Option<&Node>)
        ensures
            match r {
                Some(n) => self@.get_node(id) == Some(n@),
                None => self@.get_node(id) is None,
            },
    {
        self.nodes.get(&id)
    }

    /// The earliest added edge that leads from `from` to `to`. Later edges
    /// between the same endpoints are not reached through this function.
    pub fn get_edge(&self, from: u32, to: u32) -> (r: Option<&Edge>)
        ensures
            match r {
                Some(e) => self@.get_edge(from, to) == Some(e@),
                None => self@.get_edge(from, to) is None,
            },
    {
        find_edge_between(&self.edges, from, to)
    }

    /// The stored nodes that hold exactly `value` under `key`, each once. The
    /// order is that of the node table and is not fixed. In a store that keeps
    /// every node under its own identity, the nodes found have exactly the
    /// identities that the query matches.
    pub fn query_nodes_by_property(&self, key: &str, value: &str) -> (r: Vec<&Node>)
        ensures
            exists|keys: Seq<u32>| found_under(r@, keys, self@.nodes, key@, value@),
            keyed_by_id(self@.nodes) ==> found_under(
                r@,
                node_ids(r@),
                self@.nodes,
                key@,
                value@,
            ),
    {
        nodes_with_property(&self.nodes, key, value)
    }

    /// The stored edges that hold exactly `value` under `key`, in the order in
    /// which they were added.
    pub fn query_edges_by_property(&self, key: &str, value: &str) -> (r: Vec<&Edge>)
        ensures
            edge_ref_views(r@) == matching_edges(self@.edges, key@, value@),
    {
        edges_with_property(&self.edges, key, value)
    }
}

} // verus!
