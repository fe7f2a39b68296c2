//! Writes to the store that are let through only for an existing context.

use crate::database::edge::{Edge, EdgeView};
use crate::database::node::{Node, NodeView};
use crate::database::properties::PropertyMap;
use crate::models::context::Context;
use crate::models::schema::{Schema, SchemaView};
use vstd::prelude::*;

verus! {

/// The failure of a write that named a context which the store does not hold.
#[derive(Debug, Clone, Copy, PartialEq, Eq, Structural)]
pub struct ContextNotFound {
    pub context_id: u32,
}

/// A node as it is first created: no properties.
pub open spec fn fresh_node(id: u32, label: Seq<char>) -> NodeView {
    NodeView { id, label, properties: PropertyMap::empty() }
}

/// An edge as it is first created: no properties.
pub open spec fn fresh_edge(from: u32, to: u32, label: Seq<char>) -> EdgeView {
    EdgeView { from, to, label, properties: PropertyMap::empty() }
}

/// The store after a node write through the service: where it holds the
/// context, a fresh node is added; otherwise nothing changes. The node keeps
/// no record of the context.
pub open spec fn with_node_in_context(
    store: SchemaView,
    context_id: u32,
    node_id: u32,
    label: Seq<char>,
) -> SchemaView {
    if store.contexts.contains_key(context_id) {
        store.add_node(fresh_node(node_id, label))
    } else {
        store
    }
}

/// The store after an edge write through the service: where it holds the
/// context, a fresh edge is appended; otherwise nothing changes. The edge
/// keeps no record of the context.
pub open spec fn with_edge_in_context(
    store: SchemaView,
    context_id: u32,
    from: u32,
    to: u32,
    label: Seq<char>,
) -> SchemaView {
    if store.contexts.contains_key(context_id) {
        store.add_edge(fresh_edge(from, to, label))
    } else {
        store
    }
}

/// A write through the service that names a context which the store does not hold changes
/// nothing: no node is added, and each identity leads to what it led to before.
pub proof fn lemma_missing_context_blocks_write(
    store: SchemaView,
    context_id: u32,
    node_id: u32,
    from: u32,
    to: u32,
    label: Seq<char>,
)
    requires
        !store.contexts.contains_key(context_id),
    ensures
        with_node_in_context(store, context_id, node_id, label) == store,
        with_node_in_context(store, context_id, node_id, label).nodes.len() == store.nodes.len(),
        with_node_in_context(store, context_id, node_id, label).get_node(node_id)
            == store.get_node(node_id),
        with_edge_in_context(store, context_id, from, to, label) == store,
{
}

/// After a write through the service that names a missing context, a node that the store
/// did not hold is still absent.
pub proof fn lemma_blocked_node_is_absent(
    store: SchemaView,
    context_id: u32,
    node_id: u32,
    label: Seq<char>,
)
    requires
        !store.contexts.contains_key(context_id),
        !store.nodes.contains_key(node_id),
    ensures
        with_node_in_context(store, context_id, node_id, label).get_node(node_id) is None,
{
}

/// A write through the service that names a context which the store holds adds the fresh
/// node, which is then found under its identity and carries no properties.
pub proof fn lemma_admitted_node_is_found(
    store: SchemaView,
    context_id: u32,
    node_id: u32,
    label: Seq<char>,
)
    requires
        store.contexts.contains_key(context_id),
    ensures
        with_node_in_context(store, context_id, node_id, label).get_node(node_id) == Some(
            fresh_node(node_id, label),
        ),
        with_node_in_context(store, context_id, node_id, label).contexts == store.contexts,
{
}

/// The store, with writes of nodes and edges checked against its contexts.
pub struct ContextService {
    pub schema: Schema,
}

impl View for ContextService {
    type V = SchemaView;

    open spec fn view(&self) -> SchemaView {
        self.schema@
    }
}

impl ContextService {
    /// A service over a store that holds nothing.
    pub fn new() -> (r: Self)
        ensures
            r@ == SchemaView::empty(),
    {
        ContextService { schema: Schema::new() }
    }

    /// Stores `context`, in place of any context with the same identity.
    pub fn add_context(&mut self, context: Context)
        ensures
            final(self)@ == old(self)@.add_context(context@),
    {
        self.schema.add_context(context);
    }

    /// The context stored under `id`.
    pub fn get_context(&self, id: u32) -> (r: Option<&Context>)
        ensures
            match r {
                Some(c) => self@.get_context(id) == Some(c@),
                None => self@.get_context(id) is None,
            },
    {
        self.schema.get_context(id)
    }

    /// Adds a node without properties where the store holds the context
    /// `context_id`, and reports a missing context.
    pub fn create_node(&mut self, context_id: u32, node_id: u32, label: &str) -> (r: Result<
        (),
        ContextNotFound,
    >)
        ensures
            final(self)@ == with_node_in_context(old(self)@, context_id, node_id, label@),
            old(self)@.contexts.contains_key(context_id) ==> r == Ok::<(), ContextNotFound>(()),
            !old(self)@.contexts.contains_key(context_id) ==> r == Err::<(), ContextNotFound>(
                ContextNotFound { context_id },
            ),
    {
        if self.schema.get_context(context_id).is_some() {
            let node = Node::new(node_id, label);
            self.schema.add_node(node);
            Ok(())
        } else {
            Err(ContextNotFound { context_id })
        }
    }

    /// Appends an edge without properties where the store holds the context
    /// `context_id`, and reports a missing context.
    pub fn create_edge(&mut self, context_id: u32, from: u32, to: u32, label: &str) -> (r: Result<
        (),
        ContextNotFound,
    >)
        ensures
            final(self)@ == with_edge_in_context(old(self)@, context_id, from, to, label@),
            old(self)@.contexts.contains_key(context_id) ==> r == Ok::<(), ContextNotFound>(()),
            !old(self)@.contexts.contains_key(context_id) ==> r == Err::<(), ContextNotFound>(
                ContextNotFound { context_id },
            ),
    {
        if self.schema.get_context(context_id).is_some() {
            let edge = Edge::new(from, to, label);
            self.schema.add_edge(edge);
            Ok(())
        } else {
            Err(ContextNotFound { context_id })
        }
    }

    /// Adds a node without properties where the store holds the context
    /// `context_id`. Where it does not, the call changes nothing and says
    /// nothing.
    pub fn add_node_to_context(&mut self, context_id: u32, node_id: u32, label: &str)
        ensures
            final(self)@ == with_node_in_context(old(self)@, context_id, node_id, label@),
    {
        let _ = self.create_node(context_id, node_id, label);
    }

    /// Appends an edge without properties where the store holds the context
    /// `context_id`. Where it does not, the call changes nothing and says
    /// nothing.
    pub fn add_edge_to_context(&mut self, context_id: u32, from: u32, to: u32, label: &str)
        ensures
            final(self)@ == with_edge_in_context(old(self)@, context_id, from, to, label@),
    {
        let _ = self.create_edge(context_id, from, to, label);
    }
}

} // verus!
