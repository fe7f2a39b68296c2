//! Nodes: an identity, a label and properties.

use crate::database::properties::{Properties, PropertyMap};
use vstd::prelude::*;

verus! {

/// A labelled node of the graph.
#[derive(Debug)]
pub struct Node {
    pub id: u32,
    pub label: String,
    pub properties: Properties,
}

/// What a node holds, as plain values.
pub struct NodeView {
    pub id: u32,
    pub label: Seq<char>,
    pub properties: PropertyMap,
}

impl NodeView {
    /// The node with `value` stored under `key`; identity and label stay.
    pub open spec fn with_property(self, key: Seq<char>, value: Seq<char>) -> NodeView {
        NodeView { properties: self.properties.insert(key, value), ..self }
    }

    /// The value stored under `key`, if any.
    pub open spec fn property(self, key: Seq<char>) -> Option<Seq<char>> {
        if self.properties.contains_key(key) {
            Some(self.properties[key])
        } else {
            None
        }
    }

    /// The node stores exactly `value` under `key`.
    pub open spec fn has_property(self, key: Seq<char>, value: Seq<char>) -> bool {
        self.property(key) == Some(value)
    }
}

impl View for Node {
    type V = NodeView;

    open spec fn view(&self) -> NodeView {
        NodeView { id: self.id, label: self.label@, properties: self.properties@ }
    }
}

/// A property that was added is found under its key, and the node's identity
/// and label are as before.
pub proof fn lemma_added_property_is_found(node: NodeView, key: Seq<char>, value: Seq<char>)
    ensures
        node.with_property(key, value).property(key) == Some(value),
        node.with_property(key, value).has_property(key, value),
        node.with_property(key, value).id == node.id,
        node.with_property(key, value).label == node.label,
{
}

/// A property added under one key leaves what is stored under every other
/// key as it was.
pub proof fn lemma_added_property_leaves_others(
    node: NodeView,
    key: Seq<char>,
    value: Seq<char>,
    other: Seq<char>,
)
    requires
        other != key,
    ensures
        node.with_property(key, value).property(other) == node.property(other),
{
}

/// Of two values written under one key, the later one is kept.
pub proof fn lemma_last_write_wins(
    node: NodeView,
    key: Seq<char>,
    first: Seq<char>,
    second: Seq<char>,
)
    ensures
        node.with_property(key, first).with_property(key, second) == node.with_property(
            key,
            second,
        ),
        node.with_property(key, first).with_property(key, second).property(key) == Some(second),
{
    assert(node.properties.insert(key, first).insert(key, second) =~= node.properties.insert(
        key,
        second,
    ));
}

/// The contents of a table of nodes, key by key.
pub open spec fn node_views(nodes: Map<u32, Node>) -> Map<u32, NodeView> {
    Map::new(|id: u32| nodes.contains_key(id), |id: u32| nodes[id]@)
}

/// Every node is stored under its own identity.
pub open spec fn keyed_by_id(nodes: Map<u32, NodeView>) -> bool {
    forall|id: u32| nodes.contains_key(id) ==> (#[trigger] nodes[id]).id == id
}

impl Node {
    /// A node without properties.
    pub fn new(id: u32, label: &str) -> (r: Self)
        ensures
            r@ == (NodeView { id, label: label@, properties: PropertyMap::empty() }),
    {
        Node { id, label: label.to_owned(), properties: Properties::new() }
    }

    /// Stores `value` under `key`; a value stored there before is lost.
    pub fn add_property(&mut self, key: &str, value: &str)
        ensures
            final(self)@ == old(self)@.with_property(key@, value@),
    {
        self.properties.insert(key.to_owned(), value.to_owned());
    }

    /// The value stored under `key`, or `None` where the key was never set.
    pub fn get_property(&self, key: &str) -> (r: Option<&String>)
        ensures
            match r {
                Some(v) => self@.property(key@) == Some(v@),
                None => self@.property(key@) is None,
            },
    {
        self.properties.get(key)
    }
}

} // verus!
