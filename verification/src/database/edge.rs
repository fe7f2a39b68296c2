//! Directed edges: two endpoints, a label and properties.

use crate::database::properties::{Properties, PropertyMap};
use vstd::prelude::*;

verus! {

/// A labelled edge from one node identity to another.
#[derive(Debug)]
pub struct Edge {
    pub from: u32,
    pub to: u32,
    pub label: String,
    pub properties: Properties,
}

/// What an edge holds, as plain values.
pub struct EdgeView {
    pub from: u32,
    pub to: u32,
    pub label: Seq<char>,
    pub properties: PropertyMap,
}

impl EdgeView {
    /// The edge leads from `from` to `to`.
    pub open spec fn connects(self, from: u32, to: u32) -> bool {
        self.from == from && self.to == to
    }

    /// The edge with `value` stored under `key`; endpoints and label stay.
    pub open spec fn with_property(self, key: Seq<char>, value: Seq<char>) -> EdgeView {
        EdgeView { properties: self.properties.insert(key, value), ..self }
    }

    /// The value stored under `key`, if any.
    pub open spec fn property(self, key: Seq<char>) -> Option<Seq<char>> {
        if self.properties.contains_key(key) {
            Some(self.properties[key])
        } else {
            None
        }
    }

    /// The edge stores exactly `value` under `key`.
    pub open spec fn has_property(self, key: Seq<char>, value: Seq<char>) -> bool {
        self.property(key) == Some(value)
    }
}

impl View for Edge {
    type V = EdgeView;

    open spec fn view(&self) -> EdgeView {
        EdgeView { from: self.from, to: self.to, label: self.label@, properties: self.properties@ }
    }
}

/// The contents of a list of edges, in the same order.
pub open spec fn edge_views(edges: Seq<Edge>) -> Seq<EdgeView> {
    Seq::new(edges.len(), |i: int| edges[i]@)
}

/// The contents of a list of borrowed edges, in the same order.
pub open spec fn edge_ref_views(edges: Seq<&Edge>) -> Seq<EdgeView> {
    Seq::new(edges.len(), |i: int| edges[i]@)
}

/// Position `i` holds the earliest edge of the list that leads from `from` to `to`.
pub open spec fn is_first_connecting(edges: Seq<EdgeView>, from: u32, to: u32, i: int) -> bool {
    &&& 0 <= i < edges.len()
    &&& edges[i].connects(from, to)
    &&& forall|j: int| 0 <= j < i ==> !(#[trigger] edges[j]).connects(from, to)
}

/// The position of the earliest edge that leads from `from` to `to`, if any does.
pub open spec fn first_connecting(edges: Seq<EdgeView>, from: u32, to: u32) -> Option<int> {
    if exists|i: int| is_first_connecting(edges, from, to, i) {
        Some(choose|i: int| is_first_connecting(edges, from, to, i))
    } else {
        None
    }
}

/// The earliest edge that leads from `from` to `to`, if any does.
pub open spec fn edge_between(edges: Seq<EdgeView>, from: u32, to: u32) -> Option<EdgeView> {
    match first_connecting(edges, from, to) {
        Some(i) => Some(edges[i]),
        None => None,
    }
}

/// At most one position holds the earliest connecting edge, and
/// `first_connecting` names it.
pub proof fn lemma_first_connecting_at(edges: Seq<EdgeView>, from: u32, to: u32, i: int)
    requires
        is_first_connecting(edges, from, to, i),
    ensures
        first_connecting(edges, from, to) == Some(i),
        edge_between(edges, from, to) == Some(edges[i]),
{
    let c = choose|c: int| is_first_connecting(edges, from, to, c);
    assert(is_first_connecting(edges, from, to, c));
    if c < i {
        assert(!edges[c].connects(from, to));
    } else if i < c {
        assert(!edges[i].connects(from, to));
    }
}

/// Where no edge of the list connects the two endpoints, none is found.
pub proof fn lemma_first_connecting_none(edges: Seq<EdgeView>, from: u32, to: u32)
    requires
        forall|j: int| 0 <= j < edges.len() ==> !(#[trigger] edges[j]).connects(from, to),
    ensures
        first_connecting(edges, from, to) is None,
        edge_between(edges, from, to) is None,
{
    if exists|i: int| is_first_connecting(edges, from, to, i) {
        let c = choose|c: int| is_first_connecting(edges, from, to, c);
        assert(edges[c].connects(from, to));
    }
}

/// An edge appended to a list in which none connects its endpoints is the
/// one found for them.
pub proof fn lemma_first_edge_is_found(edges: Seq<EdgeView>, edge: EdgeView)
    requires
        edge_between(edges, edge.from, edge.to) is None,
    ensures
        edge_between(edges.push(edge), edge.from, edge.to) == Some(edge),
{
    let after = edges.push(edge);
    assert forall|j: int| 0 <= j < edges.len() implies !(#[trigger] after[j]).connects(
        edge.from,
        edge.to,
    ) by {
        lemma_none_found_none_connects(edges, edge.from, edge.to, j);
    }
    assert(after[edges.len() as int] == edge);
    lemma_first_connecting_at(after, edge.from, edge.to, edges.len() as int);
}

/// Where no edge is found for two endpoints, no edge of the list connects
/// them.
pub proof fn lemma_none_found_none_connects(edges: Seq<EdgeView>, from: u32, to: u32, j: int)
    requires
        edge_between(edges, from, to) is None,
        0 <= j < edges.len(),
    ensures
        !edges[j].connects(from, to),
    decreases j,
{
    if edges[j].connects(from, to) {
        if forall|k: int| 0 <= k < j ==> !(#[trigger] edges[k]).connects(from, to) {
            assert(is_first_connecting(edges, from, to, j));
        } else {
            let k = choose|k: int| 0 <= k < j && (#[trigger] edges[k]).connects(from, to);
            lemma_none_found_none_connects(edges, from, to, k);
        }
    }
}

/// The edge found for two endpoints stays the one found, whatever edge is
/// appended later: of several edges between the same endpoints, the earliest
/// wins.
pub proof fn lemma_earliest_edge_wins(edges: Seq<EdgeView>, later: EdgeView, from: u32, to: u32)
    requires
        edge_between(edges, from, to) is Some,
    ensures
        edge_between(edges.push(later), from, to) == edge_between(edges, from, to),
{
    let i = first_connecting(edges, from, to)->0;
    assert(is_first_connecting(edges, from, to, i));
    let after = edges.push(later);
    assert(after[i] == edges[i]);
    assert forall|j: int| 0 <= j < i implies !(#[trigger] after[j]).connects(from, to) by {
        assert(after[j] == edges[j]);
    }
    lemma_first_connecting_at(after, from, to, i);
}

/// The earliest edge of `edges` that leads from `from` to `to`.
pub fn find_edge_between<'a>(edges: &'a Vec<Edge>, from: u32, to: u32) -> (r: Option<&'a Edge>)
    ensures
        match r {
            Some(e) => first_connecting(edge_views(edges@), from, to) matches Some(i) && *e
                == edges@[i],
            None => first_connecting(edge_views(edges@), from, to) is None,
        },
        match r {
            Some(e) => edge_between(edge_views(edges@), from, to) == Some(e@),
            None => edge_between(edge_views(edges@), from, to) is None,
        },
{
    let ghost views = edge_views(edges@);
    let mut i: usize = 0;
    while i < edges.len()
        invariant
            views == edge_views(edges@),
            i <= edges@.len(),
            forall|j: int| 0 <= j < i ==> !(#[trigger] views[j]).connects(from, to),
        decreases edges@.len() - i,
    {
        if edges[i].from == from && edges[i].to == to {
            proof {
                lemma_first_connecting_at(views, from, to, i as int);
            }
            return Some(&edges[i]);
        }
        i += 1;
    }
    proof {
        lemma_first_connecting_none(views, from, to);
    }
    None
}

impl Edge {
    /// An edge without properties.
    pub fn new(from: u32, to: u32, label: &str) -> (r: Self)
        ensures
            r@ == (EdgeView { from, to, label: label@, properties: PropertyMap::empty() }),
    {
        Edge { from, to, label: label.to_owned(), properties: Properties::new() }
    }

    /// Stores `value` under `key`; a value stored there before is lost.
    pub fn add_property(&mut self, key: &str, value: &str)
        ensures
            final(self)@ == old(self)@.with_property(key@, value@),
    {
        self.properties.insert(key.to_owned(), value.to_owned());
    }

    /// The value stored under `key`, or `None` where the key was never set.
    pub fn get_property(&self, key: &str) -> (r: Option<&String>)
        ensures
            match r {
                Some(v) => self@.property(key@) == Some(v@),
                None => self@.property(key@) is None,
            },
    {
        self.properties.get(key)
    }
}

} // verus!
