//! Contexts: named namespaces that writes to the graph must name.

use crate::database::properties::{Properties, PropertyMap};
use vstd::prelude::*;

verus! {

/// A named namespace.
#[derive(Debug)]
pub struct Context {
    pub id: u32,
    pub name: String,
    pub properties: Properties,
}

/// What a context holds, as plain values.
pub struct ContextView {
    pub id: u32,
    pub name: Seq<char>,
    pub properties: PropertyMap,
}

impl ContextView {
    /// The context with `value` stored under `key`; identity and name stay.
    pub open spec fn with_property(self, key: Seq<char>, value: Seq<char>) -> ContextView {
        ContextView { properties: self.properties.insert(key, value), ..self }
    }

    /// The value stored under `key`, if any.
    pub open spec fn property(self, key: Seq<char>) -> Option<Seq<char>> {
        if self.properties.contains_key(key) {
            Some(self.properties[key])
        } else {
            None
        }
    }

    /// The context stores exactly `value` under `key`.
    pub open spec fn has_property(self, key: Seq<char>, value: Seq<char>) -> bool {
        self.property(key) == Some(value)
    }
}

impl View for Context {
    type V = ContextView;

    open spec fn view(&self) -> ContextView {
        ContextView { id: self.id, name: self.name@, properties: self.properties@ }
    }
}

/// The contents of a table of contexts, key by key.
pub open spec fn context_views(contexts: Map<u32, Context>) -> Map<u32, ContextView> {
    Map::new(|id: u32| contexts.contains_key(id), |id: u32| contexts[id]@)
}

impl Context {
    /// A context without properties.
    pub fn new(id: u32, name: &str) -> (r: Self)
        ensures
            r@ == (ContextView { id, name: name@, properties: PropertyMap::empty() }),
    {
        Context { id, name: name.to_owned(), properties: Properties::new() }
    }

    /// Stores `value` under `key`; a value stored there before is lost.
    pub fn add_property(&mut self, key: &str, value: &str)
        ensures
            final(self)@ == old(self)@.with_property(key@, value@),
    {
        self.properties.insert(key.to_owned(), value.to_owned());
    }

    /// The value stored under `key`, or `None` where the key was never set.
    pub fn get_property(&self, key: &str) -> (r: Option<&String>)
        ensures
            match r {
                Some(v) => self@.property(key@) == Some(v@),
                None => self@.property(key@) is None,
            },
    {
        self.properties.get(key)
    }
}

} // verus!
