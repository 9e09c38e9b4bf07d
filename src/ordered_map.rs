//! The insertion-ordered container that a map input is folded into.

use vstd::prelude::*;
use std::marker::PhantomData;

verus! {

/// A key-value container that keeps its pairs in insertion order. Keys are
/// not made unique: that is the input's business.
pub struct MyMap<K, V> {
    entries: Vec<(K, V)>,
}

impl<K, V> MyMap<K, V> {
    /// The pairs, in the order they were inserted.
    pub closed spec fn entries(&self) -> Seq<(K, V)> {
        self.entries@
    }

    /// An empty container with room for `c` pairs.
    pub fn with_capacity(c: usize) -> (m: MyMap<K, V>)
        ensures
            m.entries() == Seq::<(K, V)>::empty(),
    {
        MyMap { entries: Vec::with_capacity(c) }
    }

    /// Appends a pair after all the others.
    pub fn insert(&mut self, k: K, v: V)
        ensures
            final(self).entries() == old(self).entries().push((k, v)),
    {
        self.entries.push((k, v));
    }

    /// How many pairs were inserted.
    pub fn len(&self) -> (n: usize)
        ensures
            n == self.entries().len(),
    {
        self.entries.len()
    }

    /// The pairs, in insertion order.
    pub fn into_entries(self) -> (r: Vec<(K, V)>)
        ensures
            r@ == self.entries(),
    {
        self.entries
    }
}

/// The target-builder that folds an open-ended map input into a `MyMap`.
/// It stores nothing: the key and value types are its only content.
pub struct MyMapVisitor<K, V> {
    marker: PhantomData<(K, V)>,
}

impl<K, V> MyMapVisitor<K, V> {
    pub fn new() -> (r: MyMapVisitor<K, V>) {
        MyMapVisitor { marker: PhantomData }
    }

    /// What this builder accepts, for error messages.
    pub fn expecting(&self) -> (r: &'static str)
        ensures
            r@ == "a very special map"@,
    {
        "a very special map"
    }

    /// The container a map input starts from, sized from the input's hint
    /// when it gives one.
    pub fn start(&self, size_hint: Option<usize>) -> (m: MyMap<K, V>)
        ensures
            m.entries() == Seq::<(K, V)>::empty(),
    {
        let c = match size_hint {
            Some(n) => n,
            None => 0,
        };
        MyMap::with_capacity(c)
    }
}

} // verus!
