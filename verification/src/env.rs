//! The variable environment: the value last assigned to each name.

use vstd::prelude::*;
use vstd::hash_map::StringHashMap;

verus! {

/// A table from variable names to values. Its model is a map from a name,
/// as a sequence of characters, to the value assigned to it.
#[verifier::reject_recursive_types(V)]
pub struct Environment<V> {
    bindings: StringHashMap<V>,
}

impl<V> View for Environment<V> {
    type V = Map<Seq<char>, V>;

    closed spec fn view(&self) -> Map<Seq<char>, V> {
        self.bindings@
    }
}

impl<V> Environment<V> {
    /// An environment in which no name has a value.
    pub fn new() -> (env: Self)
        ensures
            env@ == Map::<Seq<char>, V>::empty(),
    {
        Environment { bindings: StringHashMap::new() }
    }

    /// Gives `name` the value `value`, in place of the one it had.
    pub fn assign(&mut self, name: String, value: V)
        ensures
            final(self)@ == old(self)@.insert(name@, value),
    {
        self.bindings.insert(name, value);
    }

    /// Whether `name` has a value.
    pub fn contains(&self, name: &str) -> (found: bool)
        ensures
            found == self@.contains_key(name@),
    {
        self.bindings.contains_key(name)
    }
}

impl<V: Copy> Environment<V> {
    /// The value of `name`, if it has one.
    pub fn lookup(&self, name: &str) -> (value: Option<V>)
        ensures
            value == if self@.contains_key(name@) {
                Some(self@[name@])
            } else {
                None
            },
    {
        match self.bindings.get(name) {
            Some(value) => Some(*value),
            None => None,
        }
    }
}

} // verus!
