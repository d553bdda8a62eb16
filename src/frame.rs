//! A scope frame: one table of bindings, kept in a hashbrown map.
use hashbrown::HashMap;
use std::rc::Rc;
use vstd::prelude::*;

use crate::object::Object;

verus! {

/// One table of name bindings.
#[verifier::external_body]
pub struct Frame {
    map: HashMap<String, Rc<Object>>,
}

/// The bindings a frame holds.
pub uninterp spec fn frame_bindings(f: Frame) -> Map<Seq<char>, Rc<Object>>;

/// The empty table.
pub open spec fn no_bindings() -> Map<Seq<char>, Rc<Object>> {
    Map::empty()
}

impl Frame {
    /// Relies on hashbrown::HashMap::new: a new map is empty.
    #[verifier::external_body]
    pub(crate) fn new() -> (r: Frame)
        ensures
            frame_bindings(r) == no_bindings(),
    {
        Frame { map: HashMap::new() }
    }

    /// Relies on hashbrown::HashMap::get: the value bound to the key, if any.
    #[verifier::external_body]
    pub(crate) fn get(&self, name: &str) -> (r: Option<Rc<Object>>)
        ensures
            frame_bindings(*self).contains_key(name@) ==> r == Some(frame_bindings(*self)[name@]),
            !frame_bindings(*self).contains_key(name@) ==> r is None,
    {
        match self.map.get(name) {
            Some(v) => Some(Rc::clone(v)),
            None => None,
        }
    }

    /// Relies on hashbrown::HashMap::insert: the key is bound to the value,
    /// replacing any earlier binding; the other bindings stay.
    #[verifier::external_body]
    pub(crate) fn insert(&mut self, name: String, value: Rc<Object>)
        ensures
            frame_bindings(*final(self)) == frame_bindings(*old(self)).insert(name@, value),
    {
        self.map.insert(name, value);
    }

    /// Relies on hashbrown::HashMap::get_mut: where the key is bound, its
    /// value is replaced and true returned; else nothing changes.
    #[verifier::external_body]
    pub(crate) fn replace(&mut self, name: &str, value: Rc<Object>) -> (r: bool)
        ensures
            r == frame_bindings(*old(self)).contains_key(name@),
            r ==> frame_bindings(*final(self)) == frame_bindings(*old(self)).insert(name@, value),
            !r ==> frame_bindings(*final(self)) == frame_bindings(*old(self)),
    {
        match self.map.get_mut(name) {
            Some(slot) => {
                *slot = value;
                true
            },
            None => false,
        }
    }
}

} // verus!
