//! The context group: a set of contexts sharing one heap.

use vstd::prelude::*;

use crate::jsc::{JSClass, JSContext, JSContextGroup};

verus! {

impl JSContextGroup {
    /// Creates a context group.
    pub fn new() -> Self {
        JSContextGroup::default()
    }

    /// Creates an execution context in this group, with no debug name and
    /// no custom global object class.
    pub fn new_context(&self) -> (c: JSContext)
        ensures
            c.name is None,
            c.next_id == 0,
            c.global_class is None,
    {
        JSContext::new()
    }

    /// Creates an execution context in this group whose global object is
    /// built from the given class.
    pub fn new_context_with_class(&self, global_object_class: &JSClass) -> (c: JSContext)
        ensures
            c.name is None,
            c.next_id == 0,
            c.global_class == Some(global_object_class.id),
    {
        JSContext::new_with_class(global_object_class)
    }
}

impl Default for JSContextGroup {
    /// Creates a context group.
    fn default() -> Self {
        JSContextGroup {}
    }
}

} // verus!
