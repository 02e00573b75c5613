//! The script execution context.

use vstd::prelude::*;

use crate::jsc::string::{chars_of, utf16_of, wf_utf16};
use crate::jsc::{JSClass, JSContext, JSContextGroup, JSString};

verus! {

impl JSContext {
    /// Creates an execution context with no debug name, no custom global
    /// object class, and no object minted yet.
    pub fn new() -> (c: Self)
        ensures
            c.name is None,
            c.next_id == 0,
            c.global_class is None,
    {
        JSContext::default()
    }

    /// Creates an execution context whose global object is built from the
    /// given class.
    pub fn new_with_class(global_object_class: &JSClass) -> (c: Self)
        ensures
            c.name is None,
            c.next_id == 0,
            c.global_class == Some(global_object_class.id),
    {
        JSContext { name: None, next_id: 0, global_class: Some(global_object_class.id) }
    }

    /// Returns the context group this context belongs to.
    pub fn group(&self) -> JSContextGroup {
        JSContextGroup {}
    }

    /// Returns a copy of the context's remote debugging name, if one has
    /// been set.
    pub fn name(&self) -> (r: Option<JSString>)
        ensures
            r is Some <==> self.name is Some,
            r matches Some(js) ==> (self.name matches Some(n) && js@ == utf16_of(n@) && wf_utf16(
                js@,
            ) && chars_of(js@) == n@),
    {
        match &self.name {
            None => None,
            Some(n) => Some(JSString::new_from_str(n.as_str())),
        }
    }

    /// Sets the remote debugging name of the context.
    pub fn set_name(&mut self, name: &str)
        ensures
            final(self).name matches Some(n) && n@ == name@,
            final(self).next_id == old(self).next_id,
            final(self).global_class == old(self).global_class,
    {
        self.name = Some(name.to_owned());
    }
}

impl Default for JSContext {
    /// Creates an execution context with no debug name and no custom
    /// global object class.
    fn default() -> (c: Self)
        ensures
            c.name is None,
            c.next_id == 0,
            c.global_class is None,
    {
        JSContext { name: None, next_id: 0, global_class: None }
    }
}

} // verus!
