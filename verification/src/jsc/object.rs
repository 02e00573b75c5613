//! Script objects and their property access.
//!
//! An object here is a value of the object kind; its enumerable properties
//! are carried in enumeration order. A missing property reads as the
//! `undefined` value, never as an error. Array elements are properties
//! whose names are the decimal strings of their indices, as the engine
//! enumerates them.

use vstd::prelude::*;

use crate::jsc::json::{dec_chars, u64_decimal};
use crate::jsc::string::{chars_of, utf16_of, wf_utf16};
use crate::jsc::value::dup_value;
use crate::jsc::{JSData, JSException, JSObject, JSString, JSValue, JsVal};

verus! {

/// The value of the first property with the given name, if there is one.
pub open spec fn props_lookup(props: Seq<(Seq<char>, JsVal)>, name: Seq<char>) -> Option<JsVal>
    decreases props.len(),
{
    if props.len() == 0 {
        None
    } else if props[0].0 == name {
        Some(props[0].1)
    } else {
        props_lookup(props.subrange(1, props.len() as int), name)
    }
}

/// The property a named read yields: the named property's value if the
/// object has one, else the `undefined` value.
pub open spec fn property_or_undefined(obj: JsVal, name: Seq<char>) -> JsVal {
    match obj {
        JsVal::Object(o) => match props_lookup(o.props, name) {
            Some(v) => v,
            None => JsVal::Undefined,
        },
        _ => JsVal::Undefined,
    }
}

impl JSValue {
    /// Converts the value to an object.
    ///
    /// Only `undefined` and `null` have no object coercion; every other
    /// value converts. The returned object carries the same underlying
    /// value: even where the engine builds a fresh wrapper object around a
    /// boolean, number or string, the wrapper it hands back keeps the
    /// original value behind it, and the property reads below see no
    /// enumerable property on such a wrapper in this model. The exception
    /// payload of the two failing cases is the `undefined` value here; the
    /// engine would supply the thrown error object.
    pub fn as_object(&self) -> (r: Result<JSObject, JSException>)
        ensures
            r is Ok <==> !(self@ is Undefined || self@ is Null),
            r matches Ok(o) ==> o@ == self@,
            r matches Err(e) ==> e.value@ == JsVal::Undefined,
    {
        if self.is_undefined() || self.is_null() {
            Err(JSException { value: JSValue { data: JSData::Undefined } })
        } else {
            Ok(JSObject { value: dup_value(self) })
        }
    }
}

impl JSObject {
    /// Tests whether the object has a property with the given name.
    pub fn has_property(&self, name: &str) -> (r: bool)
        ensures
            r == (self@ matches JsVal::Object(o) && props_lookup(o.props, name@) is Some),
    {
        match &self.value.data {
            JSData::Object(o) => {
                let key: String = name.to_owned();
                let ghost props = self@->Object_0.props;
                let n = o.props.len();
                let mut i: usize = 0;
                proof {
                    crate::jsc::lemma_props_view_len(o.props@);
                    assert(props.subrange(0, n as int) =~= props);
                }
                while i < n
                    invariant
                        i <= n,
                        n == o.props@.len(),
                        self@ matches JsVal::Object(oo) && oo.props == props,
                        props == crate::jsc::props_view(o.props@),
                        key@ == name@,
                        props_lookup(props, name@) == props_lookup(
                            props.subrange(i as int, n as int),
                            name@,
                        ),
                    decreases n - i,
                {
                    proof {
                        crate::jsc::lemma_props_view_len(o.props@);
                        crate::jsc::lemma_props_view_index(o.props@, i as int);
                        assert(props.subrange(i as int, n as int)[0] == props[i as int]);
                        assert(props.subrange(i as int, n as int).subrange(
                            1,
                            (n - i) as int,
                        ) =~= props.subrange(i + 1, n as int));
                    }
                    if o.props[i].key == key {
                        return true;
                    }
                    i = i + 1;
                }
                proof {
                    assert(props.subrange(n as int, n as int) =~= Seq::<(
                        Seq<char>,
                        JsVal,
                    )>::empty());
                }
                false
            },
            _ => false,
        }
    }

    /// Reads the property with the given name.
    ///
    /// Returns the property's value if the object has the property,
    /// otherwise the `undefined` value; a read never fails.
    pub fn get_property(&self, name: &str) -> (r: JSValue)
        ensures
            r@ == property_or_undefined(self@, name@),
    {
        match &self.value.data {
            JSData::Object(o) => {
                let key: String = name.to_owned();
                let ghost props = self@->Object_0.props;
                let n = o.props.len();
                let mut i: usize = 0;
                proof {
                    crate::jsc::lemma_props_view_len(o.props@);
                    assert(props.subrange(0, n as int) =~= props);
                }
                while i < n
                    invariant
                        i <= n,
                        n == o.props@.len(),
                        self@ matches JsVal::Object(oo) && oo.props == props,
                        props == crate::jsc::props_view(o.props@),
                        key@ == name@,
                        props_lookup(props, name@) == props_lookup(
                            props.subrange(i as int, n as int),
                            name@,
                        ),
                    decreases n - i,
                {
                    proof {
                        crate::jsc::lemma_props_view_len(o.props@);
                        crate::jsc::lemma_props_view_index(o.props@, i as int);
                        assert(props.subrange(i as int, n as int)[0] == props[i as int]);
                        assert(props.subrange(i as int, n as int).subrange(
                            1,
                            (n - i) as int,
                        ) =~= props.subrange(i + 1, n as int));
                    }
                    if o.props[i].key == key {
                        return dup_value(&o.props[i].value);
                    }
                    i = i + 1;
                }
                proof {
                    assert(props.subrange(n as int, n as int) =~= Seq::<(
                        Seq<char>,
                        JsVal,
                    )>::empty());
                }
                JSValue { data: JSData::Undefined }
            },
            _ => JSValue { data: JSData::Undefined },
        }
    }

    /// Reads the property whose name is the decimal string of `index`.
    ///
    /// Array elements carry exactly such names, so this reads an array's
    /// element; on any other object it reads the numeric-string key, and a
    /// missing property again yields the `undefined` value.
    pub fn get_property_at_index(&self, index: u32) -> (r: JSValue)
        ensures
            r@ == property_or_undefined(self@, dec_chars(index as nat)),
    {
        let name = u64_decimal(index as u64);
        self.get_property(name.as_str())
    }

    /// Returns the names of the object's enumerable properties, in
    /// enumeration order, snapshotted at the time of the call.
    pub fn property_names(&self) -> (r: JSObjectPropertyNameIter)
        ensures
            r.idx == 0,
            self@ matches JsVal::Object(o) ==> {
                &&& r.names@.len() == o.props.len()
                &&& forall|i: int|
                    0 <= i < o.props.len() ==> (#[trigger] r.names@[i]@) == utf16_of(o.props[i].0)
                        && wf_utf16(r.names@[i]@) && chars_of(r.names@[i]@) == o.props[i].0
            },
            !(self@ matches JsVal::Object(_)) ==> r.names@.len() == 0,
    {
        let mut names: Vec<JSString> = Vec::new();
        match &self.value.data {
            JSData::Object(o) => {
                let ghost props = self@->Object_0.props;
                let n = o.props.len();
                let mut i: usize = 0;
                proof {
                    crate::jsc::lemma_props_view_len(o.props@);
                    assert(props.subrange(0, n as int) =~= props);
                }
                while i < n
                    invariant
                        i <= n,
                        n == o.props@.len(),
                        self@ matches JsVal::Object(oo) && oo.props == props,
                        props == crate::jsc::props_view(o.props@),
                        names@.len() == i,
                        forall|j: int|
                            0 <= j < i ==> (#[trigger] names@[j]@) == utf16_of(props[j].0)
                                && wf_utf16(names@[j]@) && chars_of(names@[j]@) == props[j].0,
                    decreases n - i,
                {
                    proof {
                        crate::jsc::lemma_props_view_index(o.props@, i as int);
                    }
                    names.push(JSString::new_from_str(o.props[i].key.as_str()));
                    i = i + 1;
                }
                JSObjectPropertyNameIter { names, idx: 0 }
            },
            _ => JSObjectPropertyNameIter { names, idx: 0 },
        }
    }
}

/// A finite, non-restartable walk over an object's property names,
/// snapshotted when [`JSObject::property_names`] was called.
pub struct JSObjectPropertyNameIter {
    /// The snapshotted names, in enumeration order.
    pub names: Vec<JSString>,
    /// How many names have been handed out.
    pub idx: usize,
}

impl JSObjectPropertyNameIter {
    /// Hands out the next name, or `None` when the walk is done.
    pub fn next(&mut self) -> (r: Option<JSString>)
        ensures
            old(self).idx < old(self).names@.len() ==> {
                &&& r matches Some(s) && s@ == old(self).names@[old(self).idx as int]@
                &&& final(self).idx == old(self).idx + 1
            },
            old(self).idx >= old(self).names@.len() ==> {
                &&& r is None
                &&& final(self).idx == old(self).idx
            },
            final(self).names@ == old(self).names@,
    {
        if self.idx < self.names.len() {
            let mut units: Vec<u16> = Vec::new();
            let source = &self.names[self.idx];
            let n = source.units.len();
            let mut i: usize = 0;
            while i < n
                invariant
                    i <= n,
                    n == source.units@.len(),
                    units@ == source.units@.subrange(0, i as int),
                decreases n - i,
            {
                units.push(source.units[i]);
                proof {
                    assert(units@ =~= source.units@.subrange(0, i + 1));
                }
                i = i + 1;
            }
            proof {
                assert(source.units@.subrange(0, n as int) =~= source.units@);
            }
            self.idx = self.idx + 1;
            Some(JSString { units })
        } else {
            None
        }
    }

    /// How many names are left to hand out.
    pub fn remaining(&self) -> (r: usize)
        ensures
            r == if self.idx <= self.names@.len() {
                self.names@.len() - self.idx
            } else {
                0int
            },
    {
        if self.idx <= self.names.len() {
            self.names.len() - self.idx
        } else {
            0
        }
    }
}

} // verus!

verus! {

/// In a property sequence laid out as an array's elements from position
/// `k`, the name `dec_chars(k + i)` finds exactly the property at `i`.
pub proof fn lemma_indexed_lookup(ps: Seq<(Seq<char>, JsVal)>, k: nat, i: int)
    requires
        crate::jsc::json::keys_are_indices(ps, k),
        0 <= i < ps.len(),
    ensures
        props_lookup(ps, crate::jsc::json::dec_chars((k + i) as nat)) == Some(ps[i].1),
    decreases i,
{
    if i == 0 {
    } else {
        assert(ps[0].0 != crate::jsc::json::dec_chars((k + i) as nat)) by {
            if ps[0].0 == crate::jsc::json::dec_chars((k + i) as nat) {
                crate::jsc::json::lemma_dec_chars_injective(k, (k + i) as nat);
            }
        }
        let tail = ps.subrange(1, ps.len() as int);
        lemma_indexed_lookup(tail, k + 1, i - 1);
        assert(tail[i - 1] == ps[i]);
    }
}

/// Reading an array by element index yields the element: in an array
/// whose property names are its element positions, as the engine lays
/// arrays out, the property named with an index's decimal string is the
/// element at that index.
pub proof fn lemma_array_element(o: crate::jsc::JsObj, i: nat)
    requires
        o.array,
        crate::jsc::json::keys_are_indices(o.props, 0),
        i < o.props.len(),
    ensures
        property_or_undefined(JsVal::Object(o), crate::jsc::json::dec_chars(i)) == o.props[i as int].1,
{
    lemma_indexed_lookup(o.props, 0, i as int);
}

} // verus!
