//! Model of the script engine's dynamically typed value system.
//!
//! The native engine keeps every value behind an opaque pointer and answers
//! questions about it through foreign calls. This crate models the part of
//! that value system which the wrapper is responsible for: the base kind of
//! a value, the payload the host can observe, the string buffer type with
//! its UTF-16 encoding, and the execution context that mints object
//! identities. A value here carries its own data, so it stays meaningful for
//! as long as the host holds it; object identity is meaningful among the
//! values minted by one context.

use vstd::prelude::*;

pub mod base;
pub mod json;
pub mod object;
pub mod context;
pub mod contextgroup;
pub mod string;
pub mod value;

verus! {

/// A script value's base kind. Every value has exactly one.
///
/// Arrays and dates are objects, not kinds of their own: a value of kind
/// `Object` may in addition be an array or a date.
#[derive(Clone, Copy, PartialEq, Eq, Structural, Debug, Hash)]
pub enum JSType {
    Undefined,
    Null,
    Boolean,
    Number,
    String,
    Object,
}

/// A script class: a descriptor for objects with custom behavior.
///
/// An object built from a class that carries a call hook is callable as a
/// function; the hook is a handle into the callback registry, stored in the
/// private data slot of every object built from the class.
pub struct JSClass {
    /// The class name.
    pub name: String,
    /// Identity of this class, used by `is_object_of_class` tests.
    pub id: u64,
    /// Registry handle of the call hook, if the class has one.
    pub hook: Option<u64>,
}

/// A script execution context.
///
/// Holds the remote-debugging name and mints the identities of the objects
/// created through it.
pub struct JSContext {
    /// Remote debugging name, if one has been set.
    pub name: Option<String>,
    /// The next unused object identity.
    pub next_id: u64,
    /// Identity of the class the global object was built from, if any.
    pub global_class: Option<u64>,
}

/// A group of contexts that share one heap.
///
/// Values may be exchanged between contexts of one group and never across
/// groups. In this model a value carries its own data, so the group carries
/// no state of its own.
pub struct JSContextGroup {}

/// A wrapper for a [`JSValue`] that contains a thrown error.
///
/// Produced only as the error variant of fallible operations.
#[derive(Debug)]
pub struct JSException {
    /// The thrown value.
    pub value: JSValue,
}

/// A script object: a [`JSValue`] of kind object, with property access.
pub struct JSObject {
    /// The underlying value.
    pub value: JSValue,
}

/// A UTF-16 character buffer.
///
/// The fundamental string representation of the script engine, distinct
/// from a string-kinded [`JSValue`]. Conversion from and to the host's
/// UTF-8 strings walks the whole buffer.
pub struct JSString {
    /// The UTF-16 code units.
    pub units: Vec<u16>,
}

/// A script value: one base kind and the payload the host can observe.
#[derive(Debug)]
pub struct JSValue {
    /// The kind and payload.
    pub data: JSData,
}

/// The kind and payload of a script value.
#[derive(Debug)]
pub enum JSData {
    /// The unique `undefined` value.
    Undefined,
    /// The unique `null` value.
    Null,
    /// A boolean.
    Boolean(bool),
    /// A number, held as the bit pattern of an IEEE 754 double.
    Number(u64),
    /// A string, held as its decoded text.
    Str(String),
    /// An object.
    Object(JSObjectData),
}

/// The observable state of a script object.
#[derive(Debug)]
pub struct JSObjectData {
    /// Identity of the object among those minted by its context.
    pub id: u64,
    /// Whether the object is an array.
    pub array: bool,
    /// Whether the object is a date.
    pub date: bool,
    /// Identity of the class the object was built from, if any.
    pub class: Option<u64>,
    /// The private data slot: a callback registry handle for objects that
    /// are callable as functions.
    pub private: Option<u64>,
    /// The enumerable properties, in enumeration order.
    pub props: Vec<JSProperty>,
}

/// One named property of a script object.
#[derive(Debug)]
pub struct JSProperty {
    /// The property name.
    pub key: String,
    /// The property value.
    pub value: JSValue,
}

/// Mathematical model of a script value.
pub enum JsVal {
    Undefined,
    Null,
    Boolean(bool),
    Number(u64),
    Str(Seq<char>),
    Object(JsObj),
}

/// Mathematical model of a script object.
pub struct JsObj {
    pub id: u64,
    pub array: bool,
    pub date: bool,
    pub class: Option<u64>,
    pub private: Option<u64>,
    pub props: Seq<(Seq<char>, JsVal)>,
}

/// The mathematical value behind a [`JSData`].
pub open spec fn data_view(d: JSData) -> JsVal
    decreases d,
{
    match d {
        JSData::Undefined => JsVal::Undefined,
        JSData::Null => JsVal::Null,
        JSData::Boolean(b) => JsVal::Boolean(b),
        JSData::Number(bits) => JsVal::Number(bits),
        JSData::Str(s) => JsVal::Str(s@),
        JSData::Object(o) => JsVal::Object(
            JsObj {
                id: o.id,
                array: o.array,
                date: o.date,
                class: o.class,
                private: o.private,
                props: props_view(o.props@),
            },
        ),
    }
}

/// The mathematical value of each property in a property sequence.
pub open spec fn props_view(ps: Seq<JSProperty>) -> Seq<(Seq<char>, JsVal)>
    decreases ps,
{
    if ps.len() == 0 {
        Seq::empty()
    } else {
        seq![(ps[0].key@, data_view(ps[0].value.data))] + props_view(
            ps.subrange(1, ps.len() as int),
        )
    }
}

/// Structural height of a payload, used as the termination measure of the
/// functions that walk a value.
pub open spec fn data_height(d: JSData) -> nat
    decreases d,
{
    match d {
        JSData::Object(o) => 1 + props_height(o.props@),
        _ => 0,
    }
}

/// Structural height of a property sequence.
pub open spec fn props_height(ps: Seq<JSProperty>) -> nat
    decreases ps,
{
    if ps.len() == 0 {
        0
    } else {
        let h0 = 1 + data_height(ps[0].value.data);
        let hr = props_height(ps.subrange(1, ps.len() as int));
        if h0 > hr {
            h0
        } else {
            hr
        }
    }
}

/// A property sequence's model has one entry per property: the property's
/// name and its value's model.
pub proof fn lemma_props_view_index(ps: Seq<JSProperty>, i: int)
    requires
        0 <= i < ps.len(),
    ensures
        props_view(ps).len() == ps.len(),
        props_view(ps)[i] == (ps[i].key@, data_view(ps[i].value.data)),
    decreases ps,
{
    if i == 0 {
        lemma_props_view_len(ps);
    } else {
        lemma_props_view_len(ps);
        lemma_props_view_index(ps.subrange(1, ps.len() as int), i - 1);
        assert(ps.subrange(1, ps.len() as int)[i - 1] == ps[i]);
    }
}

/// A property sequence's model is as long as the sequence.
pub proof fn lemma_props_view_len(ps: Seq<JSProperty>)
    ensures
        props_view(ps).len() == ps.len(),
    decreases ps,
{
    if ps.len() > 0 {
        lemma_props_view_len(ps.subrange(1, ps.len() as int));
    }
}

/// Every property's value stands strictly below the height of the sequence
/// that holds it.
pub proof fn lemma_props_height_index(ps: Seq<JSProperty>, i: int)
    requires
        0 <= i < ps.len(),
    ensures
        data_height(ps[i].value.data) < props_height(ps),
    decreases ps,
{
    if i == 0 {
    } else {
        lemma_props_height_index(ps.subrange(1, ps.len() as int), i - 1);
        assert(ps.subrange(1, ps.len() as int)[i - 1] == ps[i]);
    }
}

impl View for JSValue {
    type V = JsVal;

    open spec fn view(&self) -> JsVal {
        data_view(self.data)
    }
}

impl View for JSObject {
    type V = JsVal;

    open spec fn view(&self) -> JsVal {
        self.value@
    }
}

impl View for JSString {
    type V = Seq<u16>;

    open spec fn view(&self) -> Seq<u16> {
        self.units@
    }
}

} // verus!
