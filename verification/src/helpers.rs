//! Building script objects that are callable as host functions.
//!
//! The engine's "call as function" hook receives only the function object,
//! its `this` value and the arguments — no side-channel data pointer. The
//! closure to run must therefore be found through the object itself: its
//! private data slot carries the closure's registry handle, put there when
//! the object was built. Recovering the handle from the object is a
//! different path from the data-pointer recovery of plain notifications,
//! and it stands here as its own function.

use vstd::prelude::*;

use crate::jsc::{JSClass, JSContext, JSData, JSObject, JSObjectData, JSValue, JsVal};

verus! {

/// Builds a class whose objects are callable through the registered
/// closure behind `hook_handle`.
pub fn create_js_class(ctx: &mut JSContext, name: &str, hook_handle: u64) -> (r: JSClass)
    ensures
        r.name@ == name@,
        r.hook == Some(hook_handle),
        r.id == old(ctx).next_id,
        old(ctx).next_id < 0xffff_ffff_ffff_ffff ==> final(ctx).next_id == old(ctx).next_id + 1,
        old(ctx).next_id == 0xffff_ffff_ffff_ffff ==> final(ctx).next_id == old(ctx).next_id,
        final(ctx).name == old(ctx).name,
        final(ctx).global_class == old(ctx).global_class,
{
    let id = ctx.next_id;
    if ctx.next_id < 0xffff_ffff_ffff_ffff {
        ctx.next_id = ctx.next_id + 1;
    }
    JSClass { name: name.to_owned(), id, hook: Some(hook_handle) }
}

/// Builds a function object: an object of the given class whose private
/// data slot carries the class's call-hook handle.
pub fn create_js_function(ctx: &mut JSContext, js_class: &JSClass) -> (r: JSObject)
    ensures
        r@ matches JsVal::Object(o) && {
            &&& o.id == old(ctx).next_id
            &&& o.private == js_class.hook
            &&& o.class == Some(js_class.id)
            &&& !o.array
            &&& !o.date
            &&& o.props.len() == 0
        },
        old(ctx).next_id < 0xffff_ffff_ffff_ffff ==> final(ctx).next_id == old(ctx).next_id + 1,
        old(ctx).next_id == 0xffff_ffff_ffff_ffff ==> final(ctx).next_id == old(ctx).next_id,
        final(ctx).name == old(ctx).name,
        final(ctx).global_class == old(ctx).global_class,
{
    let id = ctx.next_id;
    if ctx.next_id < 0xffff_ffff_ffff_ffff {
        ctx.next_id = ctx.next_id + 1;
    }
    proof {
        assert(crate::jsc::props_view(Seq::empty()) =~= Seq::<(Seq<char>, JsVal)>::empty());
    }
    JSObject {
        value: JSValue {
            data: JSData::Object(
                JSObjectData {
                    id,
                    array: false,
                    date: false,
                    class: Some(js_class.id),
                    private: js_class.hook,
                    props: Vec::new(),
                },
            ),
        },
    }
}

/// Recovers the callback handle of a function object from its private
/// data slot — the only input the engine's call hook receives.
pub fn hook_of(function_object: &JSObject) -> (r: Option<u64>)
    ensures
        r == (match function_object@ {
            JsVal::Object(o) => o.private,
            _ => None,
        }),
{
    match &function_object.value.data {
        JSData::Object(o) => o.private,
        _ => None,
    }
}

} // verus!
