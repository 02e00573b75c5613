use ul::helpers::{create_js_class, create_js_function, hook_of};
use ul::jsc::{JSContext, JSContextGroup};

#[test]
fn context_group() {
    let ctx = JSContext::new();
    let _g = ctx.group();
    // Nothing to do with g now...
}

#[test]
fn context_names() {
    let mut ctx = JSContext::new();
    assert!(ctx.name().is_none());

    ctx.set_name("test thread");
    assert_eq!(ctx.name().unwrap().to_string(), "test thread");
}

#[test]
fn group_creates_contexts() {
    let group = JSContextGroup::new();
    let ctx = group.new_context();
    assert!(ctx.name().is_none());
}

#[test]
fn context_with_class() {
    let mut minter = JSContext::new();
    let class = create_js_class(&mut minter, "Global", 7);
    let ctx = JSContext::new_with_class(&class);
    assert!(ctx.name().is_none());
    let ctx2 = JSContextGroup::new().new_context_with_class(&class);
    assert!(ctx2.name().is_none());
}

#[test]
fn function_object_carries_hook() {
    let mut ctx = JSContext::new();
    let class = create_js_class(&mut ctx, "callback", 42);
    let f = create_js_function(&mut ctx, &class);
    // the call hook recovers the closure handle from the private slot
    assert_eq!(hook_of(&f), Some(42));
    assert!(f.value.is_object());
    assert!(f.value.is_object_of_class(&class));
    // an object of another class does not match
    let other = create_js_class(&mut ctx, "other", 1);
    assert!(!f.value.is_object_of_class(&other));
}
