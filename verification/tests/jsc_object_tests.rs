use ul::jsc::{JSContext, JSValue};

#[test]
fn can_has_property() {
    let mut ctx = JSContext::new();
    let v = JSValue::new_from_json(&mut ctx, "{\"id\": 123}").expect("value");
    let o = v.as_object().expect("object");
    assert!(o.has_property("id"));
    assert!(o.has_property("no-such-value") == false);
}

#[test]
fn can_get_property() {
    let mut ctx = JSContext::new();
    let v = JSValue::new_from_json(&mut ctx, "{\"id\": 123}").expect("value");
    let o = v.as_object().expect("object");
    assert!(o.get_property("id").is_number());
    assert!(o.get_property("no-such-value").is_undefined());
}

#[test]
fn can_get_property_at_index() {
    let mut ctx = JSContext::new();
    let v = JSValue::new_from_json(&mut ctx, "[3, true, \"abc\"]").expect("value");
    let o = v.as_object().expect("object");
    assert!(o.get_property_at_index(0).is_number());
    assert!(o.get_property_at_index(1).is_boolean());
    assert!(o.get_property_at_index(2).is_string());
    assert!(o.get_property_at_index(5).is_undefined());
}

#[test]
fn can_get_property_names() {
    let mut ctx = JSContext::new();
    let v = JSValue::new_from_json(&mut ctx, "{\"id\": 123}").expect("value");
    let o = v.as_object().expect("object");
    let mut names = Vec::new();
    let mut iter = o.property_names();
    while let Some(name) = iter.next() {
        names.push(name);
    }
    assert_eq!(names.len(), 1);
    assert_eq!(names[0].to_string(), "id");
}

#[test]
fn can_use_as_jsvalue_via_deref() {
    let mut ctx = JSContext::new();
    let v = JSValue::new_from_json(&mut ctx, "{\"id\": 123}").expect("value");
    let o = v.as_object().expect("object");
    assert!(v.is_object());
    assert!(o.value.is_object());
}

#[test]
fn property_values_read_back() {
    let mut ctx = JSContext::new();
    let v = JSValue::new_from_json(&mut ctx, "{\"id\": 123}").expect("value");
    let o = v.as_object().expect("object");
    assert!(o.has_property("id") == true);
    assert_eq!(f64::from_bits(o.get_property("id").as_number().unwrap()), 123.0);
    assert!(o.get_property("no-such-value").is_undefined());
}

#[test]
fn array_elements_read_back() {
    let mut ctx = JSContext::new();
    let v = JSValue::new_from_json(&mut ctx, "[3, true, \"abc\"]").expect("value");
    let o = v.as_object().expect("object");
    assert_eq!(f64::from_bits(o.get_property_at_index(0).as_number().unwrap()), 3.0);
    assert_eq!(o.get_property_at_index(1).as_boolean(), true);
    assert_eq!(o.get_property_at_index(2).as_string().unwrap().to_string(), "abc");
}

#[test]
fn index_reads_numeric_string_keys() {
    let mut ctx = JSContext::new();
    let v = JSValue::new_from_json(&mut ctx, "{\"a\": 3, \"1\": true, \"2\": \"abc\"}")
        .expect("value");
    let o = v.as_object().expect("object");
    assert!(o.get_property_at_index(0).is_undefined());
    assert_eq!(o.get_property_at_index(1).as_boolean(), true);
    assert_eq!(o.get_property_at_index(2).as_string().unwrap().to_string(), "abc");
}

#[test]
fn objects_compare_by_identity() {
    let mut ctx = JSContext::new();
    let v = JSValue::new_from_json(&mut ctx, "{\"id\": 123}").expect("value");
    let w = JSValue::new_from_json(&mut ctx, "{\"id\": 123}").expect("value");
    // two separately built objects are not strictly equal
    assert_ne!(v, w);
    // but a value and the object read from it are the same object
    let o = v.as_object().expect("object");
    assert_eq!(o.value, v);
}

#[test]
fn only_undefined_and_null_do_not_convert() {
    let ctx = JSContext::new();
    assert!(JSValue::new_undefined(&ctx).as_object().is_err());
    assert!(JSValue::new_null(&ctx).as_object().is_err());
    // the other primitives coerce to wrapper objects
    let b = JSValue::new_boolean(&ctx, true).as_object().unwrap();
    assert!(b.value.is_boolean());
    let s = JSValue::new_string(&ctx, "abc").as_object().unwrap();
    // a wrapper built from a primitive carries the original value and has
    // no enumerable property in this model
    assert!(!s.has_property("length"));
    assert!(s.get_property("0").is_undefined());
}

#[test]
fn property_name_walk_counts_down() {
    let mut ctx = JSContext::new();
    let v = JSValue::new_from_json(&mut ctx, "{\"a\": 1, \"b\": 2}").expect("value");
    let o = v.as_object().expect("object");
    let mut iter = o.property_names();
    assert_eq!(iter.remaining(), 2);
    assert_eq!(iter.next().unwrap().to_string(), "a");
    assert_eq!(iter.remaining(), 1);
    assert_eq!(iter.next().unwrap().to_string(), "b");
    assert_eq!(iter.remaining(), 0);
    assert!(iter.next().is_none());
}

#[test]
fn arrays_and_dates_are_objects() {
    let mut ctx = JSContext::new();
    let arr = JSValue::new_from_json(&mut ctx, "[1]").expect("value");
    assert!(arr.is_array() && arr.is_object() && !arr.is_date());
    let num = JSValue::new_number(&ctx, 1.0f64.to_bits());
    assert!(!num.is_array() && !num.is_date() && !num.is_object());
}
