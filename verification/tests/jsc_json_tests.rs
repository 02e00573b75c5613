use ul::jsc::{JSContext, JSValue};

#[test]
fn json_boolean_true() {
    let mut ctx = JSContext::new();

    let v = JSValue::new_from_json(&mut ctx, "true").expect("value");
    assert_eq!(v.is_boolean(), true);
    assert_eq!(v.as_boolean(), true);
    assert_eq!(f64::from_bits(v.as_number().unwrap()), 1.0);
    let s = v.to_json_string(0).unwrap();
    assert_eq!(s.to_string(), "true");
}

#[test]
fn json_boolean_false() {
    let mut ctx = JSContext::new();

    let v = JSValue::new_from_json(&mut ctx, "false").expect("value");
    assert_eq!(v.is_boolean(), true);
    assert_eq!(v.as_boolean(), false);
    assert_eq!(f64::from_bits(v.as_number().unwrap()), 0.0);
    let s = v.to_json_string(0).unwrap();
    assert_eq!(s.to_string(), "false");
}

#[test]
fn json_number_0() {
    let mut ctx = JSContext::new();
    let v = JSValue::new_from_json(&mut ctx, "0").expect("value");
    assert_eq!(v.is_number(), true);
    assert_eq!(v.as_boolean(), false);
    assert_eq!(f64::from_bits(v.as_number().unwrap()), 0.0);
    let s = v.to_json_string(0).unwrap();
    assert_eq!(s.to_string(), "0");
}

#[test]
fn json_number_3() {
    let mut ctx = JSContext::new();

    let v = JSValue::new_from_json(&mut ctx, "3").expect("value");
    assert_eq!(v.is_number(), true);
    assert_eq!(v.as_boolean(), true);
    assert_eq!(f64::from_bits(v.as_number().unwrap()), 3.0);
    let s = v.to_json_string(0).unwrap();
    assert_eq!(s.to_string(), "3");
}

#[test]
fn json_string() {
    let mut ctx = JSContext::new();

    let v = JSValue::new_from_json(&mut ctx, "\"abc\"").expect("value");
    assert_eq!(v.is_string(), true);
    assert_eq!(v.as_boolean(), true);
    // NaN without a thrown exception is a successful coercion
    assert!(f64::from_bits(v.as_number().unwrap()).is_nan());
    let s = v.to_json_string(0).unwrap();
    assert_eq!(s.to_string(), "\"abc\"");
}

#[test]
fn json_string_number() {
    let mut ctx = JSContext::new();

    let v = JSValue::new_from_json(&mut ctx, "\"3\"").expect("value");
    assert_eq!(v.is_string(), true);
    assert_eq!(v.as_boolean(), true);
    assert_eq!(f64::from_bits(v.as_number().unwrap()), 3.0);
    let s = v.to_json_string(0).unwrap();
    assert_eq!(s.to_string(), "\"3\"");
}

#[test]
fn json_failure() {
    let mut ctx = JSContext::new();

    let v = JSValue::new_from_json(&mut ctx, "3 +");
    assert!(v.is_err());
}

#[test]
fn json_null_round_trip() {
    let mut ctx = JSContext::new();
    let v = JSValue::new_from_json(&mut ctx, "null").expect("value");
    assert!(v.is_null());
    assert_eq!(v.to_json_string(0).unwrap().to_string(), "null");
}

#[test]
fn json_object_round_trip() {
    let mut ctx = JSContext::new();
    let v = JSValue::new_from_json(&mut ctx, "{\"id\": 123, \"ok\": true}").expect("value");
    assert!(v.is_object());
    assert!(!v.is_array());
    assert_eq!(v.to_json_string(0).unwrap().to_string(), "{\"id\":123,\"ok\":true}");
}

#[test]
fn json_array_round_trip() {
    let mut ctx = JSContext::new();
    let v = JSValue::new_from_json(&mut ctx, "[3, true, \"abc\"]").expect("value");
    assert!(v.is_array());
    assert!(v.is_object());
    assert_eq!(v.to_json_string(0).unwrap().to_string(), "[3,true,\"abc\"]");
}

#[test]
fn json_negative_number() {
    let mut ctx = JSContext::new();
    let v = JSValue::new_from_json(&mut ctx, "-45").expect("value");
    assert_eq!(f64::from_bits(v.as_number().unwrap()), -45.0);
    assert_eq!(v.to_json_string(0).unwrap().to_string(), "-45");
}

#[test]
fn json_rejects_out_of_model_text() {
    let mut ctx = JSContext::new();
    // not JSON at all
    assert!(JSValue::new_from_json(&mut ctx, "").is_err());
    assert!(JSValue::new_from_json(&mut ctx, "tru").is_err());
    // unclosed array and duplicate keys
    assert!(JSValue::new_from_json(&mut ctx, "[1, 2").is_err());
    assert!(JSValue::new_from_json(&mut ctx, "{\"a\": 1, \"a\": 2}").is_err());
    // outside this model's number and string grammar
    assert!(JSValue::new_from_json(&mut ctx, "30.4").is_err());
    assert!(JSValue::new_from_json(&mut ctx, "-0").is_err());
    assert!(JSValue::new_from_json(&mut ctx, "\"a\\nb\"").is_err());
}

#[test]
fn json_serializer_edges() {
    let ctx = JSContext::new();
    // the undefined value does not serialize
    assert!(JSValue::new_undefined(&ctx).to_json_string(0).is_err());
    // a fraction has no rendering in this model
    assert!(JSValue::new_number(&ctx, 30.4f64.to_bits()).to_json_string(0).is_err());
    // NaN and the infinities render as null, as the engine renders them
    let nan = JSValue::new_number(&ctx, f64::NAN.to_bits());
    assert_eq!(nan.to_json_string(0).unwrap().to_string(), "null");
    // a string is escaped
    let quoted = JSValue::new_string(&ctx, "a\"b\\c");
    assert_eq!(quoted.to_json_string(0).unwrap().to_string(), "\"a\\\"b\\\\c\"");
    let control = JSValue::new_string(&ctx, "a\nb");
    assert_eq!(control.to_json_string(0).unwrap().to_string(), "\"a\\nb\"");
    // the indent is clamped; this model renders compactly at every indent
    let t = JSValue::new_boolean(&ctx, true);
    assert_eq!(t.to_json_string(99).unwrap().to_string(), "true");
}

#[test]
fn json_large_integers() {
    let mut ctx = JSContext::new();
    // the largest magnitudes a double holds exactly
    let v = JSValue::new_from_json(&mut ctx, "9007199254740991").expect("value");
    assert_eq!(f64::from_bits(v.as_number().unwrap()), 9007199254740991.0);
    assert_eq!(v.to_json_string(0).unwrap().to_string(), "9007199254740991");
    let w = JSValue::new_from_json(&mut ctx, "-9007199254740991").expect("value");
    assert_eq!(v.is_number(), true);
    assert_eq!(f64::from_bits(w.as_number().unwrap()), -9007199254740991.0);
    // 2^53 itself is already out of the model's exact range
    assert!(JSValue::new_from_json(&mut ctx, "9007199254740992").is_err());
}

#[test]
fn json_whitespace_between_tokens_only() {
    let mut ctx = JSContext::new();
    // whitespace between tokens is ignored; inside a string it stays
    let v = JSValue::new_from_json(&mut ctx, " {\t\"k\" :\n\"a b\" } ").expect("value");
    let o = v.as_object().expect("object");
    assert_eq!(o.get_property("k").as_string().unwrap().to_string(), "a b");
    assert_eq!(v.to_json_string(0).unwrap().to_string(), "{\"k\":\"a b\"}");
}
