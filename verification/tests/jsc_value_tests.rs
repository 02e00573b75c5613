use ul::jsc::{JSContext, JSType, JSValue};

#[test]
fn strict_equality() {
    let ctx = JSContext::new();

    let m = JSValue::new_number(&ctx, 30.4f64.to_bits());
    let n = JSValue::new_number(&ctx, 30.4f64.to_bits());
    assert_eq!(m, n);

    let t = JSValue::new_boolean(&ctx, true);
    let f = JSValue::new_boolean(&ctx, false);
    let g = JSValue::new_boolean(&ctx, false);
    assert_eq!(f, g);
    assert_ne!(t, f);
}

#[test]
fn strict_equality_nan_and_zeroes() {
    let ctx = JSContext::new();

    let nan = JSValue::new_number(&ctx, f64::NAN.to_bits());
    let nan2 = JSValue::new_number(&ctx, f64::NAN.to_bits());
    assert_ne!(nan, nan2);

    let pz = JSValue::new_number(&ctx, 0.0f64.to_bits());
    let nz = JSValue::new_number(&ctx, (-0.0f64).to_bits());
    assert_eq!(pz, nz);
}

#[test]
fn undefined() {
    let ctx = JSContext::new();
    let vu = JSValue::new_undefined(&ctx);
    assert_eq!(vu.is_undefined(), true);
    assert_eq!(vu.is_null(), false);
    assert_eq!(vu.get_type(), JSType::Undefined);
    assert_eq!(vu.as_boolean(), false);
    assert_eq!(vu.as_string().unwrap().to_string(), "undefined");
}

#[test]
fn null() {
    let ctx = JSContext::new();
    let vn = JSValue::new_null(&ctx);
    assert_eq!(vn.is_null(), true);
    assert_eq!(vn.is_undefined(), false);
    assert_eq!(vn.get_type(), JSType::Null);
    assert_eq!(vn.as_boolean(), false);
    assert_eq!(vn.as_string().unwrap().to_string(), "null");
}

#[test]
fn boolean() {
    let ctx = JSContext::new();
    let vt = JSValue::new_boolean(&ctx, true);
    assert_eq!(vt.is_boolean(), true);
    assert_eq!(vt.is_null(), false);
    assert_eq!(vt.get_type(), JSType::Boolean);
    assert_eq!(vt.as_boolean(), true);
    assert_eq!(f64::from_bits(vt.as_number().unwrap()), 1.0);
    assert_eq!(vt.as_string().unwrap().to_string(), "true");

    let vf = JSValue::new_boolean(&ctx, false);
    assert_eq!(vf.is_boolean(), true);
    assert_eq!(vf.is_null(), false);
    assert_eq!(vf.get_type(), JSType::Boolean);
    assert_eq!(vf.as_boolean(), false);
    assert_eq!(f64::from_bits(vf.as_number().unwrap()), 0.0);
    assert_eq!(vf.as_string().unwrap().to_string(), "false");
}

#[test]
fn string() {
    let ctx = JSContext::new();
    let vs = JSValue::new_string(&ctx, "abc");
    assert_eq!(vs.is_string(), true);
    assert_eq!(vs.is_null(), false);
    assert_eq!(vs.get_type(), JSType::String);
    assert_eq!(vs.as_boolean(), true);
    // a coercion with a NaN result succeeds: failure would need a thrown
    // exception, which no conversion here can raise
    assert!(f64::from_bits(vs.as_number().unwrap()).is_nan());
    assert_eq!(vs.as_string().unwrap().to_string(), "abc");
}

#[test]
fn number_value() {
    let ctx = JSContext::new();
    let vn = JSValue::new_number(&ctx, 30.4f64.to_bits());
    assert_eq!(vn.is_number(), true);
    assert_eq!(vn.is_null(), false);
    assert_eq!(vn.get_type(), JSType::Number);
    assert_eq!(vn.as_boolean(), true);
    assert_eq!(f64::from_bits(vn.as_number().unwrap()), 30.4);
    // a fraction has no decimal rendering in this model
    assert!(vn.as_string().is_err());

    let vi = JSValue::new_number(&ctx, 42.0f64.to_bits());
    assert_eq!(vi.as_string().unwrap().to_string(), "42");
    let vm = JSValue::new_number(&ctx, (-7.0f64).to_bits());
    assert_eq!(vm.as_string().unwrap().to_string(), "-7");
    let nan = JSValue::new_number(&ctx, f64::NAN.to_bits());
    assert_eq!(nan.as_string().unwrap().to_string(), "NaN");
    assert!(f64::from_bits(nan.as_number().unwrap()).is_nan());
    let inf = JSValue::new_number(&ctx, f64::INFINITY.to_bits());
    assert_eq!(inf.as_string().unwrap().to_string(), "Infinity");
    let ninf = JSValue::new_number(&ctx, f64::NEG_INFINITY.to_bits());
    assert_eq!(ninf.as_string().unwrap().to_string(), "-Infinity");
}

#[test]
fn base_kind_predicates_exclusive() {
    let ctx = JSContext::new();
    let values = vec![
        JSValue::new_undefined(&ctx),
        JSValue::new_null(&ctx),
        JSValue::new_boolean(&ctx, true),
        JSValue::new_number(&ctx, 5.0f64.to_bits()),
        JSValue::new_string(&ctx, "abc"),
    ];
    for (i, v) in values.iter().enumerate() {
        let flags = [
            v.is_undefined(),
            v.is_null(),
            v.is_boolean(),
            v.is_number(),
            v.is_string(),
            v.is_object(),
        ];
        let set: usize = flags.iter().map(|b| *b as usize).sum();
        assert_eq!(set, 1);
        assert!(flags[i]);
    }
    assert!(JSValue::new_number(&ctx, 5.0f64.to_bits()).is_number());
    assert!(!JSValue::new_number(&ctx, 5.0f64.to_bits()).is_null());
}

#[test]
fn string_to_number_conversions() {
    let ctx = JSContext::new();
    let empty = JSValue::new_string(&ctx, "");
    assert_eq!(f64::from_bits(empty.as_number().unwrap()), 0.0);
    let digits = JSValue::new_string(&ctx, "007");
    assert_eq!(f64::from_bits(digits.as_number().unwrap()), 7.0);
    let negative = JSValue::new_string(&ctx, "-25");
    assert_eq!(f64::from_bits(negative.as_number().unwrap()), -25.0);
    let not_a_number = JSValue::new_string(&ctx, "12a");
    assert!(f64::from_bits(not_a_number.as_number().unwrap()).is_nan());
}

#[test]
fn object_and_array_to_string() {
    let mut ctx = JSContext::new();
    let obj = JSValue::new_from_json(&mut ctx, "{\"id\": 123}").expect("value");
    assert_eq!(obj.as_string().unwrap().to_string(), "[object Object]");
    assert!(f64::from_bits(obj.as_number().unwrap()).is_nan());

    let arr = JSValue::new_from_json(&mut ctx, "[3, true, \"abc\"]").expect("value");
    assert_eq!(arr.as_string().unwrap().to_string(), "3,true,abc");

    let nested = JSValue::new_from_json(&mut ctx, "[1, [2, null], {}]").expect("value");
    assert_eq!(nested.as_string().unwrap().to_string(), "1,2,,[object Object]");

    let empty = JSValue::new_from_json(&mut ctx, "[]").expect("value");
    assert_eq!(empty.as_string().unwrap().to_string(), "");

    // a fractional number anywhere leaves the value without a text here
    let fraction = JSValue::new_number(&ctx, 30.4f64.to_bits());
    assert!(fraction.as_string().is_err());
}
