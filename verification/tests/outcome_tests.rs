use ul::jsc::base::{
    evaluate_outcome, indent_clamped, number_outcome, starting_line_clamped, syntax_outcome,
};
use ul::jsc::{JSContext, JSValue};
use ul::logfmt::{format_log_line, level_name, source_name};
use ul::settings::UltralightSettings;
use ul::{window_flags, NoneError};

#[test]
fn evaluate_outcome_follows_null_sentinel() {
    let ctx = JSContext::new();
    let result = JSValue::new_number(&ctx, 4.0f64.to_bits());
    let exception = JSValue::new_string(&ctx, "SyntaxError");

    let ok = evaluate_outcome(Some(result), JSValue::new_undefined(&ctx));
    assert_eq!(f64::from_bits(ok.unwrap().as_number().unwrap()), 4.0);

    let err = evaluate_outcome(None, exception);
    assert_eq!(err.unwrap_err().value.as_string().unwrap().to_string(), "SyntaxError");
}

#[test]
fn syntax_outcome_follows_pass_flag() {
    let ctx = JSContext::new();
    assert!(syntax_outcome(true, JSValue::new_undefined(&ctx)).is_ok());
    let e = syntax_outcome(false, JSValue::new_string(&ctx, "bad"));
    assert_eq!(e.unwrap_err().value.as_string().unwrap().to_string(), "bad");
}

#[test]
fn number_outcome_needs_nan_and_exception() {
    let ctx = JSContext::new();
    let nan = f64::NAN.to_bits();
    // NaN alone is a genuine NaN result
    assert_eq!(number_outcome(nan, None).unwrap(), nan);
    // NaN with a populated exception is the failure case
    assert!(number_outcome(nan, Some(JSValue::new_undefined(&ctx))).is_err());
    // a plain number passes through even when an exception value is around
    let four = 4.0f64.to_bits();
    assert_eq!(number_outcome(four, Some(JSValue::new_undefined(&ctx))).unwrap(), four);
}

#[test]
fn clamps() {
    assert_eq!(starting_line_clamped(1), 1);
    assert_eq!(starting_line_clamped(0), 1);
    assert_eq!(starting_line_clamped(-7), 1);
    assert_eq!(starting_line_clamped(42), 42);
    assert_eq!(indent_clamped(0), 0);
    assert_eq!(indent_clamped(10), 10);
    assert_eq!(indent_clamped(11), 10);
}

#[test]
fn window_flag_bits() {
    assert_eq!(window_flags(false, false, false, false), 0b0000);
    assert_eq!(window_flags(true, false, false, false), 0b0001);
    assert_eq!(window_flags(false, true, false, false), 0b0010);
    assert_eq!(window_flags(false, false, true, false), 0b0100);
    assert_eq!(window_flags(false, false, false, true), 0b1000);
    assert_eq!(window_flags(false, true, true, true), 0b1110);
    assert_eq!(window_flags(true, true, true, true), 0b1111);
}

#[test]
fn settings_builder() {
    let mut s = UltralightSettings::new();
    assert!(s.loadShadersFromFileSystem.is_none());
    assert!(s.fileSystemPath.is_none());
    s.loadShadersFromFileSystem(true);
    s.fileSystemPath("./assets".to_owned());
    assert_eq!(s.loadShadersFromFileSystem, Some(true));
    assert_eq!(s.fileSystemPath.as_deref(), Some("./assets"));
}

#[test]
fn none_error_is_comparable() {
    assert_eq!(NoneError {}, NoneError {});
}

#[test]
fn log_line_format() {
    assert_eq!(level_name(1), "log");
    assert_eq!(level_name(3), "error");
    assert_eq!(level_name(99), "unknown");
    assert_eq!(source_name(1), "js");
    assert_eq!(source_name(3), "consoleapi");
    assert_eq!(source_name(77), "unknown");
    let line = format_log_line(2, 1, "watch out", "app.js", 12, 3);
    assert_eq!(line, "[warning] [js] watch out (app.js:12:3)");
}
