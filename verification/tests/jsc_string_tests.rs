use ul::jsc::JSString;

#[test]
fn from_conversion() {
    let a: JSString = JSString::new_from_str("abc");
    let owned: String = "abc".to_owned();
    let b: JSString = JSString::new_from_str(&owned);
    assert!(a == a);
    assert!(a == b);
    assert!(b == b);

    let c: JSString = JSString::new_from_str("def");
    assert!(a != c);

    let d: JSString = JSString::new_from_str("abcdef");
    assert!(a != d);

    let e: String = d.to_string();
    assert_eq!(e, "abcdef");
}

#[test]
fn equality() {
    let a: JSString = JSString::new_from_str("abc");
    let s: String = "abc".to_owned();

    assert_eq!(a.to_string(), "abc");
    assert_eq!(a.to_string(), s);

    assert_eq!("abc", a.to_string());
    assert_eq!(s, a.to_string());
}

#[test]
fn round_trip_plain_text() {
    for text in ["", "a", "hello world", "tab\there"] {
        let js = JSString::new_from_str(text);
        assert_eq!(js.to_string(), text);
    }
}

#[test]
fn round_trip_beyond_basic_plane() {
    // characters outside the basic plane take a surrogate pair
    let text = "a\u{1F600}b\u{10FFFF}";
    let js = JSString::new_from_str(text);
    assert_eq!(js.to_string(), text);

    let bmp = "caf\u{e9} \u{4e2d}\u{6587}";
    let js2 = JSString::new_from_str(bmp);
    assert_eq!(js2.to_string(), bmp);
}

#[test]
fn units_are_utf16() {
    let js = JSString::new_from_str("a\u{1F600}");
    // 'a' is one unit, the emoji a surrogate pair
    assert_eq!(js.units, vec![0x0061u16, 0xd83d, 0xde00]);
}
