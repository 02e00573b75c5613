//! Constructing script values and asking for their kind.

use vstd::prelude::*;

use crate::jsc::{data_height, data_view, lemma_props_height_index, props_view, JSException, JSString, JSClass, JSContext, JSData, JSObjectData, JSProperty, JSType, JSValue, JsVal};

verus! {

/// True when the bit pattern is an IEEE 754 double NaN.
pub open spec fn nan_bits(b: u64) -> bool {
    (b >> 52) & 0x7ff == 0x7ff && b & 0xf_ffff_ffff_ffff != 0
}

/// True when the bit pattern is an IEEE 754 double zero, of either sign.
pub open spec fn zero_bits(b: u64) -> bool {
    b == 0 || b == 0x8000_0000_0000_0000u64
}

/// The base kind of a modeled value.
pub open spec fn kind_of(v: JsVal) -> JSType {
    match v {
        JsVal::Undefined => JSType::Undefined,
        JsVal::Null => JSType::Null,
        JsVal::Boolean(_) => JSType::Boolean,
        JsVal::Number(_) => JSType::Number,
        JsVal::Str(_) => JSType::String,
        JsVal::Object(_) => JSType::Object,
    }
}

impl JSValue {
    /// Creates the `undefined` value.
    pub fn new_undefined(ctx: &JSContext) -> (v: Self)
        ensures
            v@ == JsVal::Undefined,
    {
        JSValue { data: JSData::Undefined }
    }

    /// Creates the `null` value.
    pub fn new_null(ctx: &JSContext) -> (v: Self)
        ensures
            v@ == JsVal::Null,
    {
        JSValue { data: JSData::Null }
    }

    /// Creates a value of the boolean kind holding `boolean`.
    pub fn new_boolean(ctx: &JSContext, boolean: bool) -> (v: Self)
        ensures
            v@ == JsVal::Boolean(boolean),
    {
        JSValue { data: JSData::Boolean(boolean) }
    }

    /// Creates a value of the number kind from the bit pattern of an
    /// IEEE 754 double.
    pub fn new_number(ctx: &JSContext, number_bits: u64) -> (v: Self)
        ensures
            v@ == JsVal::Number(number_bits),
    {
        JSValue { data: JSData::Number(number_bits) }
    }

    /// Creates a value of the string kind holding the text of `string`.
    pub fn new_string(ctx: &JSContext, string: &str) -> (v: Self)
        ensures
            v@ == JsVal::Str(string@),
    {
        JSValue { data: JSData::Str(string.to_owned()) }
    }

    /// Returns the value's base kind.
    pub fn get_type(&self) -> (t: JSType)
        ensures
            t == kind_of(self@),
    {
        match &self.data {
            JSData::Undefined => JSType::Undefined,
            JSData::Null => JSType::Null,
            JSData::Boolean(_) => JSType::Boolean,
            JSData::Number(_) => JSType::Number,
            JSData::Str(_) => JSType::String,
            JSData::Object(_) => JSType::Object,
        }
    }

    /// Tests whether the value's kind is `undefined`.
    pub fn is_undefined(&self) -> (r: bool)
        ensures
            r == (kind_of(self@) == JSType::Undefined),
    {
        matches!(&self.data, JSData::Undefined)
    }

    /// Tests whether the value's kind is `null`.
    pub fn is_null(&self) -> (r: bool)
        ensures
            r == (kind_of(self@) == JSType::Null),
    {
        matches!(&self.data, JSData::Null)
    }

    /// Tests whether the value's kind is `boolean`.
    pub fn is_boolean(&self) -> (r: bool)
        ensures
            r == (kind_of(self@) == JSType::Boolean),
    {
        matches!(&self.data, JSData::Boolean(_))
    }

    /// Tests whether the value's kind is `number`.
    pub fn is_number(&self) -> (r: bool)
        ensures
            r == (kind_of(self@) == JSType::Number),
    {
        matches!(&self.data, JSData::Number(_))
    }

    /// Tests whether the value's kind is `string`.
    pub fn is_string(&self) -> (r: bool)
        ensures
            r == (kind_of(self@) == JSType::String),
    {
        matches!(&self.data, JSData::Str(_))
    }

    /// Tests whether the value's kind is `object`.
    pub fn is_object(&self) -> (r: bool)
        ensures
            r == (kind_of(self@) == JSType::Object),
    {
        matches!(&self.data, JSData::Object(_))
    }

    /// Tests whether the value is an object built from the given class.
    pub fn is_object_of_class(&self, js_class: &JSClass) -> (r: bool)
        ensures
            r == (self@ matches JsVal::Object(o) && o.class == Some(js_class.id)),
    {
        match &self.data {
            JSData::Object(o) => o.class == Some(js_class.id),
            _ => false,
        }
    }

    /// Tests whether the value is an array.
    pub fn is_array(&self) -> (r: bool)
        ensures
            r == (self@ matches JsVal::Object(o) && o.array),
    {
        match &self.data {
            JSData::Object(o) => o.array,
            _ => false,
        }
    }

    /// Tests whether the value is a date.
    pub fn is_date(&self) -> (r: bool)
        ensures
            r == (self@ matches JsVal::Object(o) && o.date),
    {
        match &self.data {
            JSData::Object(o) => o.date,
            _ => false,
        }
    }
}

/// Strict (`===`) equality of two modeled values.
///
/// Numbers compare by numeric value: NaN equals nothing, the two zeroes
/// equal each other. Strings compare by content. Objects compare by
/// identity. Values of different base kinds are never strictly equal.
pub open spec fn strict_eq_spec(a: JsVal, b: JsVal) -> bool {
    match (a, b) {
        (JsVal::Undefined, JsVal::Undefined) => true,
        (JsVal::Null, JsVal::Null) => true,
        (JsVal::Boolean(x), JsVal::Boolean(y)) => x == y,
        (JsVal::Number(x), JsVal::Number(y)) => number_strict_eq(x, y),
        (JsVal::Str(x), JsVal::Str(y)) => x == y,
        (JsVal::Object(x), JsVal::Object(y)) => x.id == y.id,
        _ => false,
    }
}

/// Strict equality of two numbers given as IEEE 754 bit patterns.
pub open spec fn number_strict_eq(x: u64, y: u64) -> bool {
    &&& !nan_bits(x)
    &&& !nan_bits(y)
    &&& (x == y || (zero_bits(x) && zero_bits(y)))
}

/// The boolean a modeled value converts to.
///
/// `undefined`, `null`, NaN, the zeroes and the empty string convert to
/// `false`; everything else converts to `true`.
pub open spec fn to_boolean_spec(v: JsVal) -> bool {
    match v {
        JsVal::Undefined => false,
        JsVal::Null => false,
        JsVal::Boolean(b) => b,
        JsVal::Number(bits) => !zero_bits(bits) && !nan_bits(bits),
        JsVal::Str(s) => s.len() > 0,
        JsVal::Object(_) => true,
    }
}

impl JSValue {
    /// Converts the value to a boolean. This conversion cannot fail.
    pub fn as_boolean(&self) -> (r: bool)
        ensures
            r == to_boolean_spec(self@),
    {
        match &self.data {
            JSData::Undefined => false,
            JSData::Null => false,
            JSData::Boolean(b) => *b,
            JSData::Number(bits) => {
                let b = *bits;
                !(b == 0 || b == 0x8000_0000_0000_0000u64 || ((b >> 52) & 0x7ff == 0x7ff
                    && b & 0xf_ffff_ffff_ffff != 0))
            },
            JSData::Str(s) => s.as_str().unicode_len() > 0,
            JSData::Object(_) => true,
        }
    }
}

/// Tests whether a bit pattern is an IEEE 754 double NaN.
pub(crate) fn bits_is_nan(b: u64) -> (r: bool)
    ensures
        r == nan_bits(b),
{
    (b >> 52) & 0x7ff == 0x7ff && b & 0xf_ffff_ffff_ffff != 0
}

/// Tests whether a bit pattern is an IEEE 754 double zero of either sign.
pub(crate) fn bits_is_zero(b: u64) -> (r: bool)
    ensures
        r == zero_bits(b),
{
    b == 0 || b == 0x8000_0000_0000_0000u64
}

impl PartialEq for JSValue {
    /// Strict (`===`) equality; see [`strict_eq_spec`].
    fn eq(&self, other: &JSValue) -> (r: bool)
        ensures
            r == strict_eq_spec(self@, other@),
    {
        let r = match (&self.data, &other.data) {
            (JSData::Undefined, JSData::Undefined) => true,
            (JSData::Null, JSData::Null) => true,
            (JSData::Boolean(x), JSData::Boolean(y)) => *x == *y,
            (JSData::Number(x), JSData::Number(y)) => !bits_is_nan(*x) && !bits_is_nan(*y) && (*x
                == *y || (bits_is_zero(*x) && bits_is_zero(*y))),
            (JSData::Str(x), JSData::Str(y)) => *x == *y,
            (JSData::Object(x), JSData::Object(y)) => x.id == y.id,
            _ => false,
        };
        r
    }
}

impl vstd::std_specs::cmp::PartialEqSpecImpl for JSValue {
    open spec fn obeys_eq_spec() -> bool {
        true
    }

    open spec fn eq_spec(&self, other: &JSValue) -> bool {
        strict_eq_spec(self@, other@)
    }
}

/// Strict equality is reflexive for every value but a NaN number, which
/// equals nothing, itself included.
pub proof fn lemma_strict_equality_reflexive(v: JsVal)
    requires
        !(v matches JsVal::Number(b) && nan_bits(b)),
    ensures
        strict_eq_spec(v, v),
{
}

/// Strict equality is symmetric.
pub proof fn lemma_strict_equality_symmetric(a: JsVal, b: JsVal)
    ensures
        strict_eq_spec(a, b) == strict_eq_spec(b, a),
{
}

/// Every value has exactly one base kind: the predicate for its kind holds
/// and the predicates for the five other base kinds are false. Being an
/// array or a date is membership in the object kind, not a kind of its own.
pub proof fn lemma_base_kind_exclusive(v: JsVal)
    ensures
        ({
            let k = kind_of(v);
            (if k == JSType::Undefined { 1int } else { 0int }) + (if k == JSType::Null {
                1int
            } else {
                0int
            }) + (if k == JSType::Boolean { 1int } else { 0int }) + (if k == JSType::Number {
                1int
            } else {
                0int
            }) + (if k == JSType::String { 1int } else { 0int }) + (if k == JSType::Object {
                1int
            } else {
                0int
            }) == 1
        }),
        (v matches JsVal::Object(o) && o.array) ==> kind_of(v) == JSType::Object,
        (v matches JsVal::Object(o) && o.date) ==> kind_of(v) == JSType::Object,
{
}

/// Returns a value equal, in the model, to the given one.
pub fn dup_value(v: &JSValue) -> (r: JSValue)
    ensures
        r@ == v@,
{
    JSValue { data: dup_data(&v.data) }
}

/// Returns a payload equal, in the model, to the given one.
fn dup_data(d: &JSData) -> (r: JSData)
    ensures
        data_view(r) == data_view(*d),
    decreases data_height(*d),
{
    match d {
        JSData::Undefined => JSData::Undefined,
        JSData::Null => JSData::Null,
        JSData::Boolean(b) => JSData::Boolean(*b),
        JSData::Number(bits) => JSData::Number(*bits),
        JSData::Str(s) => JSData::Str(s.clone()),
        JSData::Object(o) => {
            let mut props: Vec<JSProperty> = Vec::new();
            let mut i: usize = 0;
            while i < o.props.len()
                invariant
                    i <= o.props.len(),
                    props_view(props@) == props_view(o.props@.subrange(0, i as int)),
                    props@.len() == i,
                    *d matches JSData::Object(oo) && oo.props == o.props,
                decreases o.props.len() - i,
            {
                proof {
                    lemma_props_height_index(o.props@, i as int);
                }
                let ghost prev = props@;
                let p = JSProperty {
                    key: o.props[i].key.clone(),
                    value: JSValue { data: dup_data(&o.props[i].value.data) },
                };
                props.push(p);
                proof {
                    lemma_props_view_push(prev, p);
                    lemma_props_view_push(o.props@.subrange(0, i as int), o.props@[i as int]);
                    assert(o.props@.subrange(0, i as int).push(o.props@[i as int]) =~= o.props@
                        .subrange(0, i + 1));
                }
                i = i + 1;
            }
            proof {
                assert(o.props@.subrange(0, o.props@.len() as int) =~= o.props@);
            }
            JSData::Object(
                JSObjectData {
                    id: o.id,
                    array: o.array,
                    date: o.date,
                    class: o.class,
                    private: o.private,
                    props,
                },
            )
        },
    }
}

/// Appending a property to a sequence appends its model to the sequence's
/// model.
pub proof fn lemma_props_view_push(ps: Seq<JSProperty>, p: JSProperty)
    ensures
        props_view(ps.push(p)) == props_view(ps).push((p.key@, data_view(p.value.data))),
    decreases ps,
{
    if ps.len() == 0 {
        assert(ps.push(p).subrange(1, ps.push(p).len() as int) =~= Seq::<JSProperty>::empty());
        assert(ps.push(p)[0] == p);
        assert(props_view(ps) =~= Seq::<(Seq<char>, JsVal)>::empty());
        reveal_with_fuel(props_view, 2);
        assert(props_view(ps.push(p)) =~~= props_view(ps).push((p.key@, data_view(p.value.data))));
    } else {
        let tail = ps.subrange(1, ps.len() as int);
        assert(ps.push(p).subrange(1, ps.push(p).len() as int) =~= tail.push(p));
        lemma_props_view_push(tail, p);
        assert(ps.push(p)[0] == ps[0]);
        assert(props_view(ps.push(p)) == seq![(ps[0].key@, data_view(ps[0].value.data))]
            + props_view(tail).push((p.key@, data_view(p.value.data))));
        assert(props_view(ps.push(p)) =~= props_view(ps).push((p.key@, data_view(p.value.data))));
    }
}

} // verus!

verus! {

/// The numeric value of a decimal digit character; any other character
/// maps to ten.
pub open spec fn digit_val(c: char) -> nat {
    if c == '0' {
        0
    } else if c == '1' {
        1
    } else if c == '2' {
        2
    } else if c == '3' {
        3
    } else if c == '4' {
        4
    } else if c == '5' {
        5
    } else if c == '6' {
        6
    } else if c == '7' {
        7
    } else if c == '8' {
        8
    } else if c == '9' {
        9
    } else {
        10
    }
}

/// True when every character of the text is a decimal digit.
pub open spec fn all_digits(s: Seq<char>) -> bool {
    forall|j: int| 0 <= j < s.len() ==> digit_val(#[trigger] s[j]) < 10
}

/// The number a text of decimal digits denotes.
pub open spec fn digits_val(s: Seq<char>) -> nat
    decreases s.len(),
{
    if s.len() == 0 {
        0
    } else {
        digits_val(s.subrange(0, s.len() - 1)) * 10 + digit_val(s[s.len() - 1])
    }
}

/// The bit pattern of the number a text converts to: the empty text
/// converts to zero, a text of digits with an optional leading minus to
/// the integer it denotes when its magnitude stays below 2^53, and
/// anything else to NaN.
pub open spec fn str_number_bits(s: Seq<char>) -> u64 {
    if s.len() == 0 {
        0
    } else if all_digits(s) && digits_val(s) < 0x20000000000000 {
        crate::jsc::json::bits_of_int(digits_val(s) as int)
    } else if s[0] == '-' && s.len() >= 2 && all_digits(s.subrange(1, s.len() as int))
        && digits_val(s.subrange(1, s.len() as int)) < 0x20000000000000 {
        if digits_val(s.subrange(1, s.len() as int)) == 0 {
            0x8000_0000_0000_0000u64
        } else {
            crate::jsc::json::bits_of_int(-(digits_val(s.subrange(1, s.len() as int)) as int))
        }
    } else {
        0x7ff8_0000_0000_0000u64
    }
}

/// The bit pattern of the number a value converts to. `undefined`, and in
/// this model any object, converts to NaN; `null` and `false` to zero,
/// `true` to one; a string per [`str_number_bits`].
pub open spec fn to_number_spec(v: JsVal) -> u64 {
    match v {
        JsVal::Undefined => 0x7ff8_0000_0000_0000u64,
        JsVal::Null => 0,
        JsVal::Boolean(b) => if b {
            0x3ff0_0000_0000_0000u64
        } else {
            0
        },
        JsVal::Number(b) => b,
        JsVal::Str(s) => str_number_bits(s),
        JsVal::Object(_) => 0x7ff8_0000_0000_0000u64,
    }
}

/// Computes the bit pattern a text of digits converts to.
#[verifier::rlimit(60)]
fn str_digits_bits(s: &str, start: usize, neg: bool) -> (r: u64)
    requires
        start <= s@.len(),
        neg ==> (start == 1 && s@.len() >= 1 && s@[0] == '-'),
        !neg ==> (start == 0 && s@.len() >= 1 && s@[0] != '-'),
        s@.len() > start,
    ensures
        r == str_number_bits(s@),
{
    let n = s.unicode_len();
    let ghost digits = s@.subrange(start as int, n as int);
    let mut val: u64 = 0;
    let mut sat = false;
    let mut j = start;
    proof {
        assert(s@.subrange(start as int, start as int) =~= Seq::<char>::empty());
    }
    while j < n
        invariant
            start <= j <= n,
            n == s@.len(),
            start <= 1,
            neg ==> (start == 1 && n >= 1 && s@[0] == '-'),
            !neg ==> (start == 0 && n >= 1 && s@[0] != '-'),
            digits == s@.subrange(start as int, n as int),
            all_digits(s@.subrange(start as int, j as int)),
            !sat ==> (val == digits_val(s@.subrange(start as int, j as int)) && val
                < 0x20000000000000),
            sat ==> digits_val(s@.subrange(start as int, j as int)) >= 0x20000000000000,
        decreases n - j,
    {
        let c = s.get_char(j);
        let ghost prefix = s@.subrange(start as int, j as int);
        proof {
            assert(s@.subrange(start as int, j + 1) =~= prefix.push(s@[j as int]));
            assert(s@.subrange(start as int, j + 1).subrange(0, j - start as int) =~= prefix);
        }
        let d = match crate::jsc::json::char_digit(c) {
            Some(d) => d,
            None => {
                proof {
                    assert(digits[j - start] == s@[j as int]);
                    assert(digit_val(c) >= 10) by {
                        if digit_val(c) < 10 {
                            assert(c == crate::jsc::json::dec_digit(digit_val(c)));
                        }
                    }
                    assert(!all_digits(digits));
                    if !neg {
                        assert(s@.subrange(0, n as int) =~= s@);
                        assert(!all_digits(s@));
                    } else {
                        assert(digit_val(s@[0]) == 10);
                        assert(!all_digits(s@));
                    }
                    assert(str_number_bits(s@) == 0x7ff8_0000_0000_0000u64);
                }
                return 0x7ff8_0000_0000_0000;
            },
        };
        proof {
            assert(digit_val(c) == d);
        }
        if sat {
            proof {
                assert(digits_val(s@.subrange(start as int, j + 1)) == digits_val(prefix) * 10
                    + digit_val(s@[j as int]));
                assert(digits_val(prefix) * 10 >= digits_val(prefix)) by (nonlinear_arith)
                    requires
                        digits_val(prefix) >= 0
                ;
            }
        } else if val > (0x1f_ffff_ffff_ffff - d) / 10 {
            proof {
                vstd::arithmetic::div_mod::lemma_fundamental_div_mod(
                    (0x1f_ffff_ffff_ffff - d) as int,
                    10,
                );
                assert(val * 10 + d > 0x1f_ffff_ffff_ffff) by (nonlinear_arith)
                    requires
                        val >= (0x1f_ffff_ffff_ffff - d) as int / 10 + 1,
                        (0x1f_ffff_ffff_ffff - d) as int == 10 * ((0x1f_ffff_ffff_ffff - d) as int
                            / 10) + ((0x1f_ffff_ffff_ffff - d) as int % 10),
                        0 <= ((0x1f_ffff_ffff_ffff - d) as int % 10) < 10
                ;
                assert(digits_val(s@.subrange(start as int, j + 1)) == digits_val(prefix) * 10
                    + digit_val(s@[j as int]));
            }
            sat = true;
        } else {
            proof {
                vstd::arithmetic::div_mod::lemma_fundamental_div_mod(
                    (0x1f_ffff_ffff_ffff - d) as int,
                    10,
                );
                assert(val * 10 <= 0x1f_ffff_ffff_ffff - d) by (nonlinear_arith)
                    requires
                        val <= (0x1f_ffff_ffff_ffff - d) as int / 10,
                        (0x1f_ffff_ffff_ffff - d) as int == 10 * ((0x1f_ffff_ffff_ffff - d) as int
                            / 10) + ((0x1f_ffff_ffff_ffff - d) as int % 10),
                        0 <= ((0x1f_ffff_ffff_ffff - d) as int % 10) < 10
                ;
                assert(digits_val(s@.subrange(start as int, j + 1)) == digits_val(prefix) * 10
                    + digit_val(s@[j as int]));
            }
            val = val * 10 + d;
        }
        j = j + 1;
    }
    proof {
        assert(s@.subrange(start as int, n as int) =~= digits);
        if !neg {
            assert(s@.subrange(0, n as int) =~= s@);
        } else {
            assert(digit_val(s@[0]) == 10);
            assert(!all_digits(s@));
        }
    }
    if sat {
        proof {
            if !neg {
                assert(!(all_digits(s@) && digits_val(s@) < 0x20000000000000));
            }
            assert(str_number_bits(s@) == 0x7ff8_0000_0000_0000u64);
        }
        0x7ff8_0000_0000_0000
    } else if neg {
        if val == 0 {
            proof {
                assert(str_number_bits(s@) == 0x8000_0000_0000_0000u64);
            }
            0x8000_0000_0000_0000
        } else {
            let r = crate::jsc::json::pos_bits(val) + 0x8000_0000_0000_0000;
            proof {
                assert(str_number_bits(s@) == crate::jsc::json::bits_of_int(-(val as int)));
                assert(r == crate::jsc::json::bits_of_int(-(val as int)));
            }
            r
        }
    } else {
        if val == 0 {
            proof {
                assert(str_number_bits(s@) == crate::jsc::json::bits_of_int(0));
            }
            0
        } else {
            let r = crate::jsc::json::pos_bits(val);
            proof {
                assert(str_number_bits(s@) == crate::jsc::json::bits_of_int(val as int));
            }
            r
        }
    }
}

impl JSValue {
    /// Converts the value to a number, returned as the bit pattern of an
    /// IEEE 754 double.
    ///
    /// The native convention reports failure only when the coercion ran
    /// user code that threw, signalled by a populated exception
    /// out-parameter beside a NaN result; a NaN result alone is a
    /// successful coercion that returned NaN. In this model no user
    /// conversion code runs, so no exception can arise and the coercion
    /// always succeeds — a NaN result, for a value that holds NaN or has
    /// no numeric reading, comes back as `Ok`.
    pub fn as_number(&self) -> (r: Result<u64, JSException>)
        ensures
            r matches Ok(b) && b == to_number_spec(self@),
    {
        let bits: u64 = match &self.data {
            JSData::Undefined => 0x7ff8_0000_0000_0000,
            JSData::Null => 0,
            JSData::Boolean(b) => if *b {
                0x3ff0_0000_0000_0000
            } else {
                0
            },
            JSData::Number(b) => *b,
            JSData::Str(s) => {
                let n = s.as_str().unicode_len();
                if n == 0 {
                    0
                } else {
                    let neg = s.as_str().get_char(0) == '-';
                    if neg && n == 1 {
                        proof {
                            assert(digit_val(s@[0]) >= 10);
                            assert(!all_digits(s@));
                        }
                        0x7ff8_0000_0000_0000
                    } else {
                        let start: usize = if neg {
                            1
                        } else {
                            0
                        };
                        str_digits_bits(s.as_str(), start, neg)
                    }
                }
            },
            JSData::Object(_) => 0x7ff8_0000_0000_0000,
        };
        Ok(bits)
    }
}

} // verus!

verus! {

/// The text a value converts to, where this model renders one.
///
/// The primitives convert as the language prescribes. A plain object
/// converts to `[object Object]`; an array joins its elements with
/// commas, `undefined` and `null` elements becoming the empty text. A
/// number converts when it is NaN, an infinity or an integer of magnitude
/// below 2^53: its decimal text is then exact. A finite number with a
/// fractional part is the one value this model cannot render — its
/// shortest decimal text needs floating-point formatting, which the model
/// does not hold — so a value holding such a number anywhere has no text
/// here, although the engine would render one.
pub open spec fn display_chars(v: JsVal) -> Option<Seq<char>>
    decreases v, 0int,
{
    match v {
        JsVal::Undefined => Some(seq!['u', 'n', 'd', 'e', 'f', 'i', 'n', 'e', 'd']),
        JsVal::Null => Some(seq!['n', 'u', 'l', 'l']),
        JsVal::Boolean(b) => if b {
            Some(seq!['t', 'r', 'u', 'e'])
        } else {
            Some(seq!['f', 'a', 'l', 's', 'e'])
        },
        JsVal::Str(s) => Some(s),
        JsVal::Number(b) => number_display_chars(b),
        JsVal::Object(o) => if o.array {
            join_chars(o.props)
        } else {
            Some(
                seq![
                    '[',
                    'o',
                    'b',
                    'j',
                    'e',
                    'c',
                    't',
                    ' ',
                    'O',
                    'b',
                    'j',
                    'e',
                    'c',
                    't',
                    ']',
                ],
            )
        },
    }
}

/// The text one array element contributes to a join: nothing for
/// `undefined` and `null`, its conversion otherwise.
pub open spec fn elem_display(v: JsVal) -> Option<Seq<char>>
    decreases v, 1int,
{
    match v {
        JsVal::Undefined => Some(Seq::empty()),
        JsVal::Null => Some(Seq::empty()),
        _ => display_chars(v),
    }
}

/// The comma-joined texts of an array's elements, when each has one.
pub open spec fn join_chars(ps: Seq<(Seq<char>, JsVal)>) -> Option<Seq<char>>
    decreases ps, 0int,
{
    if ps.len() == 0 {
        Some(Seq::empty())
    } else {
        let head = elem_display(ps[0].1);
        let rest = join_chars(ps.subrange(1, ps.len() as int));
        if head is Some && rest is Some {
            if ps.len() == 1 {
                head
            } else {
                Some(head->0 + seq![','] + rest->0)
            }
        } else {
            None
        }
    }
}

/// The joined texts of the first `i` elements, with the commas between
/// them, assuming each element has a text.
pub open spec fn join_done(ps: Seq<(Seq<char>, JsVal)>, i: int) -> Seq<char>
    recommends
        0 <= i <= ps.len(),
    decreases i,
{
    if i <= 0 {
        Seq::empty()
    } else if i == 1 {
        elem_display(ps[0].1)->0
    } else {
        join_done(ps, i - 1) + seq![','] + elem_display(ps[i - 1].1)->0
    }
}

/// Appending an element keeps the joined text of the ones before it.
proof fn lemma_join_done_push(ps: Seq<(Seq<char>, JsVal)>, x: (Seq<char>, JsVal), i: int)
    requires
        0 <= i <= ps.len(),
    ensures
        join_done(ps.push(x), i) == join_done(ps, i),
    decreases i,
{
    if i > 0 {
        lemma_join_done_push(ps, x, i - 1);
        assert(ps.push(x)[i - 1] == ps[i - 1]);
    }
}

/// One element with no text leaves the whole join without one.
proof fn lemma_join_chars_index_none(ps: Seq<(Seq<char>, JsVal)>, i: int)
    requires
        0 <= i < ps.len(),
        elem_display(ps[i].1) is None,
    ensures
        join_chars(ps) is None,
    decreases ps,
{
    if i > 0 {
        lemma_join_chars_index_none(ps.subrange(1, ps.len() as int), i - 1);
        assert(ps.subrange(1, ps.len() as int)[i - 1] == ps[i]);
    }
}

/// Dropping the first element shifts the joined prefix by one.
proof fn lemma_join_done_shift(ps: Seq<(Seq<char>, JsVal)>, k: int)
    requires
        1 <= k <= ps.len(),
    ensures
        join_done(ps, k) == elem_display(ps[0].1)->0 + (if k == 1 {
            Seq::<char>::empty()
        } else {
            seq![','] + join_done(ps.subrange(1, ps.len() as int), k - 1)
        }),
    decreases k,
{
    let tail = ps.subrange(1, ps.len() as int);
    if k == 1 {
        assert(join_done(ps, 1) =~= elem_display(ps[0].1)->0 + Seq::<char>::empty());
    } else if k == 2 {
        assert(tail[0] == ps[1]);
        assert(join_done(ps, 2) == join_done(ps, 1) + seq![','] + elem_display(ps[1].1)->0);
        assert(join_done(tail, 1) == elem_display(ps[1].1)->0);
        assert(elem_display(ps[0].1)->0 + seq![','] + elem_display(ps[1].1)->0 =~= elem_display(
            ps[0].1,
        )->0 + (seq![','] + elem_display(ps[1].1)->0));
    } else {
        lemma_join_done_shift(ps, k - 1);
        assert(tail[k - 2] == ps[k - 1]);
        assert(join_done(ps, k) =~= elem_display(ps[0].1)->0 + (seq![','] + join_done(
            tail,
            k - 1,
        )));
    }
}

/// When every element has a text, the joined prefix of all of them is the
/// array's text.
proof fn lemma_join_done_full(ps: Seq<(Seq<char>, JsVal)>)
    requires
        forall|j: int| 0 <= j < ps.len() ==> (#[trigger] elem_display(ps[j].1)) is Some,
    ensures
        join_chars(ps) == Some(join_done(ps, ps.len() as int)),
    decreases ps,
{
    if ps.len() == 0 {
    } else {
        let tail = ps.subrange(1, ps.len() as int);
        assert(forall|j: int| 0 <= j < tail.len() ==> tail[j] == ps[j + 1]);
        lemma_join_done_full(tail);
        if ps.len() == 1 {
        } else {
            lemma_join_done_shift(ps, ps.len() as int);
        }
    }
}

/// The text a number converts to, where this model defines one.
pub open spec fn number_display_chars(b: u64) -> Option<Seq<char>> {
    if crate::jsc::json::bits_exp(b) == 0x7ff {
        if crate::jsc::json::bits_frac(b) != 0 {
            Some(seq!['N', 'a', 'N'])
        } else if crate::jsc::json::bits_negative(b) {
            Some(seq!['-', 'I', 'n', 'f', 'i', 'n', 'i', 't', 'y'])
        } else {
            Some(seq!['I', 'n', 'f', 'i', 'n', 'i', 't', 'y'])
        }
    } else {
        match crate::jsc::json::bits_int_value(b) {
            Some(i) => Some(
                if i < 0 {
                    seq!['-'] + crate::jsc::json::dec_chars((-i) as nat)
                } else {
                    crate::jsc::json::dec_chars(i as nat)
                },
            ),
            None => None,
        }
    }
}

/// Appends the text a payload converts to, when this model renders one;
/// otherwise reports failure and may leave a partial text behind, which
/// the caller discards.
fn append_display(out: &mut String, d: &JSData) -> (ok: bool)
    ensures
        ok == (display_chars(data_view(*d)) is Some),
        ok ==> final(out)@ == old(out)@ + display_chars(data_view(*d))->0,
    decreases data_height(*d),
{
    match d {
        JSData::Undefined => {
            out.append("undefined");
            proof {
                reveal_strlit("undefined");
                assert(old(out)@ + display_chars(data_view(*d))->0 =~= old(out)@ + "undefined"@);
            }
            true
        },
        JSData::Null => {
            out.append("null");
            proof {
                reveal_strlit("null");
                assert(old(out)@ + display_chars(data_view(*d))->0 =~= old(out)@ + "null"@);
            }
            true
        },
        JSData::Boolean(b) => {
            if *b {
                out.append("true");
                proof {
                    reveal_strlit("true");
                    assert(old(out)@ + display_chars(data_view(*d))->0 =~= old(out)@ + "true"@);
                }
            } else {
                out.append("false");
                proof {
                    reveal_strlit("false");
                    assert(old(out)@ + display_chars(data_view(*d))->0 =~= old(out)@ + "false"@);
                }
            }
            true
        },
        JSData::Str(s) => {
            out.append(s.as_str());
            true
        },
        JSData::Number(b) => {
            let b = *b;
            let er = (b / 0x10000000000000) % 0x800;
            let f = b % 0x10000000000000;
            if er == 0x7ff {
                if f != 0 {
                    out.append("NaN");
                    proof {
                        reveal_strlit("NaN");
                        assert(old(out)@ + display_chars(data_view(*d))->0 =~= old(out)@
                            + "NaN"@);
                    }
                } else if b >= 0x8000_0000_0000_0000 {
                    out.append("-Infinity");
                    proof {
                        reveal_strlit("-Infinity");
                        assert(old(out)@ + display_chars(data_view(*d))->0 =~= old(out)@
                            + "-Infinity"@);
                    }
                } else {
                    out.append("Infinity");
                    proof {
                        reveal_strlit("Infinity");
                        assert(old(out)@ + display_chars(data_view(*d))->0 =~= old(out)@
                            + "Infinity"@);
                    }
                }
                true
            } else {
                match crate::jsc::json::bits_int_mag(b) {
                    Some(m) => {
                        if b >= 0x8000_0000_0000_0000 && m != 0 {
                            crate::jsc::string::push_char(out, '-');
                        }
                        crate::jsc::json::append_decimal(out, m);
                        proof {
                            let chars = display_chars(data_view(*d))->0;
                            if b >= 0x8000_0000_0000_0000 && m != 0 {
                                assert(chars =~= seq!['-'] + crate::jsc::json::dec_chars(
                                    m as nat,
                                ));
                                assert(old(out)@ + chars =~= old(out)@.push('-')
                                    + crate::jsc::json::dec_chars(m as nat));
                            } else {
                                assert(chars =~= crate::jsc::json::dec_chars(m as nat));
                            }
                        }
                        true
                    },
                    None => false,
                }
            }
        },
        JSData::Object(o) => {
            let ghost pv = props_view(o.props@);
            let n = o.props.len();
            proof {
                crate::jsc::lemma_props_view_len(o.props@);
            }
            if !o.array {
                out.append("[object Object]");
                proof {
                    reveal_strlit("[object Object]");
                    assert(old(out)@ + display_chars(data_view(*d))->0 =~= old(out)@
                        + "[object Object]"@);
                }
                true
            } else {
                let mut i: usize = 0;
                while i < n
                    invariant
                        i <= n,
                        n == o.props@.len(),
                        pv.len() == n,
                        pv == props_view(o.props@),
                        *d matches JSData::Object(oo) && oo.props == o.props && oo.array,
                        forall|j: int|
                            0 <= j < i ==> (#[trigger] elem_display(pv[j].1)) is Some,
                        out@ == old(out)@ + join_done(pv, i as int),
                    decreases n - i,
                {
                    proof {
                        crate::jsc::lemma_props_view_index(o.props@, i as int);
                        crate::jsc::lemma_props_height_index(o.props@, i as int);
                    }
                    if i > 0 {
                        crate::jsc::string::push_char(out, ',');
                    }
                    let elem_ok = match &o.props[i].value.data {
                        JSData::Undefined => true,
                        JSData::Null => true,
                        other => append_display(out, other),
                    };
                    if !elem_ok {
                        proof {
                            lemma_join_chars_index_none(pv, i as int);
                        }
                        return false;
                    }
                    proof {
                        if i > 0 {
                            assert(out@ =~= old(out)@ + join_done(pv, i + 1));
                        } else {
                            assert(join_done(pv, 1) == elem_display(pv[0].1)->0);
                            assert(out@ =~= old(out)@ + join_done(pv, 1));
                        }
                    }
                    i = i + 1;
                }
                proof {
                    lemma_join_done_full(pv);
                    assert(out@ =~= old(out)@ + display_chars(data_view(*d))->0);
                }
                true
            }
        },
    }
}

impl JSValue {
    /// Converts the value to an engine string holding its text.
    ///
    /// The standard coercion is rendered for every value but one: a plain
    /// object becomes `[object Object]`, an array the comma-joined texts
    /// of its elements, and the primitives their usual texts. The one
    /// value with no text here is a finite number with a fractional part,
    /// anywhere in the value: its decimal rendering needs floating-point
    /// formatting that this integer-exact model does not hold, so such a
    /// value is reported as the error case — a limit of the model, where
    /// the engine would render the number. The exception payload of that
    /// case is the `undefined` value.
    pub fn as_string(&self) -> (r: Result<JSString, JSException>)
        ensures
            r is Ok <==> display_chars(self@) is Some,
            r matches Ok(js) ==> (crate::jsc::string::wf_utf16(js@) && (display_chars(self@)
                matches Some(text) && crate::jsc::string::chars_of(js@) == text)),
            r matches Err(e) ==> e.value@ == JsVal::Undefined,
    {
        let mut text = String::new();
        if append_display(&mut text, &self.data) {
            proof {
                assert(Seq::<char>::empty() + display_chars(self@)->0 =~= display_chars(
                    self@,
                )->0);
            }
            Ok(JSString::new_from_str(text.as_str()))
        } else {
            Err(JSException { value: JSValue { data: JSData::Undefined } })
        }
    }
}

} // verus!
