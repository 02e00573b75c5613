//! JSON import and export for modeled values.
//!
//! The engine parses JSON text into values and serializes values back to
//! text. This module carries that pair of operations over to the model.
//! Numbers are exchanged exactly for the integers of magnitude below 2^53,
//! which a double represents exactly; JSON text holding fractions or
//! exponents is not accepted here.

use vstd::arithmetic::div_mod::{
    lemma_div_denominator, lemma_div_multiples_vanish, lemma_fundamental_div_mod,
    lemma_fundamental_div_mod_converse, lemma_mod_bound, lemma_mod_multiples_basic,
    lemma_mod_multiples_vanish, lemma_small_mod,
};
use vstd::arithmetic::power2::pow2;
use vstd::prelude::*;

use crate::jsc::string::{chars_of, push_char, utf16_of, wf_utf16};
use crate::jsc::{JSContext, JSException, JSObjectData, JSString, JSValue};
use crate::jsc::{
    data_height, data_view, lemma_props_height_index, lemma_props_view_index,
    lemma_props_view_len, props_view, JSData, JSProperty, JsVal,
};

verus! {

/// The character for one decimal digit.
pub open spec fn dec_digit(d: nat) -> char {
    if d == 0 {
        '0'
    } else if d == 1 {
        '1'
    } else if d == 2 {
        '2'
    } else if d == 3 {
        '3'
    } else if d == 4 {
        '4'
    } else if d == 5 {
        '5'
    } else if d == 6 {
        '6'
    } else if d == 7 {
        '7'
    } else if d == 8 {
        '8'
    } else {
        '9'
    }
}

/// The decimal rendering of a natural number, without leading zeroes.
pub open spec fn dec_chars(n: nat) -> Seq<char>
    decreases n,
{
    if n < 10 {
        seq![dec_digit(n)]
    } else {
        dec_chars(n / 10).push(dec_digit(n % 10))
    }
}

/// Renders one decimal digit.
fn dec_digit_char(d: u64) -> (c: char)
    requires
        d < 10,
    ensures
        c == dec_digit(d as nat),
{
    if d == 0 {
        '0'
    } else if d == 1 {
        '1'
    } else if d == 2 {
        '2'
    } else if d == 3 {
        '3'
    } else if d == 4 {
        '4'
    } else if d == 5 {
        '5'
    } else if d == 6 {
        '6'
    } else if d == 7 {
        '7'
    } else if d == 8 {
        '8'
    } else {
        '9'
    }
}

/// Appends the decimal rendering of a natural number to a string.
pub(crate) fn append_decimal(out: &mut String, n: u64)
    ensures
        final(out)@ == old(out)@ + dec_chars(n as nat),
    decreases n,
{
    if n < 10 {
        push_char(out, dec_digit_char(n));
        proof {
            assert(old(out)@ + dec_chars(n as nat) =~= old(out)@.push(dec_digit(n as nat)));
        }
    } else {
        append_decimal(out, n / 10);
        push_char(out, dec_digit_char(n % 10));
        proof {
            assert(old(out)@ + dec_chars(n as nat) =~= (old(out)@ + dec_chars((n / 10) as nat))
                .push(dec_digit((n % 10) as nat)));
        }
    }
}

/// Renders a natural number in decimal.
pub(crate) fn u64_decimal(n: u64) -> (r: String)
    ensures
        r@ == dec_chars(n as nat),
{
    let mut out = String::new();
    append_decimal(&mut out, n);
    proof {
        assert(Seq::<char>::empty() + dec_chars(n as nat) =~= dec_chars(n as nat));
    }
    out
}

} // verus!

verus! {

/// The floor of the base-two logarithm.
pub open spec fn ilog2(n: nat) -> nat
    decreases n,
{
    if n < 2 {
        0
    } else {
        1 + ilog2(n / 2)
    }
}

/// The logarithm brackets its argument between two neighbouring powers.
proof fn lemma_ilog2_bounds(n: nat)
    requires
        n >= 1,
    ensures
        pow2(ilog2(n)) <= n < pow2(ilog2(n) + 1),
    decreases n,
{
    vstd::arithmetic::power2::lemma_pow2_unfold(ilog2(n) + 1);
    if n < 2 {
        assert(pow2(0) == 1 && pow2(1) == 2) by {
            vstd::arithmetic::power2::lemma2_to64();
        }
    } else {
        lemma_ilog2_bounds(n / 2);
        vstd::arithmetic::power2::lemma_pow2_unfold(ilog2(n));
        assert(pow2(ilog2(n)) == 2 * pow2(ilog2(n / 2)));
        assert(n < pow2(ilog2(n) + 1)) by {
            assert(n / 2 < pow2(ilog2(n / 2) + 1));
            assert(pow2(ilog2(n / 2) + 1) == 2 * pow2(ilog2(n / 2))) by {
                vstd::arithmetic::power2::lemma_pow2_unfold(ilog2(n / 2) + 1);
            }
            assert(n <= 2 * (n / 2) + 1);
        }
    }
}

/// The logarithm is the only exponent whose power brackets the argument.
proof fn lemma_ilog2_unique(n: nat, e: nat)
    requires
        n >= 1,
        pow2(e) <= n < pow2(e + 1),
    ensures
        e == ilog2(n),
{
    lemma_ilog2_bounds(n);
    if e < ilog2(n) {
        vstd::arithmetic::power2::lemma_pow2_strictly_increases(e + 1, ilog2(n) + 1);
        assert(pow2(e + 1) <= pow2(ilog2(n))) by {
            if e + 1 < ilog2(n) {
                vstd::arithmetic::power2::lemma_pow2_strictly_increases(e + 1, ilog2(n));
            }
        }
    } else if e > ilog2(n) {
        assert(pow2(ilog2(n) + 1) <= pow2(e)) by {
            if ilog2(n) + 1 < e {
                vstd::arithmetic::power2::lemma_pow2_strictly_increases(ilog2(n) + 1, e);
            }
        }
    }
}

/// The bit pattern of the IEEE 754 double holding a positive integer below
/// 2^53, which such a double holds exactly.
pub open spec fn bits_of_pos(n: nat) -> u64
    recommends
        1 <= n < 0x20000000000000,
{
    let e = ilog2(n);
    (((1023 + e) * 0x10000000000000) + (n * pow2((52 - e) as nat) - 0x10000000000000)) as u64
}

/// The bit pattern of the IEEE 754 double holding an integer of magnitude
/// below 2^53.
pub open spec fn bits_of_int(i: int) -> u64
    recommends
        -0x20000000000000 < i < 0x20000000000000,
{
    if i == 0 {
        0
    } else if i > 0 {
        bits_of_pos(i as nat)
    } else {
        (bits_of_pos((-i) as nat) + 0x8000000000000000) as u64
    }
}

/// Computes a power of two.
fn pow2_u64(k: u64) -> (r: u64)
    requires
        k <= 63,
    ensures
        r == pow2(k as nat),
{
    let mut r: u64 = 1;
    let mut i: u64 = 0;
    proof {
        vstd::arithmetic::power2::lemma2_to64();
        vstd::arithmetic::power2::lemma2_to64_rest();
    }
    while i < k
        invariant
            i <= k <= 63,
            r == pow2(i as nat),
        decreases k - i,
    {
        proof {
            vstd::arithmetic::power2::lemma_pow2_unfold(i as nat + 1);
            vstd::arithmetic::power2::lemma_pow2_strictly_increases(i as nat + 1, 64);
            vstd::arithmetic::power2::lemma2_to64_rest();
        }
        r = r * 2;
        i = i + 1;
    }
    r
}

/// Computes the bit pattern of the double holding a positive integer.
pub(crate) fn pos_bits(n: u64) -> (r: u64)
    requires
        1 <= n < 0x20000000000000,
    ensures
        r == bits_of_pos(n as nat),
        r < 0x8000000000000000,
{
    let mut e: u64 = 0;
    let mut m: u64 = n;
    proof {
        vstd::arithmetic::power2::lemma2_to64();
    }
    while m >= 2
        invariant
            1 <= m,
            e <= 52,
            m == n as nat / pow2(e as nat),
            n < 0x20000000000000,
        decreases m,
    {
        proof {
            vstd::arithmetic::power2::lemma_pow2_unfold(e as nat + 1);
            vstd::arithmetic::power2::lemma_pow2_pos(e as nat);
            lemma_div_denominator(n as int, pow2(e as nat) as int, 2);
            assert(pow2(e as nat) * 2 == pow2(e as nat + 1)) by {
                vstd::arithmetic::power2::lemma_pow2_unfold(e as nat + 1);
            }
            // e stays within range: were e to reach 53, the quotient would
            // already be zero.
            if e >= 52 {
                assert(pow2(53) == 0x20000000000000) by {
                    vstd::arithmetic::power2::lemma2_to64_rest();
                }
                assert(pow2(e as nat) >= pow2(52)) by {
                    if e > 52 {
                        vstd::arithmetic::power2::lemma_pow2_strictly_increases(52, e as nat);
                    }
                }
                assert(pow2(52) == 0x10000000000000) by {
                    vstd::arithmetic::power2::lemma2_to64_rest();
                }
                assert(m * pow2(e as nat) <= n) by {
                    lemma_fundamental_div_mod(n as int, pow2(e as nat) as int);
                    lemma_mod_bound(n as int, pow2(e as nat) as int);
                }
                assert(m * pow2(e as nat) >= 2 * 0x10000000000000) by (nonlinear_arith)
                    requires
                        m >= 2,
                        pow2(e as nat) >= 0x10000000000000
                ;
            }
        }
        m = m / 2;
        e = e + 1;
    }
    proof {
        // the quotient reached one, so e is the floor logarithm
        vstd::arithmetic::power2::lemma_pow2_pos(e as nat);
        lemma_fundamental_div_mod(n as int, pow2(e as nat) as int);
        lemma_mod_bound(n as int, pow2(e as nat) as int);
        assert(pow2(e as nat) <= n < 2 * pow2(e as nat)) by (nonlinear_arith)
            requires
                n == 1 * pow2(e as nat) + (n as int % pow2(e as nat) as int),
                0 <= (n as int % pow2(e as nat) as int),
                (n as int % pow2(e as nat) as int) < pow2(e as nat)
        ;
        assert(pow2(e as nat + 1) == 2 * pow2(e as nat)) by {
            vstd::arithmetic::power2::lemma_pow2_unfold(e as nat + 1);
        }
        lemma_ilog2_unique(n as nat, e as nat);
    }
    let p = pow2_u64(52 - e);
    proof {
        vstd::arithmetic::power2::lemma2_to64_rest();
        assert(pow2((52 - e) as nat) * pow2(e as nat) == pow2(52)) by {
            vstd::arithmetic::power2::lemma_pow2_adds((52 - e) as nat, e as nat);
        }
        assert(0x10000000000000 <= n * p < 0x20000000000000) by (nonlinear_arith)
            requires
                pow2(e as nat) <= n < 2 * pow2(e as nat),
                p == pow2((52 - e) as nat),
                p * pow2(e as nat) == pow2(52),
                pow2(52) == 0x10000000000000,
                p >= 1
        ;
    }
    ((1023 + e) * 0x10000000000000) + (n * p - 0x10000000000000)
}

/// The sign bit, biased exponent field and fraction field of a double's
/// bit pattern.
pub open spec fn bits_negative(b: u64) -> bool {
    b >= 0x8000000000000000
}

pub open spec fn bits_exp(b: u64) -> nat {
    ((b / 0x10000000000000) % 0x800) as nat
}

pub open spec fn bits_frac(b: u64) -> nat {
    (b % 0x10000000000000) as nat
}

/// The integer a double's bit pattern holds, if it holds one of magnitude
/// below 2^53. Both zeroes hold the integer zero.
pub open spec fn bits_int_value(b: u64) -> Option<int> {
    let e = bits_exp(b);
    let f = bits_frac(b);
    if e == 0 && f == 0 {
        Some(0)
    } else if e == 0 || e == 0x7ff || e < 1023 || e > 1075 {
        None
    } else {
        let sh = (1075 - e) as nat;
        if f % pow2(sh) == 0 {
            let m = ((0x10000000000000 + f) / pow2(sh)) as int;
            Some(
                if bits_negative(b) {
                    -m
                } else {
                    m
                },
            )
        } else {
            None
        }
    }
}

/// Encoding an integer and reading the pattern back yields that integer.
pub proof fn lemma_bits_int_round_trip(i: int)
    requires
        -0x20000000000000 < i < 0x20000000000000,
    ensures
        bits_int_value(bits_of_int(i)) == Some(i),
{
    vstd::arithmetic::power2::lemma2_to64();
    vstd::arithmetic::power2::lemma2_to64_rest();
    if i == 0 {
    } else {
        let n = if i > 0 { i as nat } else { (-i) as nat };
        let e = ilog2(n);
        lemma_ilog2_bounds(n);
        if e > 52 {
            assert(pow2(53) <= pow2(e)) by {
                if e > 53 {
                    vstd::arithmetic::power2::lemma_pow2_strictly_increases(53, e);
                }
            }
            assert(false);
        }
        let p = pow2((52 - e) as nat);
        vstd::arithmetic::power2::lemma_pow2_pos((52 - e) as nat);
        assert(p * pow2(e) == pow2(52)) by {
            vstd::arithmetic::power2::lemma_pow2_adds((52 - e) as nat, e);
        }
        let mant = (n * p - 0x10000000000000) as int;
        assert(0x10000000000000 <= n * p < 0x20000000000000) by (nonlinear_arith)
            requires
                pow2(e) <= n < pow2(e + 1),
                pow2(e + 1) == 2 * pow2(e),
                p == pow2((52 - e) as nat),
                p * pow2(e) == pow2(52),
                pow2(52) == 0x10000000000000,
                p >= 1,
        {
            vstd::arithmetic::power2::lemma_pow2_unfold(e + 1);
        }
        let unsigned = ((1023 + e) * 0x10000000000000 + mant) as u64;
        let b = bits_of_int(i);
        assert(b == if i > 0 { unsigned } else { (unsigned + 0x8000000000000000) as u64 });
        assert(unsigned < 0x8000000000000000);
        // field decomposition
        assert(bits_exp(unsigned) == 1023 + e && bits_frac(unsigned) == mant) by {
            lemma_fundamental_div_mod_converse(
                unsigned as int,
                0x10000000000000,
                (1023 + e) as int,
                mant,
            );
            lemma_small_mod((1023 + e) as nat, 0x800);
        }
        assert(bits_exp(b) == 1023 + e && bits_frac(b) == mant) by {
            if i < 0 {
                lemma_fundamental_div_mod_converse(
                    b as int,
                    0x10000000000000,
                    (0x800 + 1023 + e) as int,
                    mant,
                );
                assert((0x800 + 1023 + e) as int % 0x800 == (1023 + e) as int) by {
                    lemma_mod_multiples_vanish(1, (1023 + e) as int, 0x800);
                    lemma_small_mod((1023 + e) as nat, 0x800);
                }
            }
        }
        assert(bits_negative(b) == (i < 0));
        let sh = (1075 - (1023 + e)) as nat;
        assert(sh == (52 - e) as nat);
        assert(mant % p as int == 0 && (0x10000000000000 + mant) / p as int == n) by {
            assert(mant == (n - pow2(e)) * p) by (nonlinear_arith)
                requires
                    mant == n * p - pow2(52),
                    pow2(52) == pow2(e) * p
            ;
            lemma_mod_multiples_basic((n - pow2(e)) as int, p as int);
            assert(0x10000000000000 + mant == n * p);
            lemma_div_multiples_vanish(n as int, p as int);
            vstd::arithmetic::mul::lemma_mul_is_commutative(n as int, p as int);
            assert((n * p) as int / p as int == n);
        }
    }
}

} // verus!

verus! {

/// The character for one lowercase hexadecimal digit.
pub open spec fn hex_digit(d: nat) -> char {
    if d == 0 {
        '0'
    } else if d == 1 {
        '1'
    } else if d == 2 {
        '2'
    } else if d == 3 {
        '3'
    } else if d == 4 {
        '4'
    } else if d == 5 {
        '5'
    } else if d == 6 {
        '6'
    } else if d == 7 {
        '7'
    } else if d == 8 {
        '8'
    } else if d == 9 {
        '9'
    } else if d == 10 {
        'a'
    } else if d == 11 {
        'b'
    } else if d == 12 {
        'c'
    } else if d == 13 {
        'd'
    } else if d == 14 {
        'e'
    } else {
        'f'
    }
}

/// The JSON escape of one character inside a string literal: quote,
/// backslash and the named control characters take a two-character escape,
/// any other control character a `\u00..` escape, and everything else
/// stands as itself.
pub open spec fn escape_char(c: char) -> Seq<char> {
    if c == '"' {
        seq!['\\', '"']
    } else if c == '\\' {
        seq!['\\', '\\']
    } else if c == '\n' {
        seq!['\\', 'n']
    } else if c == '\r' {
        seq!['\\', 'r']
    } else if c == '\t' {
        seq!['\\', 't']
    } else if c as u32 == 8 {
        seq!['\\', 'b']
    } else if c as u32 == 12 {
        seq!['\\', 'f']
    } else if (c as u32) < 0x20 {
        seq!['\\', 'u', '0', '0', hex_digit((c as u32 / 16) as nat), hex_digit(
            (c as u32 % 16) as nat,
        )]
    } else {
        seq![c]
    }
}

/// The JSON escape of a whole text.
pub open spec fn escape_chars(s: Seq<char>) -> Seq<char>
    decreases s.len(),
{
    if s.len() == 0 {
        Seq::empty()
    } else {
        escape_char(s[0]) + escape_chars(s.subrange(1, s.len() as int))
    }
}

/// The JSON string literal holding a text.
pub open spec fn json_string_chars(s: Seq<char>) -> Seq<char> {
    seq!['"'] + escape_chars(s) + seq!['"']
}

/// The JSON rendering of a number: its integer in decimal when it holds
/// one, else `null` for NaN and the infinities.
pub open spec fn json_number_chars(b: u64) -> Seq<char> {
    match bits_int_value(b) {
        Some(i) => if i < 0 {
            seq!['-'] + dec_chars((-i) as nat)
        } else {
            dec_chars(i as nat)
        },
        None => seq!['n', 'u', 'l', 'l'],
    }
}

/// True when a number can be rendered: it holds an integer of magnitude
/// below 2^53, or is NaN or an infinity (rendered as `null`).
pub open spec fn json_number_ok(b: u64) -> bool {
    bits_int_value(b) is Some || bits_exp(b) == 0x7ff
}

/// True when every number inside the value can be rendered.
pub open spec fn json_numbers_ok(v: JsVal) -> bool
    decreases v,
{
    match v {
        JsVal::Number(b) => json_number_ok(b),
        JsVal::Object(o) => json_numbers_ok_props(o.props),
        _ => true,
    }
}

/// True when every number inside every property value can be rendered.
pub open spec fn json_numbers_ok_props(ps: Seq<(Seq<char>, JsVal)>) -> bool
    decreases ps,
{
    if ps.len() == 0 {
        true
    } else {
        json_numbers_ok(ps[0].1) && json_numbers_ok_props(ps.subrange(1, ps.len() as int))
    }
}

/// One bad property value makes the whole sequence unrenderable.
proof fn lemma_numbers_ok_props_index(ps: Seq<(Seq<char>, JsVal)>, i: int)
    requires
        0 <= i < ps.len(),
        !json_numbers_ok(ps[i].1),
    ensures
        !json_numbers_ok_props(ps),
    decreases ps,
{
    if i > 0 {
        lemma_numbers_ok_props_index(ps.subrange(1, ps.len() as int), i - 1);
        assert(ps.subrange(1, ps.len() as int)[i - 1] == ps[i]);
    }
}

/// The compact JSON rendering of a value. `undefined` renders as `null`,
/// which the serializer reaches only inside arrays.
pub open spec fn json_min(v: JsVal) -> Seq<char>
    decreases v,
{
    match v {
        JsVal::Undefined => seq!['n', 'u', 'l', 'l'],
        JsVal::Null => seq!['n', 'u', 'l', 'l'],
        JsVal::Boolean(b) => if b {
            seq!['t', 'r', 'u', 'e']
        } else {
            seq!['f', 'a', 'l', 's', 'e']
        },
        JsVal::Number(b) => json_number_chars(b),
        JsVal::Str(s) => json_string_chars(s),
        JsVal::Object(o) => if o.array {
            seq!['['] + json_elems(o.props) + seq![']']
        } else {
            seq!['{'] + json_members(o.props) + seq!['}']
        },
    }
}

/// The comma-separated renderings of an array's elements, in order.
pub open spec fn json_elems(ps: Seq<(Seq<char>, JsVal)>) -> Seq<char>
    decreases ps,
{
    if ps.len() == 0 {
        Seq::empty()
    } else if ps.len() == 1 {
        json_min(ps[0].1)
    } else {
        json_min(ps[0].1) + seq![','] + json_elems(ps.subrange(1, ps.len() as int))
    }
}

/// True when no property would be rendered: every value is `undefined`.
pub open spec fn members_all_skipped(ps: Seq<(Seq<char>, JsVal)>) -> bool
    decreases ps,
{
    if ps.len() == 0 {
        true
    } else {
        ps[0].1 is Undefined && members_all_skipped(ps.subrange(1, ps.len() as int))
    }
}

/// The comma-separated renderings of an object's properties, in order.
/// A property holding `undefined` is skipped, as the engine skips it.
pub open spec fn json_members(ps: Seq<(Seq<char>, JsVal)>) -> Seq<char>
    decreases ps,
{
    if ps.len() == 0 {
        Seq::empty()
    } else if ps[0].1 is Undefined {
        json_members(ps.subrange(1, ps.len() as int))
    } else if members_all_skipped(ps.subrange(1, ps.len() as int)) {
        json_string_chars(ps[0].0) + seq![':'] + json_min(ps[0].1)
    } else {
        json_string_chars(ps[0].0) + seq![':'] + json_min(ps[0].1) + seq![','] + json_members(
            ps.subrange(1, ps.len() as int),
        )
    }
}

} // verus!

verus! {

/// Renders one lowercase hexadecimal digit.
fn hex_digit_char(d: u64) -> (c: char)
    requires
        d < 16,
    ensures
        c == hex_digit(d as nat),
{
    if d == 0 {
        '0'
    } else if d == 1 {
        '1'
    } else if d == 2 {
        '2'
    } else if d == 3 {
        '3'
    } else if d == 4 {
        '4'
    } else if d == 5 {
        '5'
    } else if d == 6 {
        '6'
    } else if d == 7 {
        '7'
    } else if d == 8 {
        '8'
    } else if d == 9 {
        '9'
    } else if d == 10 {
        'a'
    } else if d == 11 {
        'b'
    } else if d == 12 {
        'c'
    } else if d == 13 {
        'd'
    } else if d == 14 {
        'e'
    } else {
        'f'
    }
}

/// Appends the JSON escape of a text.
fn append_escaped(out: &mut String, s: &str)
    ensures
        final(out)@ == old(out)@ + escape_chars(s@),
{
    let n = s.unicode_len();
    let mut i: usize = 0;
    proof {
        assert(s@.subrange(0, n as int) =~= s@);
        assert(old(out)@ + Seq::<char>::empty() =~= old(out)@);
    }
    while i < n
        invariant
            i <= n,
            n == s@.len(),
            out@ + escape_chars(s@.subrange(i as int, n as int)) == old(out)@ + escape_chars(s@),
        decreases n - i,
    {
        let ghost suffix = s@.subrange(i as int, n as int);
        let c = s.get_char(i);
        proof {
            assert(suffix[0] == s@[i as int]);
            assert(suffix.subrange(1, suffix.len() as int) =~= s@.subrange(i + 1, n as int));
        }
        let u = c as u32;
        if c == '"' {
            out.append("\\\"");
            proof {
                reveal_strlit("\\\"");
                assert("\\\""@ =~= escape_char(c));
            }
        } else if c == '\\' {
            out.append("\\\\");
            proof {
                reveal_strlit("\\\\");
                assert("\\\\"@ =~= escape_char(c));
            }
        } else if c == '\n' {
            out.append("\\n");
            proof {
                reveal_strlit("\\n");
                assert("\\n"@ =~= escape_char(c));
            }
        } else if c == '\r' {
            out.append("\\r");
            proof {
                reveal_strlit("\\r");
                assert("\\r"@ =~= escape_char(c));
            }
        } else if c == '\t' {
            out.append("\\t");
            proof {
                reveal_strlit("\\t");
                assert("\\t"@ =~= escape_char(c));
            }
        } else if u == 8 {
            out.append("\\b");
            proof {
                reveal_strlit("\\b");
                assert("\\b"@ =~= escape_char(c));
            }
        } else if u == 12 {
            out.append("\\f");
            proof {
                reveal_strlit("\\f");
                assert("\\f"@ =~= escape_char(c));
            }
        } else if u < 0x20 {
            out.append("\\u00");
            push_char(out, hex_digit_char((u / 16) as u64));
            push_char(out, hex_digit_char((u % 16) as u64));
            proof {
                reveal_strlit("\\u00");
                assert("\\u00"@.push(hex_digit((u / 16) as nat)).push(
                    hex_digit((u % 16) as nat),
                ) =~= escape_char(c));
            }
        } else {
            push_char(out, c);
            proof {
                assert(seq![c] =~= escape_char(c));
            }
        }
        proof {
            assert(out@ + escape_chars(s@.subrange(i + 1, n as int)) =~= old(out)@ + escape_chars(
                s@,
            ));
        }
        i = i + 1;
    }
    proof {
        assert(s@.subrange(n as int, n as int) =~= Seq::<char>::empty());
        assert(out@ + Seq::<char>::empty() =~= out@);
    }
}

/// Appends the JSON rendering of a number, if it has one.
fn append_number(out: &mut String, b: u64) -> (ok: bool)
    ensures
        ok == json_number_ok(b),
        ok ==> final(out)@ == old(out)@ + json_number_chars(b),
{
    let er = (b / 0x10000000000000) % 0x800;
    let f = b % 0x10000000000000;
    if er == 0 && f == 0 {
        push_char(out, '0');
        proof {
            assert(old(out)@ + json_number_chars(b) =~= old(out)@.push('0'));
        }
        true
    } else if er == 0x7ff {
        out.append("null");
        proof {
            reveal_strlit("null");
            assert("null"@ =~= seq!['n', 'u', 'l', 'l']);
            assert(old(out)@ + json_number_chars(b) =~= old(out)@ + "null"@);
        }
        true
    } else if er == 0 || er < 1023 || er > 1075 {
        false
    } else {
        let sh = 1075 - er;
        let p = pow2_u64(sh);
        proof {
            vstd::arithmetic::power2::lemma_pow2_pos(sh as nat);
        }
        if f % p == 0 {
            let m = (0x10000000000000 + f) / p;
            proof {
                vstd::arithmetic::div_mod::lemma_div_nonincreasing(
                    (0x10000000000000 + f) as int,
                    p as int,
                );
                vstd::arithmetic::div_mod::lemma_div_pos_is_pos(
                    (0x10000000000000 + f) as int,
                    p as int,
                );
                vstd::arithmetic::power2::lemma2_to64_rest();
                assert(p <= 0x10000000000000) by {
                    if sh < 52 {
                        vstd::arithmetic::power2::lemma_pow2_strictly_increases(sh as nat, 52);
                    }
                }
                vstd::arithmetic::div_mod::lemma_div_by_self(p as int);
                vstd::arithmetic::div_mod::lemma_div_is_ordered(
                    p as int,
                    (0x10000000000000 + f) as int,
                    p as int,
                );
                assert(m >= 1);
            }
            if b >= 0x8000000000000000 {
                push_char(out, '-');
                append_decimal(out, m);
                proof {
                    assert(old(out)@ + json_number_chars(b) =~= old(out)@.push('-') + dec_chars(
                        m as nat,
                    ));
                }
            } else {
                append_decimal(out, m);
            }
            true
        } else {
            false
        }
    }
}

} // verus!

verus! {

/// Tests whether every property from position `j` on holds `undefined`,
/// so that the serializer would skip them all.
fn rest_all_skipped(props: &Vec<JSProperty>, j: usize) -> (r: bool)
    requires
        j <= props@.len(),
    ensures
        r == members_all_skipped(props_view(props@).subrange(j as int, props@.len() as int)),
{
    let n = props.len();
    let mut k: usize = j;
    proof {
        lemma_props_view_len(props@);
    }
    while k < n
        invariant
            j <= k <= n,
            n == props@.len(),
            props_view(props@).len() == n,
            members_all_skipped(props_view(props@).subrange(j as int, n as int))
                == members_all_skipped(props_view(props@).subrange(k as int, n as int)),
        decreases n - k,
    {
        let ghost pv = props_view(props@);
        proof {
            lemma_props_view_index(props@, k as int);
            assert(pv.subrange(k as int, n as int)[0] == pv[k as int]);
            assert(pv.subrange(k as int, n as int).subrange(1, (n - k) as int) =~= pv.subrange(
                k + 1,
                n as int,
            ));
        }
        if !matches!(&props[k].value.data, JSData::Undefined) {
            return false;
        }
        k = k + 1;
    }
    proof {
        assert(props_view(props@).subrange(n as int, n as int) =~= Seq::<(
            Seq<char>,
            JsVal,
        )>::empty());
    }
    true
}

/// Appends the compact JSON rendering of a payload, when every number in
/// it can be rendered; otherwise reports failure and may leave a partial
/// rendering behind, which the caller discards.
pub(crate) fn append_json(out: &mut String, d: &JSData) -> (ok: bool)
    ensures
        ok == json_numbers_ok(data_view(*d)),
        ok ==> final(out)@ == old(out)@ + json_min(data_view(*d)),
    decreases data_height(*d),
{
    match d {
        JSData::Undefined => {
            out.append("null");
            proof {
                reveal_strlit("null");
                assert("null"@ =~= json_min(data_view(*d)));
            }
            true
        },
        JSData::Null => {
            out.append("null");
            proof {
                reveal_strlit("null");
                assert("null"@ =~= json_min(data_view(*d)));
            }
            true
        },
        JSData::Boolean(x) => {
            if *x {
                out.append("true");
                proof {
                    reveal_strlit("true");
                    assert("true"@ =~= json_min(data_view(*d)));
                }
            } else {
                out.append("false");
                proof {
                    reveal_strlit("false");
                    assert("false"@ =~= json_min(data_view(*d)));
                }
            }
            true
        },
        JSData::Number(b) => append_number(out, *b),
        JSData::Str(s) => {
            push_char(out, '"');
            append_escaped(out, s.as_str());
            push_char(out, '"');
            proof {
                assert(old(out)@ + json_min(data_view(*d)) =~= ((old(out)@.push('"'))
                    + escape_chars(s@)).push('"'));
            }
            true
        },
        JSData::Object(o) => {
            let ghost pv = props_view(o.props@);
            let n = o.props.len();
            proof {
                lemma_props_view_len(o.props@);
            }
            if o.array {
                push_char(out, '[');
                let mut i: usize = 0;
                proof {
                    assert(pv.subrange(0, n as int) =~= pv);
                }
                while i < n
                    invariant
                        i <= n,
                        n == o.props@.len(),
                        pv.len() == n,
                        pv == props_view(o.props@),
                        *d matches JSData::Object(oo) && oo.props == o.props && oo.array,
                        json_numbers_ok_props(pv) == json_numbers_ok_props(
                            pv.subrange(i as int, n as int),
                        ),
                        out@ == old(out)@.push('[') + elems_done(pv, i as int),
                    decreases n - i,
                {
                    proof {
                        lemma_props_view_index(o.props@, i as int);
                        lemma_props_height_index(o.props@, i as int);
                        assert(pv.subrange(i as int, n as int)[0] == pv[i as int]);
                        assert(pv.subrange(i as int, n as int).subrange(1, (n - i) as int)
                            =~= pv.subrange(i + 1, n as int));
                    }
                    if i > 0 {
                        push_char(out, ',');
                    }
                    let sub_ok = append_json(out, &o.props[i].value.data);
                    if !sub_ok {
                        proof {
                            lemma_numbers_ok_props_index(pv, i as int);
                        }
                        return false;
                    }
                    proof {
                        if i > 0 {
                            assert(out@ =~= old(out)@.push('[') + elems_done(pv, i + 1));
                        } else {
                            assert(out@ =~= old(out)@.push('[') + elems_done(pv, 1));
                        }
                    }
                    i = i + 1;
                }
                push_char(out, ']');
                proof {
                    assert(pv.subrange(n as int, n as int) =~= Seq::<(Seq<char>, JsVal)>::empty());
                    lemma_elems_done_full(pv);
                    assert(out@ =~= old(out)@ + json_min(data_view(*d)));
                }
                true
            } else {
                push_char(out, '{');
                let mut i: usize = 0;
                proof {
                    assert(pv.subrange(0, n as int) =~= pv);
                }
                while i < n
                    invariant
                        i <= n,
                        n == o.props@.len(),
                        pv.len() == n,
                        pv == props_view(o.props@),
                        *d matches JSData::Object(oo) && oo.props == o.props && !oo.array,
                        json_numbers_ok_props(pv) == json_numbers_ok_props(
                            pv.subrange(i as int, n as int),
                        ),
                        out@ + json_members(pv.subrange(i as int, n as int)) == old(out)@.push('{')
                            + json_members(pv),
                    decreases n - i,
                {
                    let ghost suffix = pv.subrange(i as int, n as int);
                    proof {
                        lemma_props_view_index(o.props@, i as int);
                        lemma_props_height_index(o.props@, i as int);
                        assert(suffix[0] == pv[i as int]);
                        assert(suffix.subrange(1, (n - i) as int) =~= pv.subrange(i + 1, n as int));
                    }
                    if matches!(&o.props[i].value.data, JSData::Undefined) {
                        proof {
                            assert(pv[i as int].1 is Undefined);
                            assert(suffix.len() == n - i);
                            assert(suffix.subrange(1, suffix.len() as int) =~= pv.subrange(
                                i + 1,
                                n as int,
                            ));
                            assert(json_numbers_ok(suffix[0].1));
                            assert(json_numbers_ok_props(suffix) == (json_numbers_ok(suffix[0].1)
                                && json_numbers_ok_props(
                                suffix.subrange(1, suffix.len() as int),
                            )));
                            assert(json_members(suffix) == json_members(
                                pv.subrange(i + 1, n as int),
                            ));
                            assert(json_numbers_ok_props(suffix) == json_numbers_ok_props(
                                pv.subrange(i + 1, n as int),
                            ));
                        }
                        i = i + 1;
                        continue ;
                    }
                    push_char(out, '"');
                    append_escaped(out, o.props[i].key.as_str());
                    push_char(out, '"');
                    push_char(out, ':');
                    let sub_ok = append_json(out, &o.props[i].value.data);
                    if !sub_ok {
                        proof {
                            lemma_numbers_ok_props_index(pv, i as int);
                        }
                        return false;
                    }
                    if !rest_all_skipped(&o.props, i + 1) {
                        push_char(out, ',');
                        proof {
                            assert(out@ + json_members(pv.subrange(i + 1, n as int)) =~= old(out)@
                                .push('{') + json_members(pv));
                        }
                    } else {
                        proof {
                            lemma_members_all_skipped_empty(pv.subrange(i + 1, n as int));
                            assert(out@ + json_members(pv.subrange(i + 1, n as int)) =~= old(out)@
                                .push('{') + json_members(pv));
                        }
                    }
                    i = i + 1;
                }
                push_char(out, '}');
                proof {
                    assert(pv.subrange(n as int, n as int) =~= Seq::<(Seq<char>, JsVal)>::empty());
                    assert(out@ =~= old(out)@ + json_min(data_view(*d)));
                }
                true
            }
        },
    }
}

/// The rendering of the first `i` elements of an array, with the commas
/// that stand between them.
pub open spec fn elems_done(ps: Seq<(Seq<char>, JsVal)>, i: int) -> Seq<char>
    recommends
        0 <= i <= ps.len(),
    decreases i,
{
    if i <= 0 {
        Seq::empty()
    } else if i == 1 {
        json_min(ps[0].1)
    } else {
        elems_done(ps, i - 1) + seq![','] + json_min(ps[i - 1].1)
    }
}

/// After the last element, the elements rendered so far are the whole
/// comma-separated rendering.
proof fn lemma_elems_done_full(ps: Seq<(Seq<char>, JsVal)>)
    ensures
        elems_done(ps, ps.len() as int) == json_elems(ps),
    decreases ps,
{
    if ps.len() == 0 {
    } else if ps.len() == 1 {
    } else {
        let tail = ps.subrange(1, ps.len() as int);
        lemma_elems_done_full(tail);
        lemma_elems_done_shift(ps, ps.len() as int);
        assert(json_elems(ps) =~= json_min(ps[0].1) + (seq![','] + elems_done(
            tail,
            tail.len() as int,
        )));
    }
}

/// Dropping the first element shifts the rendered prefix by one.
proof fn lemma_elems_done_shift(ps: Seq<(Seq<char>, JsVal)>, k: int)
    requires
        1 <= k <= ps.len(),
    ensures
        elems_done(ps, k) == json_min(ps[0].1) + (if k == 1 {
            Seq::<char>::empty()
        } else {
            seq![','] + elems_done(ps.subrange(1, ps.len() as int), k - 1)
        }),
    decreases k,
{
    let tail = ps.subrange(1, ps.len() as int);
    if k == 1 {
        assert(elems_done(ps, 1) =~= json_min(ps[0].1) + Seq::<char>::empty());
    } else if k == 2 {
        assert(tail[0] == ps[1]);
        assert(elems_done(ps, 2) == elems_done(ps, 1) + seq![','] + json_min(ps[1].1));
        assert(elems_done(ps, 1) == json_min(ps[0].1));
        assert(elems_done(tail, 1) == json_min(ps[1].1));
        assert(json_min(ps[0].1) + seq![','] + json_min(ps[1].1) =~= json_min(ps[0].1) + (seq![
            ',',
        ] + json_min(ps[1].1)));
    } else {
        lemma_elems_done_shift(ps, k - 1);
        assert(tail[k - 2] == ps[k - 1]);
        assert(elems_done(ps, k) =~= json_min(ps[0].1) + (seq![','] + elems_done(tail, k - 1)));
    }
}

/// A run of skipped properties renders as nothing.
proof fn lemma_members_all_skipped_empty(ps: Seq<(Seq<char>, JsVal)>)
    requires
        members_all_skipped(ps),
    ensures
        json_members(ps) == Seq::<char>::empty(),
    decreases ps,
{
    if ps.len() > 0 {
        lemma_members_all_skipped_empty(ps.subrange(1, ps.len() as int));
    }
}

} // verus!

verus! {

impl JSValue {
    /// Serializes the value as JSON text.
    ///
    /// The indent is clamped to at most ten spaces; this model renders
    /// compactly at every indent, so the parameter only mirrors the
    /// engine's interface. Serialization fails for the `undefined` value,
    /// as it fails in the engine. It also fails for a value holding a
    /// finite number with a fractional part anywhere: the engine would
    /// render that number, but its shortest decimal text needs
    /// floating-point formatting that this integer-exact model does not
    /// hold, so the failure there is a limit of the model, not the
    /// serializer's meaning. NaN and the infinities render as `null`, as
    /// the engine renders them.
    #[allow(unused_variables)]
    pub fn to_json_string(&self, indent: u32) -> (r: Result<JSString, JSException>)
        ensures
            r is Ok <==> (!(self@ is Undefined) && json_numbers_ok(self@)),
            r matches Ok(js) ==> (wf_utf16(js@) && chars_of(js@) == json_min(self@) && js@
                == utf16_of(json_min(self@))),
            r matches Err(e) ==> e.value@ == JsVal::Undefined,
    {
        if self.is_undefined() {
            return Err(
                JSException {
                    value: JSValue { data: JSData::Undefined },
                },
            );
        }
        let mut s = String::new();
        if append_json(&mut s, &self.data) {
            proof {
                assert(Seq::<char>::empty() + json_min(self@) =~= json_min(self@));
            }
            Ok(JSString::new_from_str(s.as_str()))
        } else {
            Err(JSException { value: JSValue { data: JSData::Undefined } })
        }
    }
}

/// True for the whitespace JSON allows between tokens.
pub open spec fn json_ws(c: char) -> bool {
    c == ' ' || c == '\t' || c == '\n' || c == '\r'
}

/// The text with the whitespace between tokens removed; whitespace inside
/// string literals stays. The two flags carry the scan's state: whether it
/// stands inside a string literal, and whether the previous character was
/// a literal's escaping backslash.
pub open spec fn despace_rec(s: Seq<char>, in_str: bool, esc: bool) -> Seq<char>
    decreases s.len(),
{
    if s.len() == 0 {
        Seq::empty()
    } else {
        let c = s[0];
        let rest = s.subrange(1, s.len() as int);
        if !in_str && json_ws(c) {
            despace_rec(rest, false, false)
        } else if !in_str {
            seq![c] + despace_rec(rest, c == '"', false)
        } else if esc {
            seq![c] + despace_rec(rest, true, false)
        } else if c == '\\' {
            seq![c] + despace_rec(rest, true, true)
        } else {
            seq![c] + despace_rec(rest, c != '"', false)
        }
    }
}

/// The text with the whitespace between tokens removed.
pub open spec fn despace(s: Seq<char>) -> Seq<char> {
    despace_rec(s, false, false)
}

/// Removes the whitespace between tokens.
fn despace_chars(s: &str) -> (r: Vec<char>)
    ensures
        r@ == despace(s@),
{
    let n = s.unicode_len();
    let mut r: Vec<char> = Vec::new();
    let mut i: usize = 0;
    let mut in_str = false;
    let mut esc = false;
    proof {
        assert(s@.subrange(0, n as int) =~= s@);
        assert(Seq::<char>::empty() + despace(s@) =~= despace(s@));
    }
    while i < n
        invariant
            i <= n,
            n == s@.len(),
            r@ + despace_rec(s@.subrange(i as int, n as int), in_str, esc) == despace(s@),
        decreases n - i,
    {
        let ghost suffix = s@.subrange(i as int, n as int);
        let c = s.get_char(i);
        proof {
            assert(suffix[0] == s@[i as int]);
            assert(suffix.subrange(1, suffix.len() as int) =~= s@.subrange(i + 1, n as int));
        }
        if !in_str && (c == ' ' || c == '\t' || c == '\n' || c == '\r') {
            esc = false;
        } else if !in_str {
            r.push(c);
            in_str = c == '"';
            esc = false;
        } else if esc {
            r.push(c);
            esc = false;
        } else if c == '\\' {
            r.push(c);
            esc = true;
        } else {
            r.push(c);
            in_str = c != '"';
            esc = false;
        }
        i = i + 1;
    }
    proof {
        assert(s@.subrange(n as int, n as int) =~= Seq::<char>::empty());
        assert(r@ + Seq::<char>::empty() =~= r@);
    }
    r
}

/// Appending a character to a text appends its escape to the text's
/// escape.
proof fn lemma_escape_chars_push(s: Seq<char>, c: char)
    ensures
        escape_chars(s.push(c)) == escape_chars(s) + escape_char(c),
    decreases s,
{
    if s.len() == 0 {
        assert(s.push(c).subrange(1, s.push(c).len() as int) =~= Seq::<char>::empty());
        assert(s.push(c)[0] == c);
        assert(escape_chars(Seq::<char>::empty()) =~= Seq::<char>::empty());
        assert(escape_chars(s) =~= Seq::<char>::empty());
        assert(escape_chars(s.push(c)) == escape_char(c) + escape_chars(
            s.push(c).subrange(1, s.push(c).len() as int),
        ));
        assert(escape_chars(s.push(c)) =~= escape_chars(s) + escape_char(c));
    } else {
        let tail = s.subrange(1, s.len() as int);
        assert(s.push(c).subrange(1, s.push(c).len() as int) =~= tail.push(c));
        lemma_escape_chars_push(tail, c);
        assert(s.push(c)[0] == s[0]);
        assert(escape_chars(s.push(c)) =~= escape_chars(s) + escape_char(c));
    }
}

/// Appending a property keeps the rendering of the ones before it.
proof fn lemma_elems_done_push(ps: Seq<(Seq<char>, JsVal)>, x: (Seq<char>, JsVal), i: int)
    requires
        0 <= i <= ps.len(),
    ensures
        elems_done(ps.push(x), i) == elems_done(ps, i),
    decreases i,
{
    if i > 0 {
        lemma_elems_done_push(ps, x, i - 1);
        assert(ps.push(x)[i - 1] == ps[i - 1]);
    }
}

/// Appending a property conjoins its renderability to the sequence's.
proof fn lemma_ok_props_push(ps: Seq<(Seq<char>, JsVal)>, x: (Seq<char>, JsVal))
    ensures
        json_numbers_ok_props(ps.push(x)) == (json_numbers_ok_props(ps) && json_numbers_ok(x.1)),
    decreases ps,
{
    if ps.len() == 0 {
        assert(ps.push(x).subrange(1, ps.push(x).len() as int) =~= Seq::<(Seq<char>, JsVal)>::empty());
        assert(ps.push(x)[0] == x);
        assert(json_numbers_ok_props(Seq::<(Seq<char>, JsVal)>::empty()));
        assert(json_numbers_ok_props(ps.push(x)) == (json_numbers_ok(x.1)
            && json_numbers_ok_props(ps.push(x).subrange(1, ps.push(x).len() as int))));
    } else {
        let tail = ps.subrange(1, ps.len() as int);
        assert(ps.push(x).subrange(1, ps.push(x).len() as int) =~= tail.push(x));
        lemma_ok_props_push(tail, x);
        assert(ps.push(x)[0] == ps[0]);
        assert(json_numbers_ok_props(ps.push(x)) == (json_numbers_ok(ps[0].1)
            && json_numbers_ok_props(tail.push(x))));
        assert(json_numbers_ok_props(ps) == (json_numbers_ok(ps[0].1) && json_numbers_ok_props(
            tail,
        )));
    }
}

/// The rendering of one object property.
pub open spec fn member_chars(p: (Seq<char>, JsVal)) -> Seq<char> {
    json_string_chars(p.0) + seq![':'] + json_min(p.1)
}

/// The rendering of the first `i` properties of an object none of whose
/// values is `undefined`, with the commas that stand between them.
pub open spec fn members_done(ps: Seq<(Seq<char>, JsVal)>, i: int) -> Seq<char>
    recommends
        0 <= i <= ps.len(),
    decreases i,
{
    if i <= 0 {
        Seq::empty()
    } else if i == 1 {
        member_chars(ps[0])
    } else {
        members_done(ps, i - 1) + seq![','] + member_chars(ps[i - 1])
    }
}

/// Appending a property keeps the rendering of the ones before it.
proof fn lemma_members_done_push(ps: Seq<(Seq<char>, JsVal)>, x: (Seq<char>, JsVal), i: int)
    requires
        0 <= i <= ps.len(),
    ensures
        members_done(ps.push(x), i) == members_done(ps, i),
    decreases i,
{
    if i > 0 {
        lemma_members_done_push(ps, x, i - 1);
        assert(ps.push(x)[i - 1] == ps[i - 1]);
    }
}

/// Dropping the first property shifts the rendered prefix by one.
proof fn lemma_members_done_shift(ps: Seq<(Seq<char>, JsVal)>, k: int)
    requires
        1 <= k <= ps.len(),
    ensures
        members_done(ps, k) == member_chars(ps[0]) + (if k == 1 {
            Seq::<char>::empty()
        } else {
            seq![','] + members_done(ps.subrange(1, ps.len() as int), k - 1)
        }),
    decreases k,
{
    let tail = ps.subrange(1, ps.len() as int);
    if k == 1 {
        assert(members_done(ps, 1) =~= member_chars(ps[0]) + Seq::<char>::empty());
    } else if k == 2 {
        assert(tail[0] == ps[1]);
        assert(members_done(ps, 2) == members_done(ps, 1) + seq![','] + member_chars(ps[1]));
        assert(members_done(tail, 1) == member_chars(ps[1]));
        assert(member_chars(ps[0]) + seq![','] + member_chars(ps[1]) =~= member_chars(ps[0]) + (
        seq![','] + member_chars(ps[1])));
    } else {
        lemma_members_done_shift(ps, k - 1);
        assert(tail[k - 2] == ps[k - 1]);
        assert(members_done(ps, k) =~= member_chars(ps[0]) + (seq![','] + members_done(
            tail,
            k - 1,
        )));
    }
}

/// When no value is `undefined`, the prefix rendering of all properties is
/// the object-body rendering.
proof fn lemma_members_done_full(ps: Seq<(Seq<char>, JsVal)>)
    requires
        forall|j: int| 0 <= j < ps.len() ==> !((#[trigger] ps[j].1) is Undefined),
    ensures
        members_done(ps, ps.len() as int) == json_members(ps),
    decreases ps,
{
    if ps.len() == 0 {
    } else {
        let tail = ps.subrange(1, ps.len() as int);
        assert(forall|j: int| 0 <= j < tail.len() ==> tail[j] == ps[j + 1]);
        lemma_members_done_full(tail);
        if ps.len() == 1 {
            assert(tail =~= Seq::<(Seq<char>, JsVal)>::empty());
            assert(members_all_skipped(tail));
        } else {
            lemma_members_done_shift(ps, ps.len() as int);
            assert(!(tail[0].1 is Undefined));
            assert(!members_all_skipped(tail));
            assert(json_members(ps) =~= member_chars(ps[0]) + (seq![','] + members_done(
                tail,
                tail.len() as int,
            )));
        }
    }
}

} // verus!

verus! {

/// Mints a fresh object identity from the context. The counter saturates
/// at its largest value instead of wrapping, so identities never restart.
fn mint_id(ctx: &mut JSContext) -> (id: u64)
    ensures
        id == old(ctx).next_id,
        old(ctx).next_id <= final(ctx).next_id,
        old(ctx).next_id < 0xffff_ffff_ffff_ffff ==> final(ctx).next_id == old(ctx).next_id + 1,
        final(ctx).name == old(ctx).name,
        final(ctx).global_class == old(ctx).global_class,
{
    let id = ctx.next_id;
    if ctx.next_id < 0xffff_ffff_ffff_ffff {
        ctx.next_id = ctx.next_id + 1;
    }
    id
}

/// True for a decimal digit character.
pub open spec fn is_dec_digit(c: char) -> bool {
    exists|d: nat| d < 10 && c == dec_digit(d)
}

/// The numeric value of a decimal digit character, if it is one.
pub(crate) fn char_digit(c: char) -> (r: Option<u64>)
    ensures
        r matches Some(d) ==> d < 10 && c == dec_digit(d as nat),
        r is None ==> !is_dec_digit(c),
{
    let r = if c == '0' {
        Some(0u64)
    } else if c == '1' {
        Some(1u64)
    } else if c == '2' {
        Some(2u64)
    } else if c == '3' {
        Some(3u64)
    } else if c == '4' {
        Some(4u64)
    } else if c == '5' {
        Some(5u64)
    } else if c == '6' {
        Some(6u64)
    } else if c == '7' {
        Some(7u64)
    } else if c == '8' {
        Some(8u64)
    } else if c == '9' {
        Some(9u64)
    } else {
        None
    };
    proof {
        if r is None {
            assert forall|d: nat| d < 10 implies c != dec_digit(d) by {
                assert(dec_digit(d) == dec_digit(d));
            }
        }
    }
    r
}

/// Reads a canonical JSON string literal: a quote, characters that need no
/// escape, and a closing quote.
fn parse_string(t: &Vec<char>, pos: usize) -> (r: Option<(String, usize)>)
    requires
        pos < t@.len(),
        t@[pos as int] == '"',
    ensures
        r matches Some((s, end)) ==> (pos + 2 <= end <= t@.len() && json_string_chars(s@) == t@
            .subrange(pos as int, end as int)),
        plain_string_text(t@.subrange(pos as int, t@.len() as int)) ==> (r matches Some((s, end))
            && end == t@.len()),
{
    let n = t.len();
    let ghost hs = plain_string_text(t@.subrange(pos as int, n as int));
    proof {
        if hs {
            let suffix = t@.subrange(pos as int, n as int);
            assert(suffix[suffix.len() - 1] == t@[n - 1]);
            assert(t@[n - 1] == '"');
            assert forall|q: int| pos + 1 <= q < n - 1 implies plain_char(#[trigger] t@[q]) by {
                assert(t@[q] == suffix[q - pos]);
            }
        }
    }
    let mut content = String::new();
    let mut j = pos + 1;
    proof {
        assert(escape_chars(Seq::<char>::empty()) =~= Seq::<char>::empty());
        assert(seq!['"'] + Seq::<char>::empty() =~= t@.subrange(pos as int, pos + 1));
    }
    while j < n
        invariant
            pos < j <= n,
            n == t@.len(),
            t@[pos as int] == '"',
            seq!['"'] + escape_chars(content@) == t@.subrange(pos as int, j as int),
            hs == plain_string_text(t@.subrange(pos as int, n as int)),
            hs ==> (n >= pos + 2 && t@[n - 1] == '"' && j <= n - 1),
            hs ==> (forall|q: int| pos + 1 <= q < n - 1 ==> plain_char(#[trigger] t@[q])),
        decreases n - j,
    {
        let c = t[j];
        if c == '"' {
            proof {
                assert(t@.subrange(pos as int, j + 1) =~= t@.subrange(pos as int, j as int).push(
                    t@[j as int],
                ));
                assert(json_string_chars(content@) =~= (seq!['"'] + escape_chars(content@)).push(
                    '"',
                ));
            }
            return Some((content, j + 1));
        }
        if c == '\\' {
            return None;
        }
        if (c as u32) < 0x20 {
            return None;
        }
        let ghost prev = content@;
        push_char(&mut content, c);
        proof {
            lemma_escape_chars_push(prev, c);
            assert(content@ == prev.push(c));
            assert(escape_char(c) =~= seq![c]);
            assert(t@.subrange(pos as int, j + 1) =~= t@.subrange(pos as int, j as int).push(
                t@[j as int],
            ));
            assert(seq!['"'] + escape_chars(content@) =~= t@.subrange(pos as int, j + 1));
        }
        j = j + 1;
    }
    None
}

/// Reads a canonical JSON integer: an optional minus sign and decimal
/// digits without a redundant leading zero, of magnitude below 2^53.
/// Tests for a decimal digit character.
fn is_digit(c: char) -> (b: bool)
    ensures
        b == is_dec_digit(c),
{
    match char_digit(c) {
        Some(_) => true,
        None => false,
    }
}

fn parse_number(t: &Vec<char>, pos: usize) -> (r: Option<(u64, usize)>)
    requires
        pos < t@.len(),
    ensures
        r matches Some((bits, end)) ==> (pos < end <= t@.len() && json_number_chars(bits) == t@
            .subrange(pos as int, end as int) && json_number_ok(bits)),
        json_int_text(t@.subrange(pos as int, t@.len() as int)) ==> (r matches Some((bits, end))
            && end == t@.len()),
{
    let n = t.len();
    let neg = t[pos] == '-';
    let dstart = if neg {
        pos + 1
    } else {
        pos
    };
    let ghost suffix = t@.subrange(pos as int, n as int);
    let ghost hint = json_int_text(suffix);
    let ghost wit: int = if hint {
        choose|i: int| -0x20000000000000 < i < 0x20000000000000 && suffix == #[trigger] int_chars(i)
    } else {
        0
    };
    let ghost wm: nat = if wit < 0 {
        (-wit) as nat
    } else {
        wit as nat
    };
    proof {
        if hint {
            lemma_dec_chars_shape(wm);
            assert forall|d: nat| d < 10 implies dec_digit(d) != '-' by {}
            if wit < 0 {
                assert(suffix == seq!['-'] + dec_chars(wm));
                assert(suffix[0] == '-');
                assert(neg && dstart == pos + 1);
                assert(t@.subrange(dstart as int, n as int) =~= suffix.subrange(
                    1,
                    suffix.len() as int,
                ));
                assert(suffix.subrange(1, suffix.len() as int) =~= dec_chars(wm));
            } else {
                assert(suffix == dec_chars(wm));
                assert(suffix[0] == dec_chars(wm)[0]);
                assert(is_dec_digit(suffix[0]));
                assert(suffix[0] != '-');
                assert(!neg && dstart == pos);
                assert(t@.subrange(dstart as int, n as int) =~= dec_chars(wm));
            }
            assert(t@.subrange(dstart as int, n as int) == dec_chars(wm));
            assert(dstart < n);
            assert(wm < 0x20000000000000);
            assert(neg ==> wm >= 1);
            if t@[dstart as int] == '0' {
                assert(dec_chars(wm)[0] == '0');
                assert(wm == 0);
                assert(dec_chars(0nat).len() == 1);
                assert(n == dstart + 1);
            }
            assert forall|q: int| dstart <= q < n implies is_dec_digit(#[trigger] t@[q]) by {
                assert(t@[q] == dec_chars(wm)[q - dstart]);
            }
        }
    }
    if dstart >= n {
        return None;
    }
    let d0 = match char_digit(t[dstart]) {
        Some(d) => d,
        None => {
            return None;
        },
    };
    let mut mag: u64 = d0;
    let mut j = dstart + 1;
    proof {
        assert(t@.subrange(dstart as int, dstart + 1) =~= seq![t@[dstart as int]]);
        assert(dec_chars(mag as nat) =~= t@.subrange(dstart as int, j as int));
    }
    if d0 != 0 {
        while j < n && is_digit(t[j])
            invariant
                dstart < j <= n,
                n == t@.len(),
                1 <= mag < 0x20000000000000,
                dec_chars(mag as nat) == t@.subrange(dstart as int, j as int),
                hint == json_int_text(t@.subrange(pos as int, n as int)),
                pos <= dstart,
                hint ==> t@.subrange(dstart as int, n as int) == dec_chars(wm),
                hint ==> wm < 0x20000000000000,
            decreases n - j,
        {
            let d = match char_digit(t[j]) {
                Some(d) => d,
                None => {
                    proof {
                        assert(false);
                    }
                    0
                },
            };
            proof {
                if hint {
                    assert((mag as nat) * 10 + (d as nat) >= 10);
                    lemma_fundamental_div_mod_converse(
                        mag as int * 10 + d as int,
                        10,
                        mag as int,
                        d as int,
                    );
                    assert(dec_chars((mag as nat) * 10 + (d as nat)) == dec_chars(mag as nat).push(
                        dec_digit(d as nat),
                    ));
                    assert(t@.subrange(dstart as int, j + 1) =~= t@.subrange(
                        dstart as int,
                        j as int,
                    ).push(t@[j as int]));
                    assert(dec_digit(d as nat) == t@[j as int]);
                    assert(dec_chars((mag as nat) * 10 + (d as nat)) =~= dec_chars(wm).subrange(
                        0,
                        j + 1 - dstart,
                    ));
                    assert(dec_chars(wm).subrange(0, j + 1 - dstart) =~= t@.subrange(
                        dstart as int,
                        j + 1,
                    ));
                    lemma_dec_prefix_le((mag as nat) * 10 + (d as nat), wm);
                    assert((mag as nat) * 10 + (d as nat) < 0x20000000000000);
                    lemma_fundamental_div_mod((0x1f_ffff_ffff_ffff - d) as int, 10);
                    assert(mag <= (0x1f_ffff_ffff_ffff - d) as int / 10) by (nonlinear_arith)
                        requires
                            (mag as nat) * 10 + (d as nat) <= 0x1f_ffff_ffff_ffff,
                            (0x1f_ffff_ffff_ffff - d) as int == 10 * ((0x1f_ffff_ffff_ffff
                                - d) as int / 10) + ((0x1f_ffff_ffff_ffff - d) as int % 10),
                            0 <= ((0x1f_ffff_ffff_ffff - d) as int % 10) < 10
                    ;
                }
            }
            if mag > (0x1f_ffff_ffff_ffff - d) / 10 {
                return None;
            }
            proof {
                vstd::arithmetic::div_mod::lemma_fundamental_div_mod(
                    (0x1f_ffff_ffff_ffff - d) as int,
                    10,
                );
                assert(mag * 10 <= 0x1f_ffff_ffff_ffff - d) by (nonlinear_arith)
                    requires
                        mag <= (0x1f_ffff_ffff_ffff - d) as int / 10,
                        (0x1f_ffff_ffff_ffff - d) as int == 10 * ((0x1f_ffff_ffff_ffff - d) as int
                            / 10) + ((0x1f_ffff_ffff_ffff - d) as int % 10),
                        0 <= ((0x1f_ffff_ffff_ffff - d) as int % 10) < 10
                ;
            }
            let new_mag = mag * 10 + d;
            proof {
                lemma_fundamental_div_mod_converse(new_mag as int, 10, mag as int, d as int);
                assert(dec_chars(new_mag as nat) == dec_chars(mag as nat).push(
                    dec_digit(d as nat),
                ));
                assert(t@.subrange(dstart as int, j + 1) =~= t@.subrange(
                    dstart as int,
                    j as int,
                ).push(t@[j as int]));
            }
            mag = new_mag;
            j = j + 1;
        }
        proof {
            if hint {
                assert forall|q: int| dstart <= q < n implies is_dec_digit(#[trigger] t@[q]) by {
                    assert(t@[q] == dec_chars(wm)[q - dstart]);
                    lemma_dec_chars_shape(wm);
                }
                assert(j == n);
            }
        }
    }
    proof {
        if hint {
            if d0 == 0 {
                assert(t@[dstart as int] == '0');
                assert(j == n);
            }
            assert(t@.subrange(dstart as int, j as int) == dec_chars(wm));
            lemma_dec_chars_injective(mag as nat, wm);
            assert(mag == wm);
        }
    }
    if neg && mag == 0 {
        return None;
    }
    let ghost i: int = if neg {
        -(mag as int)
    } else {
        mag as int
    };
    let bits: u64 = if mag == 0 {
        0u64
    } else {
        let ub = pos_bits(mag);
        if neg {
            ub + 0x8000_0000_0000_0000
        } else {
            ub
        }
    };
    proof {
        assert(bits == bits_of_int(i));
        lemma_bits_int_round_trip(i);
        if neg {
            assert(t@.subrange(pos as int, j as int) =~= seq![t@[pos as int]] + t@.subrange(
                dstart as int,
                j as int,
            ));
            assert(json_number_chars(bits) =~= t@.subrange(pos as int, j as int));
        } else {
            assert(json_number_chars(bits) =~= t@.subrange(pos as int, j as int));
        }
    }
    Some((bits, j))
}

} // verus!

verus! {

/// Tests whether the object being built already has a property named
/// `key`; the parser rejects a duplicate instead of choosing between the
/// two values.
fn has_key(props: &Vec<JSProperty>, key: &String) -> bool {
    let n = props.len();
    let mut i: usize = 0;
    while i < n
        invariant
            i <= n,
            n == props@.len(),
        decreases n - i,
    {
        if props[i].key == *key {
            return true;
        }
        i = i + 1;
    }
    false
}

/// Reads one JSON value of the canonical form: the exact text the
/// serializer emits, so that the value read renders back to the text
/// consumed.
#[verifier::rlimit(80)]
fn parse_value(t: &Vec<char>, pos: usize, ctx: &mut JSContext) -> (r: Option<(JSValue, usize)>)
    requires
        pos <= t@.len(),
    ensures
        r matches Some((v, end)) ==> {
            &&& pos < end <= t@.len()
            &&& json_min(v@) == t@.subrange(pos as int, end as int)
            &&& json_numbers_ok(v@)
            &&& array_keys_ok(v@)
            &&& no_undefined_inside(v@)
        },
        json_scalar_text(t@.subrange(pos as int, t@.len() as int)) ==> (r matches Some((v, end))
            && end == t@.len()),
        old(ctx).next_id <= final(ctx).next_id,
        r matches Some((v, end)) ==> (final(ctx).next_id < 0xffff_ffff_ffff_ffff ==> ids_within(
            v@,
            old(ctx).next_id as int,
            final(ctx).next_id as int,
        )),
        final(ctx).name == old(ctx).name,
        final(ctx).global_class == old(ctx).global_class,
    decreases t@.len() - pos,
{
    let n = t.len();
    let ghost suffix = t@.subrange(pos as int, n as int);
    let ghost h = json_scalar_text(suffix);
    proof {
        if h {
            lemma_scalar_first_char(suffix);
            assert(suffix.len() == n - pos);
            assert forall|q: int| pos <= q < n implies t@[q] == suffix[q - pos] by {}
        }
    }
    if pos >= n {
        return None;
    }
    let c = t[pos];
    proof {
        if h {
            assert(c == suffix[0]);
        }
    }
    if c == 'n' {
        proof {
            if h {
                assert(suffix =~= seq!['n', 'u', 'l', 'l']);
                assert(n - pos == 4 && t@[pos + 1] == 'u' && t@[pos + 2] == 'l' && t@[pos + 3]
                    == 'l');
            }
        }
        if n - pos >= 4 && t[pos + 1] == 'u' && t[pos + 2] == 'l' && t[pos + 3] == 'l' {
            let v = JSValue { data: JSData::Null };
            proof {
                assert(t@.subrange(pos as int, pos + 4) =~= json_min(v@));
            }
            Some((v, pos + 4))
        } else {
            None
        }
    } else if c == 't' {
        proof {
            if h {
                assert(suffix =~= seq!['t', 'r', 'u', 'e']);
                assert(n - pos == 4 && t@[pos + 1] == 'r' && t@[pos + 2] == 'u' && t@[pos + 3]
                    == 'e');
            }
        }
        if n - pos >= 4 && t[pos + 1] == 'r' && t[pos + 2] == 'u' && t[pos + 3] == 'e' {
            let v = JSValue { data: JSData::Boolean(true) };
            proof {
                assert(t@.subrange(pos as int, pos + 4) =~= json_min(v@));
            }
            Some((v, pos + 4))
        } else {
            None
        }
    } else if c == 'f' {
        proof {
            if h {
                assert(suffix =~= seq!['f', 'a', 'l', 's', 'e']);
                assert(n - pos == 5 && t@[pos + 1] == 'a' && t@[pos + 2] == 'l' && t@[pos + 3]
                    == 's' && t@[pos + 4] == 'e');
            }
        }
        if n - pos >= 5 && t[pos + 1] == 'a' && t[pos + 2] == 'l' && t[pos + 3] == 's' && t[pos
            + 4] == 'e' {
            let v = JSValue { data: JSData::Boolean(false) };
            proof {
                assert(t@.subrange(pos as int, pos + 5) =~= json_min(v@));
            }
            Some((v, pos + 5))
        } else {
            None
        }
    } else if c == '"' {
        match parse_string(t, pos) {
            Some((s, end)) => {
                let v = JSValue { data: JSData::Str(s) };
                Some((v, end))
            },
            None => None,
        }
    } else if c == '[' {
        proof {
            if h {
                assert forall|d: nat| d < 10 implies dec_digit(d) != '[' by {}
                assert(!is_dec_digit('['));
                assert(false);
            }
        }
        let id = mint_id(ctx);
        let mut props: Vec<JSProperty> = Vec::new();
        let mut cur = pos + 1;
        if cur < n && t[cur] == ']' {
            let v = JSValue {
                data: JSData::Object(
                    JSObjectData {
                        id,
                        array: true,
                        date: false,
                        class: None,
                        private: None,
                        props,
                    },
                ),
            };
            proof {
                assert(props_view(Seq::<JSProperty>::empty()) =~= Seq::<(
                    Seq<char>,
                    JsVal,
                )>::empty());
                assert(keys_are_indices(Seq::<(Seq<char>, JsVal)>::empty(), 0));
                assert(props_keys_ok(Seq::<(Seq<char>, JsVal)>::empty()));
                assert(props_no_undefined(Seq::<(Seq<char>, JsVal)>::empty()));
                assert(props_ids_within(
                    Seq::<(Seq<char>, JsVal)>::empty(),
                    old(ctx).next_id as int,
                    ctx.next_id as int,
                ));
                assert(t@.subrange(pos as int, pos + 2) =~= json_min(v@));
            }
            return Some((v, pos + 2));
        }
        loop
            invariant
                pos < cur <= n,
                n == t@.len(),
                props@.len() < cur - pos,
                json_numbers_ok_props(props_view(props@)),
                keys_are_indices(props_view(props@), 0),
                props_keys_ok(props_view(props@)),
                props_no_undefined(props_view(props@)),
                !json_scalar_text(t@.subrange(pos as int, n as int)),
                t@.subrange(pos as int, cur as int) == seq!['['] + elems_done(
                    props_view(props@),
                    props@.len() as int,
                ) + (if props@.len() > 0 {
                    seq![',']
                } else {
                    Seq::<char>::empty()
                }),
                props_view(props@).len() == props@.len(),
                old(ctx).next_id <= ctx.next_id,
                ctx.next_id < 0xffff_ffff_ffff_ffff ==> (old(ctx).next_id < ctx.next_id && id
                    == old(ctx).next_id && props_ids_within(
                    props_view(props@),
                    old(ctx).next_id as int,
                    ctx.next_id as int,
                )),
                ctx.name == old(ctx).name,
                ctx.global_class == old(ctx).global_class,
            decreases n - cur,
        {
            let ghost pv = props_view(props@);
            let ghost k = props@.len() as int;
            let ghost prev_next = ctx.next_id;
            let child = match parse_value(t, cur, ctx) {
                Some(p) => p,
                None => {
                    return None;
                },
            };
            let (v, end) = child;
            let key = u64_decimal(props.len() as u64);
            let ghost x = (key@, v@);
            proof {
                crate::jsc::value::lemma_props_view_push(
                    props@,
                    JSProperty { key: key, value: v },
                );
            }
            let vd = v.data;
            props.push(JSProperty { key, value: JSValue { data: vd } });
            proof {
                lemma_elems_done_push(pv, x, k);
                lemma_ok_props_push(pv, x);
                lemma_keys_indices_push(pv, x, 0);
                lemma_props_keys_ok_push(pv, x);
                lemma_props_no_undefined_push(pv, x);
                lemma_props_ids_within_push(
                    pv,
                    x,
                    old(ctx).next_id as int,
                    ctx.next_id as int,
                );
                if ctx.next_id < 0xffff_ffff_ffff_ffff {
                    lemma_props_ids_within_widen(
                        pv,
                        old(ctx).next_id as int,
                        prev_next as int,
                        old(ctx).next_id as int,
                        ctx.next_id as int,
                    );
                    lemma_ids_within_widen(
                        v@,
                        prev_next as int,
                        ctx.next_id as int,
                        old(ctx).next_id as int,
                        ctx.next_id as int,
                    );
                }
                assert(props_view(props@) == pv.push(x));
                assert(elems_done(pv.push(x), k + 1) == elems_done(pv.push(x), k) + (if k > 0 {
                    seq![',']
                } else {
                    Seq::<char>::empty()
                }) + json_min(v@)) by {
                    if k == 0 {
                        assert(pv.push(x)[0] == x);
                        assert(elems_done(pv.push(x), 1) == json_min(x.1));
                        assert(elems_done(pv.push(x), 0) + Seq::<char>::empty() + json_min(v@)
                            =~= json_min(x.1));
                    } else {
                        assert(pv.push(x)[k] == x);
                    }
                }
                assert(t@.subrange(pos as int, end as int) =~= t@.subrange(pos as int, cur as int)
                    + t@.subrange(cur as int, end as int));
                assert(t@.subrange(pos as int, end as int) =~= seq!['['] + elems_done(
                    pv.push(x),
                    k + 1,
                ));
            }
            if end < n && t[end] == ',' {
                proof {
                    assert(t@.subrange(pos as int, end + 1) =~= t@.subrange(
                        pos as int,
                        end as int,
                    ).push(t@[end as int]));
                }
                cur = end + 1;
            } else if end < n && t[end] == ']' {
                let v = JSValue {
                    data: JSData::Object(
                        JSObjectData {
                            id,
                            array: true,
                            date: false,
                            class: None,
                            private: None,
                            props,
                        },
                    ),
                };
                proof {
                    lemma_elems_done_full(pv.push(x));
                    assert(t@.subrange(pos as int, end + 1) =~= t@.subrange(
                        pos as int,
                        end as int,
                    ).push(t@[end as int]));
                    assert(t@.subrange(pos as int, end + 1) =~= json_min(v@));
                }
                return Some((v, end + 1));
            } else {
                return None;
            }
        }
    } else if c == '{' {
        proof {
            if h {
                assert forall|d: nat| d < 10 implies dec_digit(d) != '{' by {}
                assert(!is_dec_digit('{'));
                assert(false);
            }
        }
        let id = mint_id(ctx);
        let mut props: Vec<JSProperty> = Vec::new();
        let mut cur = pos + 1;
        if cur < n && t[cur] == '}' {
            let v = JSValue {
                data: JSData::Object(
                    JSObjectData {
                        id,
                        array: false,
                        date: false,
                        class: None,
                        private: None,
                        props,
                    },
                ),
            };
            proof {
                assert(props_view(Seq::<JSProperty>::empty()) =~= Seq::<(
                    Seq<char>,
                    JsVal,
                )>::empty());
                assert(props_keys_ok(Seq::<(Seq<char>, JsVal)>::empty()));
                assert(props_no_undefined(Seq::<(Seq<char>, JsVal)>::empty()));
                assert(props_ids_within(
                    Seq::<(Seq<char>, JsVal)>::empty(),
                    old(ctx).next_id as int,
                    ctx.next_id as int,
                ));
                assert(t@.subrange(pos as int, pos + 2) =~= json_min(v@));
            }
            return Some((v, pos + 2));
        }
        loop
            invariant
                pos < cur <= n,
                n == t@.len(),
                props@.len() < cur - pos,
                json_numbers_ok_props(props_view(props@)),
                props_keys_ok(props_view(props@)),
                props_no_undefined(props_view(props@)),
                !json_scalar_text(t@.subrange(pos as int, n as int)),
                forall|j: int|
                    0 <= j < props_view(props@).len() ==> !((#[trigger] props_view(
                        props@,
                    )[j].1) is Undefined),
                t@.subrange(pos as int, cur as int) == seq!['{'] + members_done(
                    props_view(props@),
                    props@.len() as int,
                ) + (if props@.len() > 0 {
                    seq![',']
                } else {
                    Seq::<char>::empty()
                }),
                props_view(props@).len() == props@.len(),
                old(ctx).next_id <= ctx.next_id,
                ctx.next_id < 0xffff_ffff_ffff_ffff ==> (old(ctx).next_id < ctx.next_id && id
                    == old(ctx).next_id && props_ids_within(
                    props_view(props@),
                    old(ctx).next_id as int,
                    ctx.next_id as int,
                )),
                ctx.name == old(ctx).name,
                ctx.global_class == old(ctx).global_class,
            decreases n - cur,
        {
            let ghost pv = props_view(props@);
            let ghost k = props@.len() as int;
            let ghost prev_next = ctx.next_id;
            if !(cur < n && t[cur] == '"') {
                return None;
            }
            let (key, kend) = match parse_string(t, cur) {
                Some(p) => p,
                None => {
                    return None;
                },
            };
            if has_key(&props, &key) {
                return None;
            }
            if !(kend < n && t[kend] == ':') {
                return None;
            }
            let vstart = kend + 1;
            let child = match parse_value(t, vstart, ctx) {
                Some(p) => p,
                None => {
                    return None;
                },
            };
            let (v, end) = child;
            let ghost x = (key@, v@);
            proof {
                crate::jsc::value::lemma_props_view_push(
                    props@,
                    JSProperty { key: key, value: v },
                );
            }
            let vd = v.data;
            props.push(JSProperty { key, value: JSValue { data: vd } });
            proof {
                lemma_members_done_push(pv, x, k);
                lemma_ok_props_push(pv, x);
                lemma_props_keys_ok_push(pv, x);
                lemma_props_no_undefined_push(pv, x);
                lemma_props_ids_within_push(
                    pv,
                    x,
                    old(ctx).next_id as int,
                    ctx.next_id as int,
                );
                if ctx.next_id < 0xffff_ffff_ffff_ffff {
                    lemma_props_ids_within_widen(
                        pv,
                        old(ctx).next_id as int,
                        prev_next as int,
                        old(ctx).next_id as int,
                        ctx.next_id as int,
                    );
                    lemma_ids_within_widen(
                        v@,
                        prev_next as int,
                        ctx.next_id as int,
                        old(ctx).next_id as int,
                        ctx.next_id as int,
                    );
                }
                assert(props_view(props@) == pv.push(x));
                assert(member_chars(x) == json_string_chars(key@) + seq![':'] + json_min(v@));
                assert(members_done(pv.push(x), k + 1) == members_done(pv.push(x), k) + (if k > 0 {
                    seq![',']
                } else {
                    Seq::<char>::empty()
                }) + member_chars(x)) by {
                    if k == 0 {
                        assert(pv.push(x)[0] == x);
                        assert(members_done(pv.push(x), 1) == member_chars(x));
                        assert(members_done(pv.push(x), 0) + Seq::<char>::empty() + member_chars(x)
                            =~= member_chars(x));
                    } else {
                        assert(pv.push(x)[k] == x);
                    }
                }
                assert(t@.subrange(cur as int, vstart as int) =~= t@.subrange(
                    cur as int,
                    kend as int,
                ).push(t@[kend as int]));
                assert(t@.subrange(cur as int, end as int) =~= t@.subrange(
                    cur as int,
                    vstart as int,
                ) + t@.subrange(vstart as int, end as int));
                assert(t@.subrange(cur as int, end as int) =~= member_chars(x));
                assert(t@.subrange(pos as int, end as int) =~= t@.subrange(pos as int, cur as int)
                    + t@.subrange(cur as int, end as int));
                assert(t@.subrange(pos as int, end as int) =~= seq!['{'] + members_done(
                    pv.push(x),
                    k + 1,
                ));
            }
            if end < n && t[end] == ',' {
                proof {
                    assert(t@.subrange(pos as int, end + 1) =~= t@.subrange(
                        pos as int,
                        end as int,
                    ).push(t@[end as int]));
                }
                cur = end + 1;
            } else if end < n && t[end] == '}' {
                let v = JSValue {
                    data: JSData::Object(
                        JSObjectData {
                            id,
                            array: false,
                            date: false,
                            class: None,
                            private: None,
                            props,
                        },
                    ),
                };
                proof {
                    lemma_members_done_full(pv.push(x));
                    assert(t@.subrange(pos as int, end + 1) =~= t@.subrange(
                        pos as int,
                        end as int,
                    ).push(t@[end as int]));
                    assert(t@.subrange(pos as int, end + 1) =~= json_min(v@));
                }
                return Some((v, end + 1));
            } else {
                return None;
            }
        }
    } else {
        match parse_number(t, pos) {
            Some((bits, end)) => {
                let v = JSValue { data: JSData::Number(bits) };
                Some((v, end))
            },
            None => None,
        }
    }
}

impl JSValue {
    /// Builds a value from JSON text.
    ///
    /// Whitespace between tokens is ignored. Within tokens this model
    /// reads the canonical form the serializer emits: integers of
    /// magnitude below 2^53 with no fraction, exponent or redundant
    /// leading zero, strings without escape sequences, and objects
    /// without a repeated property name. A value read here renders back,
    /// compactly, to the very text it was read from, and holds no
    /// `undefined` anywhere, so its rendering shows every property it
    /// has. Success is owed at least on every scalar of that form — the
    /// three literals, an integer the model holds exactly, a string
    /// literal needing no escape; for composite text the tests exercise
    /// what the contract leaves open. Any other text yields the unit
    /// error, which carries no detail.
    pub fn new_from_json(ctx: &mut JSContext, string: &str) -> (r: Result<JSValue, ()>)
        ensures
            r matches Ok(v) ==> {
                &&& json_min(v@) == despace(string@)
                &&& json_numbers_ok(v@)
                &&& array_keys_ok(v@)
                &&& no_undefined_inside(v@)
            },
            json_scalar_text(despace(string@)) ==> r is Ok,
            old(ctx).next_id <= final(ctx).next_id,
            r matches Ok(v) ==> (final(ctx).next_id < 0xffff_ffff_ffff_ffff ==> ids_within(
                v@,
                old(ctx).next_id as int,
                final(ctx).next_id as int,
            )),
            final(ctx).name == old(ctx).name,
            final(ctx).global_class == old(ctx).global_class,
    {
        let t = despace_chars(string);
        proof {
            assert(t@.subrange(0, t@.len() as int) =~= t@);
        }
        match parse_value(&t, 0, ctx) {
            Some((v, end)) => {
                if end == t.len() {
                    Ok(v)
                } else {
                    Err(())
                }
            },
            None => Err(()),
        }
    }
}

} // verus!

verus! {

/// Reads the integer magnitude a double's bit pattern holds, if it holds
/// an integer of magnitude below 2^53; the sign stands in the pattern's
/// top bit.
pub(crate) fn bits_int_mag(b: u64) -> (r: Option<u64>)
    ensures
        r is Some <==> bits_int_value(b) is Some,
        r matches Some(m) ==> (m < 0x20000000000000 && bits_int_value(b) == Some(
            if b >= 0x8000_0000_0000_0000 {
                -(m as int)
            } else {
                m as int
            },
        )),
{
    let er = (b / 0x10000000000000) % 0x800;
    let f = b % 0x10000000000000;
    if er == 0 && f == 0 {
        Some(0)
    } else if er == 0 || er == 0x7ff || er < 1023 || er > 1075 {
        None
    } else {
        let sh = 1075 - er;
        let p = pow2_u64(sh);
        proof {
            vstd::arithmetic::power2::lemma_pow2_pos(sh as nat);
        }
        if f % p == 0 {
            let m = (0x10000000000000 + f) / p;
            proof {
                vstd::arithmetic::div_mod::lemma_div_nonincreasing(
                    (0x10000000000000 + f) as int,
                    p as int,
                );
                vstd::arithmetic::div_mod::lemma_div_pos_is_pos(
                    (0x10000000000000 + f) as int,
                    p as int,
                );
            }
            Some(m)
        } else {
            None
        }
    }
}

} // verus!

verus! {

/// Distinct numbers have distinct decimal renderings.
pub proof fn lemma_dec_chars_injective(a: nat, b: nat)
    requires
        dec_chars(a) == dec_chars(b),
    ensures
        a == b,
    decreases a + b,
{
    lemma_dec_chars_len(a);
    lemma_dec_chars_len(b);
    if a < 10 && b < 10 {
        assert(dec_chars(a)[0] == dec_digit(a));
        assert(dec_chars(b)[0] == dec_digit(b));
        assert(dec_digit(a) == dec_digit(b));
        assert(a == b);
    } else if a >= 10 && b >= 10 {
        assert(dec_chars(a) == dec_chars(a / 10).push(dec_digit(a % 10)));
        assert(dec_chars(b) == dec_chars(b / 10).push(dec_digit(b % 10)));
        assert(dec_chars(a).last() == dec_digit(a % 10));
        assert(dec_chars(b).last() == dec_digit(b % 10));
        assert(dec_digit(a % 10) == dec_digit(b % 10));
        assert(a % 10 == b % 10);
        assert(dec_chars(a / 10).push(dec_digit(a % 10)).drop_last() =~= dec_chars(a / 10));
        assert(dec_chars(b / 10).push(dec_digit(b % 10)).drop_last() =~= dec_chars(b / 10));
        assert(dec_chars(a / 10) == dec_chars(b / 10));
        lemma_dec_chars_injective(a / 10, b / 10);
        lemma_fundamental_div_mod(a as int, 10);
        lemma_fundamental_div_mod(b as int, 10);
    } else {
        assert(dec_chars(a).len() == dec_chars(b).len());
        assert(false);
    }
}

/// A one-digit number renders as one character, a larger one as more.
proof fn lemma_dec_chars_len(n: nat)
    ensures
        n < 10 ==> dec_chars(n).len() == 1,
        n >= 10 ==> dec_chars(n).len() >= 2,
    decreases n,
{
    if n >= 10 {
        lemma_dec_chars_len(n / 10);
    }
}

/// True when the property names are the decimal strings of the positions,
/// counted from `k`: the layout of an array's elements.
pub open spec fn keys_are_indices(ps: Seq<(Seq<char>, JsVal)>, k: nat) -> bool
    decreases ps,
{
    if ps.len() == 0 {
        true
    } else {
        ps[0].0 == dec_chars(k) && keys_are_indices(ps.subrange(1, ps.len() as int), k + 1)
    }
}

/// True when, throughout the value, every array's element names are the
/// decimal strings of the element positions.
pub open spec fn array_keys_ok(v: JsVal) -> bool
    decreases v,
{
    match v {
        JsVal::Object(o) => (o.array ==> keys_are_indices(o.props, 0)) && props_keys_ok(o.props),
        _ => true,
    }
}

/// True when every property value has well-laid-out arrays throughout.
pub open spec fn props_keys_ok(ps: Seq<(Seq<char>, JsVal)>) -> bool
    decreases ps,
{
    if ps.len() == 0 {
        true
    } else {
        array_keys_ok(ps[0].1) && props_keys_ok(ps.subrange(1, ps.len() as int))
    }
}

/// Appending a property with the next index name keeps the index layout.
proof fn lemma_keys_indices_push(ps: Seq<(Seq<char>, JsVal)>, x: (Seq<char>, JsVal), k: nat)
    requires
        keys_are_indices(ps, k),
        x.0 == dec_chars((k + ps.len()) as nat),
    ensures
        keys_are_indices(ps.push(x), k),
    decreases ps,
{
    if ps.len() == 0 {
        assert(ps.push(x)[0] == x);
        assert(ps.push(x).subrange(1, ps.push(x).len() as int) =~= Seq::<(Seq<char>, JsVal)>::empty());
        assert(keys_are_indices(Seq::<(Seq<char>, JsVal)>::empty(), k + 1));
    } else {
        let tail = ps.subrange(1, ps.len() as int);
        assert(ps.push(x).subrange(1, ps.push(x).len() as int) =~= tail.push(x));
        lemma_keys_indices_push(tail, x, k + 1);
        assert(ps.push(x)[0] == ps[0]);
    }
}

/// Appending a property conjoins its array layout to the sequence's.
proof fn lemma_props_keys_ok_push(ps: Seq<(Seq<char>, JsVal)>, x: (Seq<char>, JsVal))
    ensures
        props_keys_ok(ps.push(x)) == (props_keys_ok(ps) && array_keys_ok(x.1)),
    decreases ps,
{
    if ps.len() == 0 {
        assert(ps.push(x).subrange(1, ps.push(x).len() as int) =~= Seq::<(Seq<char>, JsVal)>::empty());
        assert(ps.push(x)[0] == x);
        assert(props_keys_ok(Seq::<(Seq<char>, JsVal)>::empty()));
        assert(props_keys_ok(ps.push(x)) == (array_keys_ok(x.1) && props_keys_ok(
            ps.push(x).subrange(1, ps.push(x).len() as int),
        )));
    } else {
        let tail = ps.subrange(1, ps.len() as int);
        assert(ps.push(x).subrange(1, ps.push(x).len() as int) =~= tail.push(x));
        lemma_props_keys_ok_push(tail, x);
        assert(ps.push(x)[0] == ps[0]);
        assert(props_keys_ok(ps.push(x)) == (array_keys_ok(ps[0].1) && props_keys_ok(
            tail.push(x),
        )));
        assert(props_keys_ok(ps) == (array_keys_ok(ps[0].1) && props_keys_ok(tail)));
    }
}

} // verus!

verus! {

/// True when the value holds no `undefined` anywhere: not itself, not as
/// an array element, not as a property value. For such a value the
/// serializer skips nothing, so the rendering shows every property the
/// value has.
pub open spec fn no_undefined_inside(v: JsVal) -> bool
    decreases v,
{
    match v {
        JsVal::Undefined => false,
        JsVal::Object(o) => props_no_undefined(o.props),
        _ => true,
    }
}

/// True when every property value holds no `undefined` anywhere.
pub open spec fn props_no_undefined(ps: Seq<(Seq<char>, JsVal)>) -> bool
    decreases ps,
{
    if ps.len() == 0 {
        true
    } else {
        no_undefined_inside(ps[0].1) && props_no_undefined(ps.subrange(1, ps.len() as int))
    }
}

/// Appending a property conjoins its freedom from `undefined` to the
/// sequence's.
proof fn lemma_props_no_undefined_push(ps: Seq<(Seq<char>, JsVal)>, x: (Seq<char>, JsVal))
    ensures
        props_no_undefined(ps.push(x)) == (props_no_undefined(ps) && no_undefined_inside(x.1)),
    decreases ps,
{
    if ps.len() == 0 {
        assert(ps.push(x).subrange(1, ps.push(x).len() as int) =~= Seq::<(Seq<char>, JsVal)>::empty());
        assert(ps.push(x)[0] == x);
        assert(props_no_undefined(Seq::<(Seq<char>, JsVal)>::empty()));
        assert(props_no_undefined(ps.push(x)) == (no_undefined_inside(x.1) && props_no_undefined(
            ps.push(x).subrange(1, ps.push(x).len() as int),
        )));
    } else {
        let tail = ps.subrange(1, ps.len() as int);
        assert(ps.push(x).subrange(1, ps.push(x).len() as int) =~= tail.push(x));
        lemma_props_no_undefined_push(tail, x);
        assert(ps.push(x)[0] == ps[0]);
        assert(props_no_undefined(ps.push(x)) == (no_undefined_inside(ps[0].1)
            && props_no_undefined(tail.push(x))));
        assert(props_no_undefined(ps) == (no_undefined_inside(ps[0].1) && props_no_undefined(
            tail,
        )));
    }
}

} // verus!

verus! {

/// A character that stands for itself inside a JSON string literal:
/// neither quote nor backslash nor a control character.
pub open spec fn plain_char(c: char) -> bool {
    c != '"' && c != '\\' && (c as u32) >= 0x20
}

/// A JSON string literal whose content needs no escape.
pub open spec fn plain_string_text(t: Seq<char>) -> bool {
    &&& t.len() >= 2
    &&& t[0] == '"'
    &&& t[t.len() - 1] == '"'
    &&& forall|j: int| 1 <= j < t.len() - 1 ==> plain_char(#[trigger] t[j])
}

/// The canonical decimal rendering of an integer.
pub open spec fn int_chars(i: int) -> Seq<char> {
    if i < 0 {
        seq!['-'] + dec_chars((-i) as nat)
    } else {
        dec_chars(i as nat)
    }
}

/// The rendering of an integer whose magnitude a double holds exactly.
pub open spec fn json_int_text(t: Seq<char>) -> bool {
    exists|i: int|
        -0x20000000000000 < i < 0x20000000000000 && t == #[trigger] int_chars(i)
}

/// The rendering of one scalar JSON value: a literal, an integer of the
/// exact range, or a string literal needing no escape.
pub open spec fn json_scalar_text(t: Seq<char>) -> bool {
    ||| t == seq!['n', 'u', 'l', 'l']
    ||| t == seq!['t', 'r', 'u', 'e']
    ||| t == seq!['f', 'a', 'l', 's', 'e']
    ||| json_int_text(t)
    ||| plain_string_text(t)
}

/// Every character of a decimal rendering is a digit, and the first is
/// zero only for the rendering of zero itself.
proof fn lemma_dec_chars_shape(n: nat)
    ensures
        dec_chars(n).len() >= 1,
        forall|j: int| 0 <= j < dec_chars(n).len() ==> is_dec_digit(#[trigger] dec_chars(n)[j]),
        n >= 1 ==> dec_chars(n)[0] != '0',
    decreases n,
{
    if n < 10 {
        assert(dec_chars(n)[0] == dec_digit(n));
        assert(is_dec_digit(dec_digit(n))) by {
            assert(dec_digit(n) == dec_digit(n));
        }
    } else {
        lemma_dec_chars_shape(n / 10);
        assert(dec_chars(n) == dec_chars(n / 10).push(dec_digit(n % 10)));
        assert(is_dec_digit(dec_digit(n % 10))) by {
            assert(dec_digit(n % 10) == dec_digit((n % 10) as nat));
        }
        assert forall|j: int| 0 <= j < dec_chars(n).len() implies is_dec_digit(
            #[trigger] dec_chars(n)[j],
        ) by {
            if j < dec_chars(n / 10).len() {
                assert(dec_chars(n)[j] == dec_chars(n / 10)[j]);
            } else {
                assert(dec_chars(n)[j] == dec_digit(n % 10));
            }
        }
        assert(dec_chars(n)[0] == dec_chars(n / 10)[0]);
    }
}

/// The value whose rendering is a prefix of another's is no larger.
proof fn lemma_dec_prefix_le(a: nat, m: nat)
    requires
        dec_chars(a).len() <= dec_chars(m).len(),
        dec_chars(m).subrange(0, dec_chars(a).len() as int) == dec_chars(a),
    ensures
        a <= m,
    decreases m,
{
    lemma_dec_chars_shape(a);
    lemma_dec_chars_shape(m);
    if dec_chars(a).len() == dec_chars(m).len() {
        assert(dec_chars(m).subrange(0, dec_chars(m).len() as int) =~= dec_chars(m));
        lemma_dec_chars_injective(a, m);
    } else {
        assert(m >= 10) by {
            lemma_dec_chars_len(a);
            lemma_dec_chars_len(m);
        }
        assert(dec_chars(m) == dec_chars(m / 10).push(dec_digit(m % 10)));
        assert(dec_chars(m / 10).subrange(0, dec_chars(a).len() as int) =~= dec_chars(m).subrange(
            0,
            dec_chars(a).len() as int,
        ));
        lemma_dec_prefix_le(a, m / 10);
        lemma_fundamental_div_mod(m as int, 10);
    }
}

/// A scalar rendering is told apart by its first character: the literals
/// by their first letters, a string by its quote, and anything else is an
/// integer, which starts with a minus sign or a digit.
proof fn lemma_scalar_first_char(t: Seq<char>)
    requires
        json_scalar_text(t),
    ensures
        t.len() > 0,
        t[0] == 'n' ==> t == seq!['n', 'u', 'l', 'l'],
        t[0] == 't' ==> t == seq!['t', 'r', 'u', 'e'],
        t[0] == 'f' ==> t == seq!['f', 'a', 'l', 's', 'e'],
        t[0] == '"' ==> plain_string_text(t),
        json_int_text(t) ==> (t[0] == '-' || is_dec_digit(t[0])),
        (t[0] != 'n' && t[0] != 't' && t[0] != 'f' && t[0] != '"') ==> json_int_text(t),
{
    if json_int_text(t) {
        let i = choose|i: int|
            -0x20000000000000 < i < 0x20000000000000 && t == #[trigger] int_chars(i);
        if i < 0 {
            assert(t[0] == '-');
        } else {
            lemma_dec_chars_shape(i as nat);
            assert(t[0] == dec_chars(i as nat)[0]);
        }
        assert forall|d: nat| d < 10 implies dec_digit(d) != 'n' && dec_digit(d) != 't'
            && dec_digit(d) != 'f' && dec_digit(d) != '"' by {}
        assert(t[0] != 'n' && t[0] != 't' && t[0] != 'f' && t[0] != '"');
    }
}

} // verus!

verus! {

/// Every object identity in the value lies in the half-open range.
pub open spec fn ids_within(v: JsVal, lo: int, hi: int) -> bool
    decreases v, 0int,
{
    match v {
        JsVal::Object(o) => lo <= o.id < hi && props_ids_within(o.props, lo, hi),
        _ => true,
    }
}

/// Every object identity under the properties lies in the range.
pub open spec fn props_ids_within(ps: Seq<(Seq<char>, JsVal)>, lo: int, hi: int) -> bool
    decreases ps, 0int,
{
    if ps.len() == 0 {
        true
    } else {
        ids_within(ps[0].1, lo, hi) && props_ids_within(ps.subrange(1, ps.len() as int), lo, hi)
    }
}

/// A wider range keeps every identity inside.
pub proof fn lemma_ids_within_widen(v: JsVal, lo: int, hi: int, lo2: int, hi2: int)
    requires
        ids_within(v, lo, hi),
        lo2 <= lo,
        hi <= hi2,
    ensures
        ids_within(v, lo2, hi2),
    decreases v, 0int,
{
    match v {
        JsVal::Object(o) => {
            lemma_props_ids_within_widen(o.props, lo, hi, lo2, hi2);
        },
        _ => {},
    }
}

/// A wider range keeps every identity under the properties inside.
pub proof fn lemma_props_ids_within_widen(
    ps: Seq<(Seq<char>, JsVal)>,
    lo: int,
    hi: int,
    lo2: int,
    hi2: int,
)
    requires
        props_ids_within(ps, lo, hi),
        lo2 <= lo,
        hi <= hi2,
    ensures
        props_ids_within(ps, lo2, hi2),
    decreases ps, 1int,
{
    if ps.len() > 0 {
        lemma_ids_within_widen(ps[0].1, lo, hi, lo2, hi2);
        lemma_props_ids_within_widen(ps.subrange(1, ps.len() as int), lo, hi, lo2, hi2);
    }
}

/// Appending a property conjoins its identity range to the sequence's.
proof fn lemma_props_ids_within_push(
    ps: Seq<(Seq<char>, JsVal)>,
    x: (Seq<char>, JsVal),
    lo: int,
    hi: int,
)
    ensures
        props_ids_within(ps.push(x), lo, hi) == (props_ids_within(ps, lo, hi) && ids_within(
            x.1,
            lo,
            hi,
        )),
    decreases ps,
{
    if ps.len() == 0 {
        assert(ps.push(x).subrange(1, ps.push(x).len() as int) =~= Seq::<(Seq<char>, JsVal)>::empty());
        assert(ps.push(x)[0] == x);
        assert(props_ids_within(Seq::<(Seq<char>, JsVal)>::empty(), lo, hi));
        assert(props_ids_within(ps.push(x), lo, hi) == (ids_within(x.1, lo, hi)
            && props_ids_within(ps.push(x).subrange(1, ps.push(x).len() as int), lo, hi)));
    } else {
        let tail = ps.subrange(1, ps.len() as int);
        assert(ps.push(x).subrange(1, ps.push(x).len() as int) =~= tail.push(x));
        lemma_props_ids_within_push(tail, x, lo, hi);
        assert(ps.push(x)[0] == ps[0]);
        assert(props_ids_within(ps.push(x), lo, hi) == (ids_within(ps[0].1, lo, hi)
            && props_ids_within(tail.push(x), lo, hi)));
        assert(props_ids_within(ps, lo, hi) == (ids_within(ps[0].1, lo, hi) && props_ids_within(
            tail,
            lo,
            hi,
        )));
    }
}

} // verus!
