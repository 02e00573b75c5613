//! The engine's UTF-16 string buffer and its conversions.
//!
//! A [`JSString`] holds UTF-16 code units. Host strings are UTF-8, so each
//! conversion re-encodes the whole text: a character below `0x10000`
//! becomes one code unit, any other becomes a surrogate pair. Buffers built
//! by this module are always well formed (no unpaired surrogate), and
//! converting a host string in and back out returns the same text.

use vstd::arithmetic::div_mod::{
    lemma_div_is_ordered, lemma_div_pos_is_pos, lemma_fundamental_div_mod,
};
use vstd::prelude::*;

use crate::jsc::JSString;

verus! {

/// True for a UTF-16 high (leading) surrogate.
pub open spec fn is_high_surrogate(u: u16) -> bool {
    0xd800 <= u <= 0xdbff
}

/// True for a UTF-16 low (trailing) surrogate.
pub open spec fn is_low_surrogate(u: u16) -> bool {
    0xdc00 <= u <= 0xdfff
}

/// The scalar value encoded by a surrogate pair.
pub open spec fn combine_surrogates(hi: u16, lo: u16) -> u32 {
    (0x10000 + (hi - 0xd800) * 0x400 + (lo - 0xdc00)) as u32
}

/// The UTF-16 encoding of one character.
pub open spec fn utf16_of_char(c: char) -> Seq<u16> {
    let u = c as u32;
    if u < 0x10000 {
        seq![u as u16]
    } else {
        seq![
            (0xd800 + (u - 0x10000) / 0x400) as u16,
            (0xdc00 + (u - 0x10000) % 0x400) as u16,
        ]
    }
}

/// The UTF-16 encoding of a text.
pub open spec fn utf16_of(s: Seq<char>) -> Seq<u16>
    decreases s.len(),
{
    if s.len() == 0 {
        Seq::empty()
    } else {
        utf16_of_char(s[0]) + utf16_of(s.subrange(1, s.len() as int))
    }
}

/// True when the code units form a well-formed UTF-16 encoding: every high
/// surrogate is followed by a low one, and no low surrogate stands alone.
pub open spec fn wf_utf16(u: Seq<u16>) -> bool
    decreases u.len(),
{
    if u.len() == 0 {
        true
    } else if is_high_surrogate(u[0]) {
        u.len() >= 2 && is_low_surrogate(u[1]) && wf_utf16(u.subrange(2, u.len() as int))
    } else {
        !is_low_surrogate(u[0]) && wf_utf16(u.subrange(1, u.len() as int))
    }
}

/// The text encoded by well-formed UTF-16 code units.
pub open spec fn chars_of(u: Seq<u16>) -> Seq<char>
    recommends
        wf_utf16(u),
    decreases u.len(),
{
    if u.len() == 0 {
        Seq::empty()
    } else if is_high_surrogate(u[0]) && u.len() >= 2 && is_low_surrogate(u[1]) {
        seq![combine_surrogates(u[0], u[1]) as char] + chars_of(u.subrange(2, u.len() as int))
    } else {
        seq![u[0] as u32 as char] + chars_of(u.subrange(1, u.len() as int))
    }
}

/// One character's encoding decodes back to that character, and never
/// starts with anything that could be mistaken for a trailing unit.
proof fn lemma_char_units(c: char)
    ensures
        utf16_of_char(c).len() == 1 || utf16_of_char(c).len() == 2,
        utf16_of_char(c).len() == 1 ==> !is_high_surrogate(utf16_of_char(c)[0])
            && !is_low_surrogate(utf16_of_char(c)[0]) && utf16_of_char(c)[0] as u32 as char == c,
        utf16_of_char(c).len() == 2 ==> is_high_surrogate(utf16_of_char(c)[0])
            && is_low_surrogate(utf16_of_char(c)[1]) && combine_surrogates(
            utf16_of_char(c)[0],
            utf16_of_char(c)[1],
        ) as char == c,
{
    let u = c as u32;
    if u < 0x10000 {
    } else {
        let x = (u - 0x10000) as int;
        lemma_div_pos_is_pos(x, 0x400);
        lemma_div_is_ordered(x, 0xfffff, 0x400);
        lemma_fundamental_div_mod(x, 0x400);
    }
}

/// A text's encoding is well formed and decodes back to the text.
pub proof fn lemma_utf16_round_trip(s: Seq<char>)
    ensures
        wf_utf16(utf16_of(s)),
        chars_of(utf16_of(s)) == s,
    decreases s.len(),
{
    if s.len() == 0 {
        assert(chars_of(utf16_of(s)) =~= s);
    } else {
        let tail = s.subrange(1, s.len() as int);
        lemma_utf16_round_trip(tail);
        lemma_char_units(s[0]);
        let head = utf16_of_char(s[0]);
        let rest = utf16_of(tail);
        let whole = head + rest;
        assert(utf16_of(s) == whole);
        if head.len() == 1 {
            assert(whole.subrange(1, whole.len() as int) =~= rest);
            assert(wf_utf16(whole));
            assert(chars_of(whole) =~= seq![s[0]] + chars_of(rest));
        } else {
            assert(whole.subrange(2, whole.len() as int) =~= rest);
            assert(wf_utf16(whole));
            assert(chars_of(whole) =~= seq![s[0]] + chars_of(rest));
        }
        assert(seq![s[0]] + chars_of(rest) =~= s);
    }
}

/// Relies on `char::from_u32` of std: it returns `Some` exactly for the
/// Unicode scalar values, and the character it returns has the given value.
#[verifier::external_body]
fn char_from_u32(v: u32) -> (r: Option<char>)
    ensures
        r is Some <==> (v < 0xd800 || (0xe000 <= v && v < 0x110000)),
        r matches Some(c) ==> c as u32 == v,
{
    char::from_u32(v)
}

/// Relies on `String::push` of std: it appends the given character.
#[verifier::external_body]
pub(crate) fn push_char(s: &mut String, c: char)
    ensures
        final(s)@ == old(s)@.push(c),
{
    s.push(c);
}

/// Encodes a host string's text as UTF-16 code units.
pub(crate) fn utf16_from_str(s: &str) -> (r: Vec<u16>)
    ensures
        r@ == utf16_of(s@),
{
    let n = s.unicode_len();
    let mut r: Vec<u16> = Vec::new();
    let mut i: usize = 0;
    proof {
        assert(s@.subrange(0, n as int) =~= s@);
        assert(Seq::<u16>::empty() + utf16_of(s@) =~= utf16_of(s@));
    }
    while i < n
        invariant
            i <= n,
            n == s@.len(),
            r@ + utf16_of(s@.subrange(i as int, n as int)) == utf16_of(s@),
        decreases n - i,
    {
        let c = s.get_char(i);
        let u = c as u32;
        proof {
            let suffix = s@.subrange(i as int, n as int);
            assert(suffix[0] == s@[i as int]);
            assert(suffix.subrange(1, suffix.len() as int) =~= s@.subrange(i + 1, n as int));
        }
        if u < 0x10000 {
            r.push(u as u16);
        } else {
            proof {
                lemma_div_pos_is_pos((u - 0x10000) as int, 0x400);
                lemma_div_is_ordered((u - 0x10000) as int, 0xfffff, 0x400);
                lemma_fundamental_div_mod((u - 0x10000) as int, 0x400);
            }
            r.push((0xd800 + (u - 0x10000) / 0x400) as u16);
            r.push((0xdc00 + (u - 0x10000) % 0x400) as u16);
        }
        i = i + 1;
    }
    proof {
        assert(s@.subrange(n as int, n as int) =~= Seq::<char>::empty());
        assert(r@ + Seq::<u16>::empty() =~= r@);
    }
    r
}

impl JSString {
    /// Creates an engine string holding the given text.
    pub fn new_from_str(s: &str) -> (r: JSString)
        ensures
            r@ == utf16_of(s@),
            wf_utf16(r@),
            chars_of(r@) == s@,
    {
        proof {
            lemma_utf16_round_trip(s@);
        }
        JSString { units: utf16_from_str(s) }
    }

    /// Converts this engine string to a host string holding the same text.
    pub fn to_string(&self) -> (r: String)
        requires
            wf_utf16(self@),
        ensures
            r@ == chars_of(self@),
    {
        let n = self.units.len();
        let mut r = String::new();
        let mut i: usize = 0;
        proof {
            assert(self.units@.subrange(0, n as int) =~= self.units@);
            assert(Seq::<char>::empty() + chars_of(self.units@) =~= chars_of(self.units@));
        }
        while i < n
            invariant
                i <= n,
                n == self.units@.len(),
                wf_utf16(self.units@.subrange(i as int, n as int)),
                r@ + chars_of(self.units@.subrange(i as int, n as int)) == chars_of(self.units@),
                chars_of(self.units@) == chars_of(self@),
            decreases n - i,
        {
            let ghost suffix = self.units@.subrange(i as int, n as int);
            let hi = self.units[i];
            proof {
                assert(suffix[0] == self.units@[i as int]);
            }
            if 0xd800 <= hi && hi <= 0xdbff {
                proof {
                    assert(suffix.len() >= 2 && is_low_surrogate(suffix[1]));
                    assert(suffix[1] == self.units@[i + 1]);
                    assert(suffix.subrange(2, suffix.len() as int) =~= self.units@.subrange(
                        i + 2,
                        n as int,
                    ));
                }
                let lo = self.units[i + 1];
                let v: u32 = 0x10000 + (hi as u32 - 0xd800) * 0x400 + (lo as u32 - 0xdc00);
                let c = match char_from_u32(v) {
                    Some(c) => c,
                    None => {
                        proof {
                            assert(false);
                        }
                        ' '
                    },
                };
                proof {
                    assert(v == combine_surrogates(suffix[0], suffix[1]));
                    vstd::utf8::char_u32_cast(c, v);
                    assert(c == combine_surrogates(suffix[0], suffix[1]) as char);
                }
                push_char(&mut r, c);
                proof {
                    assert(chars_of(suffix) =~= seq![c] + chars_of(
                        self.units@.subrange(i + 2, n as int),
                    ));
                    assert(r@.drop_last() + chars_of(suffix) =~= r@ + chars_of(
                        self.units@.subrange(i + 2, n as int),
                    ));
                }
                i = i + 2;
            } else {
                proof {
                    assert(!is_low_surrogate(suffix[0]));
                    assert(suffix.subrange(1, suffix.len() as int) =~= self.units@.subrange(
                        i + 1,
                        n as int,
                    ));
                }
                let c = match char_from_u32(hi as u32) {
                    Some(c) => c,
                    None => {
                        proof {
                            assert(false);
                        }
                        ' '
                    },
                };
                proof {
                    vstd::utf8::char_u32_cast(c, hi as u32);
                    assert(c == suffix[0] as u32 as char);
                }
                push_char(&mut r, c);
                proof {
                    assert(chars_of(suffix) =~= seq![c] + chars_of(
                        self.units@.subrange(i + 1, n as int),
                    ));
                    assert(r@.drop_last() + chars_of(suffix) =~= r@ + chars_of(
                        self.units@.subrange(i + 1, n as int),
                    ));
                }
                i = i + 1;
            }
        }
        proof {
            assert(self.units@.subrange(n as int, n as int) =~= Seq::<u16>::empty());
            assert(r@ + Seq::<char>::empty() =~= r@);
        }
        r
    }
}

impl PartialEq for JSString {
    /// Content equality: two engine strings are equal when they hold the
    /// same code units.
    fn eq(&self, other: &JSString) -> (r: bool)
        ensures
            r == (self@ == other@),
    {
        if self.units.len() != other.units.len() {
            proof {
                assert(self@ != other@);
            }
            return false;
        }
        let n = self.units.len();
        let mut i: usize = 0;
        while i < n
            invariant
                i <= n,
                n == self.units@.len(),
                n == other.units@.len(),
                forall|j: int| 0 <= j < i ==> self.units@[j] == other.units@[j],
            decreases n - i,
        {
            if self.units[i] != other.units[i] {
                proof {
                    assert(self@[i as int] != other@[i as int]);
                }
                return false;
            }
            i = i + 1;
        }
        proof {
            assert(self@ =~= other@);
        }
        true
    }
}

impl vstd::std_specs::cmp::PartialEqSpecImpl for JSString {
    open spec fn obeys_eq_spec() -> bool {
        true
    }

    open spec fn eq_spec(&self, other: &JSString) -> bool {
        self@ == other@
    }
}

} // verus!
