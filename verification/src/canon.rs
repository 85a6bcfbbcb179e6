//! The numeric literal canonicalizer: an immediate-operand token beginning
//! with `#` is re-rendered as a canonical hexadecimal immediate, with any
//! trailing punctuation suffix preserved; any other token passes through
//! unchanged, and so does a literal whose body fails every parse.

use vstd::prelude::*;

use crate::chars::digit_val;
use crate::num::{
    hex_render, hex_render_exec, i32_bits, i32_bits_exec, neg32, neg32_exec, neg64, neg64_exec,
    parse_u64, parse_uint,
};
use crate::text::{
    contains_s, contains_sub, ends_with, ends_with_s, starts_with, starts_with_s,
};

verus! {

/// What the canonicalizer needs to know of a floating-point literal body
/// after the host has parsed it: a value with a fractional part carries its
/// decimal rendering, a whole value carries its truncation to a 32-bit
/// signed integer, and a body that does not parse carries nothing.
pub enum FloatVal {
    Fractional(String),
    Whole(i32),
    Invalid,
}

/// The trailing punctuation suffix of a token: the first match among
/// `,`, `)`, `]`, `]!`, or empty.
pub open spec fn suffix_of(s: Seq<char>) -> Seq<char> {
    if ends_with_s(s, seq![',']) {
        seq![',']
    } else if ends_with_s(s, seq![')']) {
        seq![')']
    } else if ends_with_s(s, seq![']']) {
        seq![']']
    } else if ends_with_s(s, seq![']', '!']) {
        seq![']', '!']
    } else {
        Seq::empty()
    }
}

/// The numeric body of a literal token: what stands between the leading
/// `#` and the trailing suffix.
pub open spec fn body_of(s: Seq<char>) -> Seq<char> {
    let suf = suffix_of(s);
    if 1 <= s.len() - suf.len() {
        s.subrange(1, s.len() - suf.len())
    } else {
        Seq::empty()
    }
}

/// A token is a literal immediate when it begins with `#`.
pub open spec fn is_literal(s: Seq<char>) -> bool {
    s.len() > 0 && s[0] == '#'
}

/// A body is floating point when it is in neither hexadecimal form and
/// shows a decimal point or a scientific-notation marker.
pub open spec fn is_float_body(b: Seq<char>) -> bool {
    &&& !starts_with_s(b, seq!['0', 'x'])
    &&& !starts_with_s(b, seq!['-', '0', 'x'])
    &&& (contains_s(b, seq!['.']) || contains_s(b, seq!['e', '+']) || contains_s(
        b,
        seq!['e', '-'],
    ))
}

/// A token whose body takes the floating-point path.
pub open spec fn is_float_token(s: Seq<char>) -> bool {
    is_literal(s) && is_float_body(body_of(s))
}

/// What the canonicalizer returns for a token. A non-literal passes through
/// unchanged. A literal's body is tried as unsigned hexadecimal, negative
/// hexadecimal, floating point, negative decimal, and plain decimal, in
/// that order; the first matching form is re-rendered as `#0x...` with the
/// suffix kept, negatives by their 32-bit (else 64-bit) two's-complement
/// bit pattern, and a value with a fractional part by its decimal
/// rendering. A body no variant parses leaves the token unchanged.
pub open spec fn canon_token(s: Seq<char>, fv: FloatVal) -> Seq<char> {
    if !is_literal(s) {
        s
    } else {
        let suf = suffix_of(s);
        let b = body_of(s);
        if starts_with_s(b, seq!['0', 'x']) {
            match parse_uint(b.skip(2), 16) {
                Some(v) => if v < 0x1_0000_0000_0000_0000 {
                    seq!['#'] + hex_render(v) + suf
                } else {
                    s
                },
                None => s,
            }
        } else if starts_with_s(b, seq!['-', '0', 'x']) {
            match parse_uint(b.skip(3), 16) {
                Some(v) => if v < 0x1_0000_0000 {
                    seq!['#'] + hex_render(neg32(v as u32) as nat) + suf
                } else if v < 0x1_0000_0000_0000_0000 {
                    seq!['#'] + hex_render(neg64(v as u64) as nat) + suf
                } else {
                    s
                },
                None => s,
            }
        } else if is_float_body(b) {
            match fv {
                FloatVal::Fractional(d) => seq!['#'] + d@ + suf,
                FloatVal::Whole(w) => seq!['#'] + hex_render(i32_bits(w) as nat) + suf,
                FloatVal::Invalid => s,
            }
        } else if starts_with_s(b, seq!['-']) {
            match parse_uint(b.skip(1), 10) {
                Some(v) => if v < 0x1_0000_0000 {
                    seq!['#'] + hex_render(neg32(v as u32) as nat) + suf
                } else if v < 0x1_0000_0000_0000_0000 {
                    seq!['#'] + hex_render(neg64(v as u64) as nat) + suf
                } else {
                    s
                },
                None => s,
            }
        } else {
            match parse_uint(b, 10) {
                Some(v) => if v < 0x1_0000_0000_0000_0000 {
                    seq!['#'] + hex_render(v) + suf
                } else {
                    s
                },
                None => s,
            }
        }
    }
}

/// The trailing suffix of the token, as text.
fn suffix_str(s: &str) -> (r: &'static str)
    ensures
        r@ == suffix_of(s@),
{
    proof {
        reveal_strlit(",");
        reveal_strlit(")");
        reveal_strlit("]");
        reveal_strlit("]!");
        reveal_strlit("");
        assert(","@ =~= seq![',']);
        assert(")"@ =~= seq![')']);
        assert("]"@ =~= seq![']']);
        assert("]!"@ =~= seq![']', '!']);
        assert(""@ =~= Seq::<char>::empty());
    }
    if ends_with(s, ",") {
        ","
    } else if ends_with(s, ")") {
        ")"
    } else if ends_with(s, "]") {
        "]"
    } else if ends_with(s, "]!") {
        "]!"
    } else {
        ""
    }
}

/// A literal `#` token is at least one character longer than its suffix.
proof fn lemma_body_room(s: Seq<char>)
    requires
        is_literal(s),
    ensures
        1 <= s.len() - suffix_of(s).len(),
        body_of(s) == s.subrange(1, s.len() - suffix_of(s).len()),
{
    let suf = suffix_of(s);
    if suf.len() > 0 {
        assert(s.subrange(s.len() - suf.len(), s.len() as int)[0] == s[s.len() - suf.len()]);
        if s.len() == suf.len() {
            assert(s[0] == suf[0]);
            assert(false);
        }
    }
}

/// Build `#` + the canonical hexadecimal rendering of `v` + the suffix.
fn render_lit(v: u64, suf: &str) -> (r: String)
    ensures
        r@ == seq!['#'] + hex_render(v as nat) + suf@,
{
    proof {
        reveal_strlit("#");
    }
    let mut r = String::new();
    r.append("#");
    r.append(hex_render_exec(v).as_str());
    r.append(suf);
    assert(r@ =~= seq!['#'] + hex_render(v as nat) + suf@);
    r
}

/// Re-render one operand token as a canonical hexadecimal immediate,
/// given what the host learned about its body as a float (consulted only
/// when the body takes the floating-point path).
pub fn try_hex_float(s: &str, fv: &FloatVal) -> (r: String)
    ensures
        r@ == canon_token(s@, *fv),
{
    let n = s.unicode_len();
    if n == 0 || s.get_char(0) != '#' {
        return s.to_owned();
    }
    proof {
        lemma_body_room(s@);
    }
    let suf = suffix_str(s);
    let suf_len = suf.unicode_len();
    let body = s.substring_char(1, n - suf_len).to_owned();
    proof {
        assert(body@ == body_of(s@));
    }
    let blen = body.as_str().unicode_len();
    proof {
        reveal_strlit("0x");
        reveal_strlit("-0x");
        reveal_strlit("-");
        reveal_strlit(".");
        reveal_strlit("e+");
        reveal_strlit("e-");
        assert("0x"@ =~= seq!['0', 'x']);
        assert("-0x"@ =~= seq!['-', '0', 'x']);
        assert("-"@ =~= seq!['-']);
        assert("."@ =~= seq!['.']);
        assert("e+"@ =~= seq!['e', '+']);
        assert("e-"@ =~= seq!['e', '-']);
    }
    if starts_with(body.as_str(), "0x") {
        let digits = body.as_str().substring_char(2, blen);
        proof {
            assert(digits@ =~= body@.skip(2));
        }
        match parse_u64(digits, true) {
            Some(v) => render_lit(v, suf),
            None => s.to_owned(),
        }
    } else if starts_with(body.as_str(), "-0x") {
        let digits = body.as_str().substring_char(3, blen);
        proof {
            assert(digits@ =~= body@.skip(3));
        }
        match parse_u64(digits, true) {
            Some(v) => if v < 0x1_0000_0000 {
                render_lit(neg32_exec(v as u32), suf)
            } else {
                render_lit(neg64_exec(v), suf)
            },
            None => s.to_owned(),
        }
    } else if contains_sub(body.as_str(), ".") || contains_sub(body.as_str(), "e+")
        || contains_sub(body.as_str(), "e-") {
        match fv {
            FloatVal::Fractional(d) => {
                proof {
                    reveal_strlit("#");
                }
                let mut r = String::new();
                r.append("#");
                r.append(d.as_str());
                r.append(suf);
                assert(r@ =~= seq!['#'] + d@ + suf@);
                r
            },
            FloatVal::Whole(w) => render_lit(i32_bits_exec(*w), suf),
            FloatVal::Invalid => s.to_owned(),
        }
    } else if starts_with(body.as_str(), "-") {
        let digits = body.as_str().substring_char(1, blen);
        proof {
            assert(digits@ =~= body@.skip(1));
        }
        match parse_u64(digits, false) {
            Some(v) => if v < 0x1_0000_0000 {
                render_lit(neg32_exec(v as u32), suf)
            } else {
                render_lit(neg64_exec(v), suf)
            },
            None => s.to_owned(),
        }
    } else {
        match parse_u64(body.as_str(), false) {
            Some(v) => render_lit(v, suf),
            None => s.to_owned(),
        }
    }
}

/// The numeric body of a literal token, as text.
pub(crate) fn body_str(s: &str) -> (r: String)
    requires
        is_literal(s@),
    ensures
        r@ == body_of(s@),
{
    proof {
        lemma_body_room(s@);
    }
    let n = s.unicode_len();
    let suf = suffix_str(s);
    let sl = suf.unicode_len();
    let r = s.substring_char(1, n - sl).to_owned();
    proof {
        assert(r@ == body_of(s@));
    }
    r
}

/// Whether a token takes the floating-point path of the canonicalizer.
pub(crate) fn is_float_token_exec(s: &str) -> (r: bool)
    ensures
        r == is_float_token(s@),
{
    let n = s.unicode_len();
    if n == 0 || s.get_char(0) != '#' {
        return false;
    }
    let body = body_str(s);
    proof {
        reveal_strlit("0x");
        reveal_strlit("-0x");
        reveal_strlit(".");
        reveal_strlit("e+");
        reveal_strlit("e-");
        assert("0x"@ =~= seq!['0', 'x']);
        assert("-0x"@ =~= seq!['-', '0', 'x']);
        assert("."@ =~= seq!['.']);
        assert("e+"@ =~= seq!['e', '+']);
        assert("e-"@ =~= seq!['e', '-']);
    }
    !starts_with(body.as_str(), "0x") && !starts_with(body.as_str(), "-0x") && (contains_sub(
        body.as_str(),
        ".",
    ) || contains_sub(body.as_str(), "e+") || contains_sub(body.as_str(), "e-"))
}

/// Re-render one operand token as a canonical hexadecimal immediate. A
/// token whose body is floating point is left unchanged here; the full
/// pipeline supplies the host's float parse through [`try_hex_float`].
pub fn try_hex(s: &str) -> (r: String)
    ensures
        r@ == canon_token(s@, FloatVal::Invalid),
{
    try_hex_float(s, &FloatVal::Invalid)
}

/// A concatenation ends with its second part.
proof fn lemma_ends_with_concat(a: Seq<char>, b: Seq<char>)
    ensures
        ends_with_s(a + b, b),
{
    assert((a + b).subrange(a.len() as int, (a + b).len() as int) =~= b);
}

/// Every token ends with its own suffix.
proof fn lemma_suffix_is_suffix(s: Seq<char>)
    ensures
        ends_with_s(s, suffix_of(s)),
{
    if !ends_with_s(s, seq![',']) && !ends_with_s(s, seq![')']) && !ends_with_s(s, seq![']'])
        && !ends_with_s(s, seq![']', '!']) {
        assert(s.subrange(s.len() as int, s.len() as int) =~= Seq::<char>::empty());
    }
}

/// A token that does not begin with `#` is no literal and is returned
/// byte for byte unchanged, whatever the float parse says.
pub proof fn lemma_non_literal_unchanged(s: Seq<char>, fv: FloatVal)
    requires
        s.len() == 0 || s[0] != '#',
    ensures
        canon_token(s, fv) == s,
{
}

/// The canonicalizer preserves a literal's trailing suffix: its output
/// ends with the suffix found on the input.
pub proof fn lemma_suffix_preserved(s: Seq<char>, fv: FloatVal)
    requires
        is_literal(s),
    ensures
        ends_with_s(canon_token(s, fv), suffix_of(s)),
{
    let suf = suffix_of(s);
    let b = body_of(s);
    lemma_suffix_is_suffix(s);
    if starts_with_s(b, seq!['0', 'x']) {
        match parse_uint(b.skip(2), 16) {
            Some(v) => if v < 0x1_0000_0000_0000_0000 {
                lemma_ends_with_concat(seq!['#'] + hex_render(v), suf);
            },
            None => {},
        }
    } else if starts_with_s(b, seq!['-', '0', 'x']) {
        match parse_uint(b.skip(3), 16) {
            Some(v) => if v < 0x1_0000_0000 {
                lemma_ends_with_concat(seq!['#'] + hex_render(neg32(v as u32) as nat), suf);
            } else if v < 0x1_0000_0000_0000_0000 {
                lemma_ends_with_concat(seq!['#'] + hex_render(neg64(v as u64) as nat), suf);
            },
            None => {},
        }
    } else if is_float_body(b) {
        match fv {
            FloatVal::Fractional(d) => {
                lemma_ends_with_concat(seq!['#'] + d@, suf);
            },
            FloatVal::Whole(w) => {
                lemma_ends_with_concat(seq!['#'] + hex_render(i32_bits(w) as nat), suf);
            },
            FloatVal::Invalid => {},
        }
    } else if starts_with_s(b, seq!['-']) {
        match parse_uint(b.skip(1), 10) {
            Some(v) => if v < 0x1_0000_0000 {
                lemma_ends_with_concat(seq!['#'] + hex_render(neg32(v as u32) as nat), suf);
            } else if v < 0x1_0000_0000_0000_0000 {
                lemma_ends_with_concat(seq!['#'] + hex_render(neg64(v as u64) as nat), suf);
            },
            None => {},
        }
    } else {
        match parse_uint(b, 10) {
            Some(v) => if v < 0x1_0000_0000_0000_0000 {
                lemma_ends_with_concat(seq!['#'] + hex_render(v), suf);
            },
            None => {},
        }
    }
}

/// Canonicalizing an already-canonical hexadecimal literal changes
/// nothing: one pass of the canonicalizer is as good as two.
pub proof fn lemma_canon_idempotent(v: u64, suf: Seq<char>, fv: FloatVal)
    requires
        suf == Seq::<char>::empty() || suf == seq![','] || suf == seq![')'] || suf == seq![']']
            || suf == seq![']', '!'],
    ensures
        canon_token(seq!['#'] + hex_render(v as nat) + suf, fv) == seq!['#'] + hex_render(v as nat)
            + suf,
{
    let render = hex_render(v as nat);
    let digits = crate::num::hex_digits(v as nat);
    let t = seq!['#'] + render + suf;
    crate::num::lemma_hex_digits_are_digits(v as nat);
    crate::num::lemma_hex_digits_roundtrip(v as nat);
    assert(t[0] == '#');
    let dl = digits.len();
    assert(digits[dl - 1] == t[t.len() - suf.len() - 1]);
    assert(digit_val(digits[dl - 1], 16) is Some);
    assert(digits[dl - 1] != ',' && digits[dl - 1] != ')' && digits[dl - 1] != ']' && digits[dl
        - 1] != '!');
    // The suffix found on the rendered token is the suffix it was built with.
    if suf.len() == 0 {
        assert(t[t.len() - 1] == digits[dl - 1]);
        assert(ends_with_s(t, seq![',']) ==> t.subrange(t.len() - 1, t.len() as int)[0] == ',');
        assert(ends_with_s(t, seq![')']) ==> t.subrange(t.len() - 1, t.len() as int)[0] == ')');
        assert(ends_with_s(t, seq![']']) ==> t.subrange(t.len() - 1, t.len() as int)[0] == ']');
        assert(ends_with_s(t, seq![']', '!']) ==> t.subrange(t.len() - 2, t.len() as int)[1]
            == '!');
        assert(suffix_of(t) == suf);
    } else if suf == seq![','] {
        assert(t.subrange(t.len() - 1, t.len() as int) =~= seq![',']);
        assert(suffix_of(t) == suf);
    } else if suf == seq![')'] {
        assert(t[t.len() - 1] == ')');
        assert(ends_with_s(t, seq![',']) ==> t.subrange(t.len() - 1, t.len() as int)[0] == ',');
        assert(t.subrange(t.len() - 1, t.len() as int) =~= seq![')']);
        assert(suffix_of(t) == suf);
    } else if suf == seq![']'] {
        assert(t[t.len() - 1] == ']');
        assert(ends_with_s(t, seq![',']) ==> t.subrange(t.len() - 1, t.len() as int)[0] == ',');
        assert(ends_with_s(t, seq![')']) ==> t.subrange(t.len() - 1, t.len() as int)[0] == ')');
        assert(t.subrange(t.len() - 1, t.len() as int) =~= seq![']']);
        assert(suffix_of(t) == suf);
    } else {
        assert(t[t.len() - 1] == '!');
        assert(ends_with_s(t, seq![',']) ==> t.subrange(t.len() - 1, t.len() as int)[0] == ',');
        assert(ends_with_s(t, seq![')']) ==> t.subrange(t.len() - 1, t.len() as int)[0] == ')');
        assert(ends_with_s(t, seq![']']) ==> t.subrange(t.len() - 1, t.len() as int)[0] == ']');
        assert(t.subrange(t.len() - 2, t.len() as int) =~= seq![']', '!']);
        assert(suffix_of(t) == suf);
    }
    assert(body_of(t) =~= render);
    assert(render.subrange(0, 2) =~= seq!['0', 'x']);
    assert(starts_with_s(render, seq!['0', 'x']));
    assert(render.skip(2) =~= digits);
    assert(digit_val(digits[0], 16) is Some);
    assert(digits[0] != '+');
    assert(parse_uint(digits, 16) == Some(v as nat));
    assert(canon_token(t, fv) == seq!['#'] + hex_render(v as nat) + suffix_of(t));
}

} // verus!
