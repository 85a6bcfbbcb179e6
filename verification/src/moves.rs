//! The move-instruction folder: a `movz`/`movk`/`movn` with an explicit
//! `lsl` shift is folded into a single canonical operand string, the shift
//! applied arithmetically.

use vstd::prelude::*;

use crate::num::{hex_render, hex_render_exec, parse_u64, parse_u64_spec};
use crate::text::{starts_with, starts_with_s, str_eq};

verus! {

/// The first character dropped; an empty sequence stays empty.
pub open spec fn skip_first(s: Seq<char>) -> Seq<char> {
    if s.len() >= 1 {
        s.skip(1)
    } else {
        s
    }
}

/// The last character dropped; an empty sequence stays empty.
pub open spec fn drop_last(s: Seq<char>) -> Seq<char> {
    if s.len() >= 1 {
        s.take(s.len() - 1)
    } else {
        s
    }
}

/// The first and last characters dropped; shorter sequences become empty.
pub open spec fn mid_of(s: Seq<char>) -> Seq<char> {
    if s.len() >= 2 {
        s.subrange(1, s.len() - 1)
    } else {
        Seq::empty()
    }
}

/// A trailing comma dropped, if there is one.
pub open spec fn strip_comma(s: Seq<char>) -> Seq<char> {
    if s.len() >= 1 && s[s.len() - 1] == ',' {
        drop_last(s)
    } else {
        s
    }
}

/// The move immediate's numeric body: the leading `#` and a trailing
/// comma stripped.
pub open spec fn imm_body(s: Seq<char>) -> Seq<char> {
    strip_comma(skip_first(s))
}

/// An immediate body read as `0x`-prefixed hexadecimal or else as plain
/// decimal, bounded by 64 bits.
pub open spec fn imm_val(s: Seq<char>) -> Option<u64> {
    if starts_with_s(s, seq!['0', 'x']) {
        parse_u64_spec(s.skip(2), 16)
    } else {
        parse_u64_spec(s, 10)
    }
}

/// `v` shifted left by `sh` modulo the word size, truncated to 64 bits.
pub open spec fn shl64(v: u64, sh: u64) -> u64 {
    v << (sh % 64)
}

pub open spec fn s_movk() -> Seq<char> {
    seq!['m', 'o', 'v', 'k']
}

pub open spec fn s_movz() -> Seq<char> {
    seq!['m', 'o', 'v', 'z']
}

pub open spec fn s_movn() -> Seq<char> {
    seq!['m', 'o', 'v', 'n']
}

pub open spec fn s_lsl() -> Seq<char> {
    seq!['l', 's', 'l']
}

/// The folded operand string for a token sequence that begins at the
/// mnemonic: `movk` with a zero shift keeps its immediate as written,
/// `movz` renders the shifted immediate, `movn` renders the complement of
/// the shifted immediate, truncated to 32 bits for a `w` destination.
/// Any other shape folds to nothing.
pub open spec fn moves_spec(ts: Seq<Seq<char>>) -> Option<Seq<char>> {
    if ts.len() < 5 {
        None
    } else if ts[0] != s_movk() && ts[0] != s_movz() && ts[0] != s_movn() {
        None
    } else {
        let lsl = imm_val(skip_first(ts[4]));
        let num = imm_val(imm_body(ts[2]));
        if lsl is None || num is None {
            None
        } else {
            let l = lsl->Some_0;
            let v = num->Some_0;
            if ts[0] == s_movk() && ts.len() == 5 && ts[3] == s_lsl() && l == 0 {
                Some(ts[1] + seq![' '] + strip_comma(ts[2]))
            } else if ts[0] == s_movz() && ts.len() == 5 && ts[3] == s_lsl() {
                Some(ts[1] + seq![' ', '#'] + hex_render(shl64(v, l) as nat))
            } else if ts[0] == s_movn() && ts.len() == 5 && ts[3] == s_lsl() {
                if ts[1].len() > 0 && ts[1][0] == 'w' {
                    Some(ts[1] + seq![' ', '#'] + hex_render(((!shl64(v, l)) & 0xffff_ffffu64) as nat))
                } else {
                    Some(ts[1] + seq![' ', '#'] + hex_render((!shl64(v, l)) as nat))
                }
            } else {
                None
            }
        }
    }
}

/// Executable form of [`imm_val`].
pub fn imm_val_exec(s: &str) -> (r: Option<u64>)
    ensures
        r == imm_val(s@),
{
    proof {
        reveal_strlit("0x");
        assert("0x"@ =~= seq!['0', 'x']);
    }
    if starts_with(s, "0x") {
        let n = s.unicode_len();
        let digits = s.substring_char(2, n);
        proof {
            assert(digits@ =~= s@.skip(2));
        }
        parse_u64(digits, true)
    } else {
        parse_u64(s, false)
    }
}

/// Fold a `movz`/`movk`/`movn` token sequence (mnemonic first) into its
/// canonical operand string, if it has the five-token `lsl` shape.
pub fn normalize_moves(tokens: &Vec<String>) -> (r: Option<String>)
    ensures
        r is Some <==> moves_spec(tokens.deep_view()) is Some,
        r matches Some(s) ==> moves_spec(tokens.deep_view()) == Some(s@),
{
    proof {
        reveal_strlit("movk");
        reveal_strlit("movz");
        reveal_strlit("movn");
        reveal_strlit("lsl");
        reveal_strlit(" ");
        reveal_strlit(" #");
        assert("movk"@ =~= s_movk());
        assert("movz"@ =~= s_movz());
        assert("movn"@ =~= s_movn());
        assert("lsl"@ =~= s_lsl());
        assert(" "@ =~= seq![' ']);
        assert(" #"@ =~= seq![' ', '#']);
    }
    let ghost ts = tokens.deep_view();
    if tokens.len() < 5 {
        return None;
    }
    let is_movk = str_eq(tokens[0].as_str(), "movk");
    let is_movz = str_eq(tokens[0].as_str(), "movz");
    let is_movn = str_eq(tokens[0].as_str(), "movn");
    if !is_movk && !is_movz && !is_movn {
        return None;
    }
    let n4 = tokens[4].as_str().unicode_len();
    let shift_txt = if n4 >= 1 {
        tokens[4].as_str().substring_char(1, n4)
    } else {
        tokens[4].as_str()
    };
    proof {
        assert(shift_txt@ =~= skip_first(ts[4]));
    }
    let n2 = tokens[2].as_str().unicode_len();
    let t2 = if n2 >= 1 {
        tokens[2].as_str().substring_char(1, n2)
    } else {
        tokens[2].as_str()
    };
    proof {
        assert(t2@ =~= skip_first(ts[2]));
    }
    let t2n = t2.unicode_len();
    let imm_txt = if t2n >= 1 && t2.get_char(t2n - 1) == ',' {
        t2.substring_char(0, t2n - 1)
    } else {
        t2
    };
    proof {
        assert(imm_txt@ =~= imm_body(ts[2]));
    }
    let l = match imm_val_exec(shift_txt) {
        Some(l) => l,
        None => {
            return None;
        },
    };
    let v = match imm_val_exec(imm_txt) {
        Some(v) => v,
        None => {
            return None;
        },
    };
    let five = tokens.len() == 5;
    let lsl_kw = str_eq(tokens[3].as_str(), "lsl");
    if is_movk && five && lsl_kw && l == 0 {
        let mut r = tokens[1].clone();
        r.append(" ");
        let last = if n2 >= 1 && tokens[2].as_str().get_char(n2 - 1) == ',' {
            tokens[2].as_str().substring_char(0, n2 - 1)
        } else {
            tokens[2].as_str()
        };
        r.append(last);
        proof {
            assert(r@ =~= ts[1] + seq![' '] + strip_comma(ts[2]));
        }
        Some(r)
    } else if is_movz && five && lsl_kw {
        let mut r = tokens[1].clone();
        r.append(" #");
        r.append(hex_render_exec(v << (l % 64)).as_str());
        proof {
            assert(r@ =~= ts[1] + seq![' ', '#'] + hex_render(shl64(v, l) as nat));
        }
        Some(r)
    } else if is_movn && five && lsl_kw {
        let shifted = v << (l % 64);
        let folded = if tokens[1].as_str().unicode_len() > 0
            && tokens[1].as_str().get_char(0) == 'w' {
            (!shifted) & 0xffff_ffffu64
        } else {
            !shifted
        };
        let mut r = tokens[1].clone();
        r.append(" #");
        r.append(hex_render_exec(folded).as_str());
        proof {
            if ts[1].len() > 0 && ts[1][0] == 'w' {
                assert(r@ =~= ts[1] + seq![' ', '#'] + hex_render(((!shl64(v, l)) & 0xffff_ffffu64) as nat));
            } else {
                assert(r@ =~= ts[1] + seq![' ', '#'] + hex_render((!shl64(v, l)) as nat));
            }
        }
        Some(r)
    } else {
        None
    }
}

} // verus!
