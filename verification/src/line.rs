//! The per-line pipeline: classify one raw disassembler line, fold move
//! instructions, rewrite instruction aliases, compact register lists, and
//! format the `opcode / mnemonic / operands` columns. A line that is not an
//! instruction line produces no output.

use vstd::prelude::*;

use crate::canon::{
    body_of, body_str, canon_token, is_float_token, is_float_token_exec, try_hex, try_hex_float,
    FloatVal,
};
use crate::chars::{all_ascii, ascii_lower_seq};
use crate::lists::{shorthand_spec, try_sve_shorthand};
use crate::moves::{drop_last, mid_of, moves_spec, normalize_moves, s_movk, skip_first};
use crate::num::{hex_render, hex_render_exec, parse_u64, parse_u64_spec, parse_uint, sub_mod64, sub_mod64_exec};
use crate::text::{
    contains_s, contains_sub, cut_before, cut_before_exec, ends_with, ends_with_s, join_sp,
    pad_to, replace_all, replace_all_exec, split_ws, split_ws_exec, starts_with, starts_with_s,
    str_eq, trim_exec, trim_s,
};

verus! {

/// What `str::to_lowercase` returns: a function of the characters alone.
pub uninterp spec fn lower_of(s: Seq<char>) -> Seq<char>;

/// Relies on `str::to_lowercase`: its result depends only on the input
/// characters, and an all-ASCII string maps to its ASCII lowercase.
#[verifier::external_body]
fn lowercase(s: &str) -> (r: String)
    ensures
        r@ == lower_of(s@),
        all_ascii(s@) ==> r@ == ascii_lower_seq(s@),
{
    s.to_lowercase()
}

pub open spec fn s_unknown_m() -> Seq<char> {
    seq!['<', 'u', 'n', 'k', 'n', 'o', 'w', 'n', '>']
}

pub open spec fn s_undefined_m() -> Seq<char> {
    seq!['<', 'u', 'n', 'd', 'e', 'f', 'i', 'n', 'e', 'd', '>']
}

pub open spec fn s_inst_m() -> Seq<char> {
    seq!['.', 'i', 'n', 's', 't']
}

pub open spec fn s_comment() -> Seq<char> {
    seq!['/', '/']
}

pub open spec fn s_binmark() -> Seq<char> {
    seq!['<', '_', 'b', 'i', 'n', 'a', 'r', 'y']
}

pub open spec fn s_wzr_pat() -> Seq<char> {
    seq![',', ' ', 'w', 'z', 'r', ',', ' ']
}

pub open spec fn s_xzr_pat() -> Seq<char> {
    seq![',', ' ', 'x', 'z', 'r', ',', ' ']
}

pub open spec fn s_comma_sp() -> Seq<char> {
    seq![',', ' ']
}

pub open spec fn s_mov() -> Seq<char> {
    seq!['m', 'o', 'v']
}

/// A line cleaned for tokenizing: any trailing `//` comment and any inline
/// `<_binary...` symbol annotation stripped, then surrounding white space
/// trimmed.
pub open spec fn clean_line(line: Seq<char>) -> Seq<char> {
    trim_s(cut_before(cut_before(line, s_comment()), s_binmark()))
}

/// The token denotes a 32-bit unsigned hexadecimal opcode.
pub open spec fn is_hex32(s: Seq<char>) -> bool {
    match parse_uint(s, 16) {
        Some(v) => v < 0x1_0000_0000,
        None => false,
    }
}

fn is_hex32_exec(s: &str) -> (r: bool)
    ensures
        r == is_hex32(s@),
{
    match parse_u64(s, true) {
        Some(v) => v < 0x1_0000_0000,
        None => false,
    }
}

/// The operand tokens canonicalized in order, each token on the
/// floating-point path consuming the next host-supplied float parse.
pub open spec fn canon_list(ts: Seq<Seq<char>>, fs: Seq<FloatVal>) -> Seq<Seq<char>>
    decreases ts.len(),
{
    if ts.len() == 0 {
        Seq::empty()
    } else {
        let isf = is_float_token(ts[0]);
        let fv = if isf && fs.len() > 0 {
            fs[0]
        } else {
            FloatVal::Invalid
        };
        let rest_fs = if isf && fs.len() > 0 {
            fs.skip(1)
        } else {
            fs
        };
        seq![canon_token(ts[0], fv)] + canon_list(ts.skip(1), rest_fs)
    }
}

/// The generic operand string: canonicalized tokens joined with spaces,
/// with brace spacing tightened.
pub open spec fn operands_generic(ts: Seq<Seq<char>>, fs: Seq<FloatVal>) -> Seq<char> {
    replace_all(
        replace_all(join_sp(canon_list(ts, fs)), seq!['{', ' '], seq!['{']),
        seq![' ', '}'],
        seq!['}'],
    )
}

/// The bodies of the operand tokens that take the floating-point path,
/// in order.
pub open spec fn float_bodies(ts: Seq<Seq<char>>) -> Seq<Seq<char>>
    decreases ts.len(),
{
    if ts.len() == 0 {
        Seq::empty()
    } else if is_float_token(ts[0]) {
        seq![body_of(ts[0])] + float_bodies(ts.skip(1))
    } else {
        float_bodies(ts.skip(1))
    }
}

/// One output line: the opcode column padded to 14, the mnemonic column
/// padded to 16, then the operands.
pub open spec fn out_line(opc: Seq<char>, m: Seq<char>, ops: Seq<char>) -> Seq<char> {
    pad_to(opc, 14) + pad_to(m, 16) + ops
}

/// A bitfield immediate read as decimal, or failing that with its first
/// two characters dropped as hexadecimal.
pub open spec fn parse_dec_or_hex(t: Seq<char>) -> Option<u64> {
    match parse_u64_spec(t, 10) {
        Some(v) => Some(v),
        None => if t.len() >= 2 {
            parse_u64_spec(t.skip(2), 16)
        } else {
            None
        },
    }
}

/// The alias of a `sbfm Rd, Rn, #immr, #imms` line, as mnemonic and
/// operands: `sbfiz` when `imms < immr` (width taken from the destination
/// register name), `asr` for a full-width `imms`, and `sxtb`/`sxth`/`sxtw`
/// for a zero `immr` with a byte, halfword or word `imms`. Any other
/// shape yields no alias.
pub open spec fn sbfm_alias(toks: Seq<Seq<char>>) -> Option<(Seq<char>, Seq<char>)> {
    if toks.len() < 7 {
        None
    } else {
        let rd = drop_last(toks[3]);
        let rn = drop_last(toks[4]);
        let immr = parse_dec_or_hex(mid_of(toks[5]));
        let imms = parse_dec_or_hex(skip_first(toks[6]));
        if immr is None || imms is None {
            None
        } else {
            let r = immr->Some_0;
            let m = imms->Some_0;
            if m < r {
                let width: u64 = if starts_with_s(rd, seq!['w']) {
                    0x20
                } else {
                    0x40
                };
                Some(
                    (
                        seq!['s', 'b', 'f', 'i', 'z'],
                        rd + s_comma_sp() + rn + seq![',', ' ', '#'] + hex_render(
                            sub_mod64(width, r) as nat,
                        ) + seq![',', ' ', '#'] + hex_render((m + 1) as nat),
                    ),
                )
            } else if (starts_with_s(rd, seq!['x']) && m == 0x3f) || (starts_with_s(
                rd,
                seq!['w'],
            ) && m == 0x1f) {
                Some(
                    (
                        seq!['a', 's', 'r'],
                        rd + s_comma_sp() + rn + seq![',', ' ', '#'] + hex_render(r as nat),
                    ),
                )
            } else if r == 0 && m == 7 {
                Some((seq!['s', 'x', 't', 'b'], rd + s_comma_sp() + replace_all(rn, seq!['x'], seq!['w'])))
            } else if r == 0 && m == 15 {
                Some((seq!['s', 'x', 't', 'h'], rd + s_comma_sp() + replace_all(rn, seq!['x'], seq!['w'])))
            } else if r == 0 && m == 31 {
                Some((seq!['s', 'x', 't', 'w'], rd + s_comma_sp() + replace_all(rn, seq!['x'], seq!['w'])))
            } else {
                None
            }
        }
    }
}

/// The alias pass over a classified line: load/store and
/// subtract-with-carry zero-register rewrites, bitfield-move aliases,
/// the rotate-via-extract alias (an `extr` whose two source registers
/// differ produces no output), debug-exception and return aliases, and
/// otherwise the generic form with register lists compacted.
pub open spec fn alias_spec(
    opc: Seq<char>,
    m: Seq<char>,
    ops: Seq<char>,
    toks: Seq<Seq<char>>,
) -> Option<Seq<char>> {
    if starts_with_s(m, seq!['l', 'd']) && contains_s(ops, s_wzr_pat()) {
        Some(
            out_line(
                opc,
                replace_all(m, seq!['l', 'd'], seq!['s', 't']),
                replace_all(ops, s_wzr_pat(), s_comma_sp()),
            ),
        )
    } else if starts_with_s(m, seq!['l', 'd']) && contains_s(ops, s_xzr_pat()) {
        Some(
            out_line(
                opc,
                replace_all(m, seq!['l', 'd'], seq!['s', 't']),
                replace_all(ops, s_xzr_pat(), s_comma_sp()),
            ),
        )
    } else if starts_with_s(m, seq!['s', 'b', 'c']) && contains_s(ops, s_wzr_pat()) {
        Some(
            out_line(
                opc,
                replace_all(m, seq!['s', 'b', 'c'], seq!['n', 'g', 'c']),
                replace_all(ops, s_wzr_pat(), s_comma_sp()),
            ),
        )
    } else if starts_with_s(m, seq!['s', 'b', 'c']) && contains_s(ops, s_xzr_pat()) {
        Some(
            out_line(
                opc,
                replace_all(m, seq!['s', 'b', 'c'], seq!['n', 'g', 'c']),
                replace_all(ops, s_xzr_pat(), s_comma_sp()),
            ),
        )
    } else if m == seq!['s', 'b', 'f', 'm'] {
        match sbfm_alias(toks) {
            Some(pair) => Some(out_line(opc, pair.0, pair.1)),
            None => Some(out_line(opc, m, shorthand_spec(ops))),
        }
    } else if m == seq!['e', 'x', 't', 'r'] {
        if toks.len() >= 6 && toks[4] == toks[5] {
            Some(
                out_line(
                    opc,
                    seq!['r', 'o', 'r'],
                    replace_all(ops, toks[4] + seq![' '] + toks[5], toks[4]),
                ),
            )
        } else {
            None
        }
    } else if starts_with_s(m, seq!['d', 'c', 'p', 's']) {
        Some(out_line(opc, m, Seq::empty()))
    } else if m == seq!['r', 'e', 't'] && ops == seq!['x', '3', '0'] {
        Some(out_line(opc, m, Seq::empty()))
    } else {
        Some(out_line(opc, m, shorthand_spec(ops)))
    }
}

/// What the pipeline emits for one raw line, given the host's float parses
/// for the operand bodies named by [`float_requests_spec`]: `None` drops
/// the line, `Some` is the formatted output line.
pub open spec fn normalize_line_spec(line: Seq<char>, fs: Seq<FloatVal>) -> Option<Seq<char>> {
    let low = lower_of(clean_line(line));
    let toks = split_ws(low);
    if contains_s(low, s_unknown_m()) || contains_s(low, s_undefined_m()) || contains_s(
        low,
        s_inst_m(),
    ) {
        if toks.len() < 2 {
            None
        } else if is_hex32(toks[1]) {
            Some(out_line(toks[1], s_unknown_m(), Seq::empty()))
        } else {
            None
        }
    } else if toks.len() <= 2 || !ends_with_s(toks[0], seq![':']) {
        None
    } else if !is_hex32(toks[1]) {
        None
    } else {
        let m0 = toks[2];
        match moves_spec(toks.skip(2)) {
            Some(o) => {
                let m = if m0 == s_movk() {
                    m0
                } else {
                    s_mov()
                };
                alias_spec(toks[1], m, o, toks)
            },
            None => alias_spec(toks[1], m0, operands_generic(toks.skip(3), fs), toks),
        }
    }
}

/// The float-path operand bodies the pipeline will consult the host for,
/// in the order [`normalize_line_spec`] consumes their parses.
pub open spec fn float_requests_spec(line: Seq<char>) -> Seq<Seq<char>> {
    let low = lower_of(clean_line(line));
    let toks = split_ws(low);
    if contains_s(low, s_unknown_m()) || contains_s(low, s_undefined_m()) || contains_s(
        low,
        s_inst_m(),
    ) {
        Seq::empty()
    } else if toks.len() <= 2 || !ends_with_s(toks[0], seq![':']) {
        Seq::empty()
    } else if !is_hex32(toks[1]) {
        Seq::empty()
    } else if moves_spec(toks.skip(2)) is Some {
        Seq::empty()
    } else {
        float_bodies(toks.skip(3))
    }
}

/// `s` padded on the right with spaces to at least `width` characters.
fn pad_to_exec(s: &str, width: usize) -> (r: String)
    ensures
        r@ == pad_to(s@, width as nat),
{
    proof {
        reveal_strlit(" ");
        assert(" "@ =~= seq![' ']);
    }
    let mut r = s.to_owned();
    let n = s.unicode_len();
    if n >= width {
        return r;
    }
    let mut k = n;
    proof {
        assert(r@ =~= s@ + crate::text::spaces(0));
    }
    while k < width
        invariant
            n == s@.len(),
            n <= k <= width,
            r@ == s@ + crate::text::spaces((k - n) as nat),
        decreases width - k,
    {
        r.append(" ");
        k += 1;
        proof {
            reveal_strlit(" ");
            assert(" "@ =~= seq![' ']);
            assert(r@ =~= s@ + crate::text::spaces((k - n) as nat));
        }
    }
    r
}

/// Format one output line from its three columns.
fn out_line_exec(opc: &str, m: &str, ops: &str) -> (r: String)
    ensures
        r@ == out_line(opc@, m@, ops@),
{
    let mut r = pad_to_exec(opc, 14);
    r.append(pad_to_exec(m, 16).as_str());
    r.append(ops);
    proof {
        assert(r@ =~= out_line(opc@, m@, ops@));
    }
    r
}

/// Canonicalize the tokens from `start` on, consuming host float parses.
fn canon_all_exec(toks: &Vec<String>, start: usize, floats: &Vec<FloatVal>) -> (r: Vec<String>)
    requires
        start <= toks@.len(),
    ensures
        r.deep_view() == canon_list(toks.deep_view().skip(start as int), floats@),
{
    let ghost ts = toks.deep_view();
    let ghost fs = floats@;
    let mut out: Vec<String> = Vec::new();
    let mut k = start;
    let mut f: usize = 0;
    proof {
        assert(fs.skip(0) =~= fs);
        assert(out.deep_view() =~= Seq::<Seq<char>>::empty());
    }
    while k < toks.len()
        invariant
            start <= k <= ts.len(),
            f <= fs.len(),
            ts == toks.deep_view(),
            fs == floats@,
            canon_list(ts.skip(start as int), fs) == out.deep_view() + canon_list(
                ts.skip(k as int),
                fs.skip(f as int),
            ),
        decreases ts.len() - k,
    {
        let ghost rest = ts.skip(k as int);
        let ghost frest = fs.skip(f as int);
        proof {
            assert(rest[0] == ts[k as int]);
            assert(ts[k as int] == toks@[k as int]@);
            assert(rest.skip(1) =~= ts.skip(k + 1));
        }
        let tok = &toks[k];
        let isf = is_float_token_exec(tok.as_str());
        let ghost out0 = out.deep_view();
        let piece: String;
        if isf && f < floats.len() {
            proof {
                assert(frest[0] == fs[f as int]);
                assert(frest.skip(1) =~= fs.skip(f + 1));
            }
            piece = try_hex_float(tok.as_str(), &floats[f]);
            f += 1;
        } else {
            proof {
                if isf {
                    assert(frest.len() == 0);
                    assert(frest =~= fs.skip(f as int));
                }
            }
            piece = try_hex(tok.as_str());
        }
        let ghost pv = piece@;
        out.push(piece);
        proof {
            assert(out.deep_view() =~= out0 + seq![pv]);
            assert(out0 + (seq![pv] + canon_list(ts.skip(k + 1), fs.skip(f as int))) =~= (out0
                + seq![pv]) + canon_list(ts.skip(k + 1), fs.skip(f as int)));
        }
        k += 1;
    }
    proof {
        assert(ts.skip(k as int).len() == 0);
        assert(out.deep_view() + canon_list(ts.skip(k as int), fs.skip(f as int)) =~= out.deep_view());
    }
    out
}

/// Join canonicalized tokens with single spaces, from `i` on.
fn join_from(ts: &Vec<String>, i: usize) -> (r: String)
    requires
        i <= ts@.len(),
    ensures
        r@ == join_sp(ts.deep_view().skip(i as int)),
    decreases ts@.len() - i,
{
    proof {
        reveal_strlit(" ");
        assert(" "@ =~= seq![' ']);
    }
    let ghost tv = ts.deep_view();
    if i == ts.len() {
        proof {
            assert(tv.skip(i as int).len() == 0);
        }
        String::new()
    } else if i + 1 == ts.len() {
        let r = ts[i].clone();
        proof {
            assert(tv.skip(i as int)[0] == ts@[i as int]@);
            assert(tv.skip(i as int).len() == 1);
        }
        r
    } else {
        let mut r = ts[i].clone();
        r.append(" ");
        let tail = join_from(ts, i + 1);
        r.append(tail.as_str());
        proof {
            assert(tv.skip(i as int)[0] == ts@[i as int]@);
            assert(tv.skip(i as int).skip(1) =~= tv.skip(i + 1));
            assert(r@ =~= tv.skip(i as int)[0] + seq![' '] + join_sp(tv.skip(i + 1)));
        }
        r
    }
}

fn parse_dec_or_hex_exec(t: &str) -> (r: Option<u64>)
    ensures
        r == parse_dec_or_hex(t@),
{
    match parse_u64(t, false) {
        Some(v) => Some(v),
        None => {
            let n = t.unicode_len();
            if n >= 2 {
                let rest = t.substring_char(2, n);
                proof {
                    assert(rest@ =~= t@.skip(2));
                }
                parse_u64(rest, true)
            } else {
                None
            }
        },
    }
}

/// The bitfield-move alias of a full `sbfm` token sequence, as mnemonic
/// and operand strings.
fn sbfm_exec(toks: &Vec<String>) -> (r: Option<(String, String)>)
    ensures
        r is Some <==> sbfm_alias(toks.deep_view()) is Some,
        r matches Some(pair) ==> sbfm_alias(toks.deep_view()) == Some((pair.0@, pair.1@)),
{
    proof {
        reveal_strlit("w");
        reveal_strlit("x");
        reveal_strlit(", ");
        reveal_strlit(", #");
        reveal_strlit("sbfiz");
        reveal_strlit("asr");
        reveal_strlit("sxtb");
        reveal_strlit("sxth");
        reveal_strlit("sxtw");
        assert("w"@ =~= seq!['w']);
        assert("x"@ =~= seq!['x']);
        assert(", "@ =~= s_comma_sp());
        assert(", #"@ =~= seq![',', ' ', '#']);
        assert("sbfiz"@ =~= seq!['s', 'b', 'f', 'i', 'z']);
        assert("asr"@ =~= seq!['a', 's', 'r']);
        assert("sxtb"@ =~= seq!['s', 'x', 't', 'b']);
        assert("sxth"@ =~= seq!['s', 'x', 't', 'h']);
        assert("sxtw"@ =~= seq!['s', 'x', 't', 'w']);
    }
    let ghost ts = toks.deep_view();
    if toks.len() < 7 {
        return None;
    }
    let n3 = toks[3].as_str().unicode_len();
    let rd = if n3 >= 1 {
        toks[3].as_str().substring_char(0, n3 - 1)
    } else {
        toks[3].as_str()
    };
    let n4 = toks[4].as_str().unicode_len();
    let rn = if n4 >= 1 {
        toks[4].as_str().substring_char(0, n4 - 1)
    } else {
        toks[4].as_str()
    };
    proof {
        assert(rd@ =~= drop_last(ts[3]));
        assert(rn@ =~= drop_last(ts[4]));
    }
    let n5 = toks[5].as_str().unicode_len();
    let immr_txt = if n5 >= 2 {
        toks[5].as_str().substring_char(1, n5 - 1)
    } else {
        toks[5].as_str().substring_char(0, 0)
    };
    let n6 = toks[6].as_str().unicode_len();
    let imms_txt = if n6 >= 1 {
        toks[6].as_str().substring_char(1, n6)
    } else {
        toks[6].as_str()
    };
    proof {
        assert(immr_txt@ =~= mid_of(ts[5]));
        assert(imms_txt@ =~= skip_first(ts[6]));
    }
    let r_v = match parse_dec_or_hex_exec(immr_txt) {
        Some(v) => v,
        None => {
            return None;
        },
    };
    let m_v = match parse_dec_or_hex_exec(imms_txt) {
        Some(v) => v,
        None => {
            return None;
        },
    };
    if m_v < r_v {
        let width: u64 = if starts_with(rd, "w") {
            0x20
        } else {
            0x40
        };
        let mut ops = rd.to_owned();
        ops.append(", ");
        ops.append(rn);
        ops.append(", #");
        ops.append(hex_render_exec(sub_mod64_exec(width, r_v)).as_str());
        ops.append(", #");
        ops.append(hex_render_exec(m_v + 1).as_str());
        proof {
            assert(ops@ =~= drop_last(ts[3]) + s_comma_sp() + drop_last(ts[4]) + seq![',', ' ', '#']
                + hex_render(sub_mod64(width, r_v) as nat) + seq![',', ' ', '#'] + hex_render(
                (m_v + 1) as nat,
            ));
        }
        Some(("sbfiz".to_owned(), ops))
    } else if (starts_with(rd, "x") && m_v == 0x3f) || (starts_with(rd, "w") && m_v == 0x1f) {
        let mut ops = rd.to_owned();
        ops.append(", ");
        ops.append(rn);
        ops.append(", #");
        ops.append(hex_render_exec(r_v).as_str());
        proof {
            assert(ops@ =~= drop_last(ts[3]) + s_comma_sp() + drop_last(ts[4]) + seq![',', ' ', '#']
                + hex_render(r_v as nat));
        }
        Some(("asr".to_owned(), ops))
    } else if r_v == 0 && (m_v == 7 || m_v == 15 || m_v == 31) {
        let mut ops = rd.to_owned();
        ops.append(", ");
        ops.append(replace_all_exec(rn, "x", "w").as_str());
        proof {
            assert(ops@ =~= drop_last(ts[3]) + s_comma_sp() + replace_all(
                drop_last(ts[4]),
                seq!['x'],
                seq!['w'],
            ));
        }
        if m_v == 7 {
            Some(("sxtb".to_owned(), ops))
        } else if m_v == 15 {
            Some(("sxth".to_owned(), ops))
        } else {
            Some(("sxtw".to_owned(), ops))
        }
    } else {
        None
    }
}

/// The alias pass, executably.
fn alias_exec(opc: &str, m: &str, ops: &str, toks: &Vec<String>) -> (r: Option<String>)
    ensures
        r is Some <==> alias_spec(opc@, m@, ops@, toks.deep_view()) is Some,
        r matches Some(s) ==> alias_spec(opc@, m@, ops@, toks.deep_view()) == Some(s@),
{
    proof {
        reveal_strlit("ld");
        reveal_strlit("st");
        reveal_strlit("sbc");
        reveal_strlit("ngc");
        reveal_strlit(", wzr, ");
        reveal_strlit(", xzr, ");
        reveal_strlit(", ");
        reveal_strlit("sbfm");
        reveal_strlit("extr");
        reveal_strlit("ror");
        reveal_strlit(" ");
        reveal_strlit("dcps");
        reveal_strlit("ret");
        reveal_strlit("x30");
        reveal_strlit("");
        assert("ld"@ =~= seq!['l', 'd']);
        assert("st"@ =~= seq!['s', 't']);
        assert("sbc"@ =~= seq!['s', 'b', 'c']);
        assert("ngc"@ =~= seq!['n', 'g', 'c']);
        assert(", wzr, "@ =~= s_wzr_pat());
        assert(", xzr, "@ =~= s_xzr_pat());
        assert(", "@ =~= s_comma_sp());
        assert("sbfm"@ =~= seq!['s', 'b', 'f', 'm']);
        assert("extr"@ =~= seq!['e', 'x', 't', 'r']);
        assert("ror"@ =~= seq!['r', 'o', 'r']);
        assert(" "@ =~= seq![' ']);
        assert("dcps"@ =~= seq!['d', 'c', 'p', 's']);
        assert("ret"@ =~= seq!['r', 'e', 't']);
        assert("x30"@ =~= seq!['x', '3', '0']);
        assert(""@ =~= Seq::<char>::empty());
    }
    let ghost ts = toks.deep_view();
    if starts_with(m, "ld") && contains_sub(ops, ", wzr, ") {
        Some(
            out_line_exec(
                opc,
                replace_all_exec(m, "ld", "st").as_str(),
                replace_all_exec(ops, ", wzr, ", ", ").as_str(),
            ),
        )
    } else if starts_with(m, "ld") && contains_sub(ops, ", xzr, ") {
        Some(
            out_line_exec(
                opc,
                replace_all_exec(m, "ld", "st").as_str(),
                replace_all_exec(ops, ", xzr, ", ", ").as_str(),
            ),
        )
    } else if starts_with(m, "sbc") && contains_sub(ops, ", wzr, ") {
        Some(
            out_line_exec(
                opc,
                replace_all_exec(m, "sbc", "ngc").as_str(),
                replace_all_exec(ops, ", wzr, ", ", ").as_str(),
            ),
        )
    } else if starts_with(m, "sbc") && contains_sub(ops, ", xzr, ") {
        Some(
            out_line_exec(
                opc,
                replace_all_exec(m, "sbc", "ngc").as_str(),
                replace_all_exec(ops, ", xzr, ", ", ").as_str(),
            ),
        )
    } else if str_eq(m, "sbfm") {
        match sbfm_exec(toks) {
            Some(pair) => Some(out_line_exec(opc, pair.0.as_str(), pair.1.as_str())),
            None => Some(out_line_exec(opc, m, try_sve_shorthand(ops).as_str())),
        }
    } else if str_eq(m, "extr") {
        if toks.len() >= 6 && str_eq(toks[4].as_str(), toks[5].as_str()) {
            proof {
                assert(ts[4] == toks@[4]@);
                assert(ts[5] == toks@[5]@);
            }
            let mut pat = toks[4].clone();
            pat.append(" ");
            pat.append(toks[5].as_str());
            proof {
                assert(pat@ =~= ts[4] + seq![' '] + ts[5]);
            }
            Some(
                out_line_exec(
                    opc,
                    "ror",
                    replace_all_exec(ops, pat.as_str(), toks[4].as_str()).as_str(),
                ),
            )
        } else {
            proof {
                if toks.len() >= 6 {
                    assert(ts[4] == toks@[4]@);
                    assert(ts[5] == toks@[5]@);
                }
            }
            None
        }
    } else if starts_with(m, "dcps") {
        Some(out_line_exec(opc, m, ""))
    } else if str_eq(m, "ret") && str_eq(ops, "x30") {
        Some(out_line_exec(opc, m, ""))
    } else {
        Some(out_line_exec(opc, m, try_sve_shorthand(ops).as_str()))
    }
}

/// Clean, lowercase and tokenize one raw line.
fn front_of_line(line: &str) -> (r: (String, Vec<String>))
    ensures
        r.0@ == lower_of(clean_line(line@)),
        r.1.deep_view() == split_ws(lower_of(clean_line(line@))),
{
    proof {
        reveal_strlit("//");
        reveal_strlit("<_binary");
        assert("//"@ =~= s_comment());
        assert("<_binary"@ =~= s_binmark());
    }
    let c1 = cut_before_exec(line, "//");
    let c2 = cut_before_exec(c1.as_str(), "<_binary");
    let cleaned = trim_exec(c2.as_str());
    let low = lowercase(cleaned.as_str());
    let toks = split_ws_exec(low.as_str());
    (low, toks)
}

/// Normalize one raw disassembler line, given the host's float parses for
/// the operand bodies named by [`float_requests`]: `None` means the line
/// is dropped, `Some` is the formatted output line.
pub fn normalize_line(line: &str, floats: &Vec<FloatVal>) -> (r: Option<String>)
    ensures
        r is Some <==> normalize_line_spec(line@, floats@) is Some,
        r matches Some(s) ==> normalize_line_spec(line@, floats@) == Some(s@),
{
    proof {
        reveal_strlit("<unknown>");
        reveal_strlit("<undefined>");
        reveal_strlit(".inst");
        reveal_strlit(":");
        reveal_strlit("movk");
        reveal_strlit("mov");
        reveal_strlit("{ ");
        reveal_strlit("{");
        reveal_strlit(" }");
        reveal_strlit("}");
        reveal_strlit("");
        assert("<unknown>"@ =~= s_unknown_m());
        assert("<undefined>"@ =~= s_undefined_m());
        assert(".inst"@ =~= s_inst_m());
        assert(":"@ =~= seq![':']);
        assert("movk"@ =~= s_movk());
        assert("mov"@ =~= s_mov());
        assert("{ "@ =~= seq!['{', ' ']);
        assert("{"@ =~= seq!['{']);
        assert(" }"@ =~= seq![' ', '}']);
        assert("}"@ =~= seq!['}']);
        assert(""@ =~= Seq::<char>::empty());
    }
    let (low, toks) = front_of_line(line);
    let ghost ts = toks.deep_view();
    if contains_sub(low.as_str(), "<unknown>") || contains_sub(low.as_str(), "<undefined>")
        || contains_sub(low.as_str(), ".inst") {
        if toks.len() < 2 {
            return None;
        }
        proof {
            assert(ts[1] == toks@[1]@);
        }
        if !is_hex32_exec(toks[1].as_str()) {
            return None;
        }
        return Some(out_line_exec(toks[1].as_str(), "<unknown>", ""));
    }
    if toks.len() <= 2 {
        return None;
    }
    proof {
        assert(ts[0] == toks@[0]@);
        assert(ts[1] == toks@[1]@);
        assert(ts[2] == toks@[2]@);
    }
    if !ends_with(toks[0].as_str(), ":") {
        return None;
    }
    if !is_hex32_exec(toks[1].as_str()) {
        return None;
    }
    let mut mts: Vec<String> = Vec::new();
    let mut k: usize = 2;
    proof {
        assert(mts.deep_view() =~= ts.subrange(2, 2));
    }
    while k < toks.len()
        invariant
            2 <= k <= ts.len(),
            ts == toks.deep_view(),
            ts.len() == toks@.len(),
            mts.deep_view() == ts.subrange(2, k as int),
        decreases ts.len() - k,
    {
        let ghost m0 = mts.deep_view();
        let piece = toks[k].clone();
        proof {
            assert(ts[k as int] == toks@[k as int]@);
        }
        let ghost pv = piece@;
        mts.push(piece);
        proof {
            assert(mts.deep_view() =~= m0 + seq![pv]);
            assert(m0 + seq![pv] =~= ts.subrange(2, k + 1));
        }
        k += 1;
    }
    proof {
        assert(mts.deep_view() =~= ts.skip(2));
    }
    match normalize_moves(&mts) {
        Some(o) => {
            let mstr = if str_eq(toks[2].as_str(), "movk") {
                toks[2].as_str()
            } else {
                "mov"
            };
            alias_exec(toks[1].as_str(), mstr, o.as_str(), &toks)
        },
        None => {
            let canon = canon_all_exec(&toks, 3, floats);
            let joined = join_from(&canon, 0);
            proof {
                assert(canon.deep_view().skip(0) =~= canon.deep_view());
            }
            let t1 = replace_all_exec(joined.as_str(), "{ ", "{");
            let ops = replace_all_exec(t1.as_str(), " }", "}");
            proof {
                assert(ops@ == operands_generic(ts.skip(3), floats@));
            }
            alias_exec(toks[1].as_str(), toks[2].as_str(), ops.as_str(), &toks)
        },
    }
}

/// The float-path operand bodies of a raw line, in the order the pipeline
/// consumes their parses. The host parses each body as a 64-bit float and
/// hands the outcomes to [`normalize_line`].
pub fn float_requests(line: &str) -> (r: Vec<String>)
    ensures
        r.deep_view() == float_requests_spec(line@),
{
    proof {
        reveal_strlit("<unknown>");
        reveal_strlit("<undefined>");
        reveal_strlit(".inst");
        reveal_strlit(":");
        assert("<unknown>"@ =~= s_unknown_m());
        assert("<undefined>"@ =~= s_undefined_m());
        assert(".inst"@ =~= s_inst_m());
        assert(":"@ =~= seq![':']);
    }
    let (low, toks) = front_of_line(line);
    let ghost ts = toks.deep_view();
    if contains_sub(low.as_str(), "<unknown>") || contains_sub(low.as_str(), "<undefined>")
        || contains_sub(low.as_str(), ".inst") {
        return Vec::new();
    }
    if toks.len() <= 2 {
        return Vec::new();
    }
    proof {
        assert(ts[0] == toks@[0]@);
        assert(ts[1] == toks@[1]@);
    }
    if !ends_with(toks[0].as_str(), ":") {
        return Vec::new();
    }
    if !is_hex32_exec(toks[1].as_str()) {
        return Vec::new();
    }
    let mut mts: Vec<String> = Vec::new();
    let mut k: usize = 2;
    proof {
        assert(mts.deep_view() =~= ts.subrange(2, 2));
    }
    while k < toks.len()
        invariant
            2 <= k <= ts.len(),
            ts == toks.deep_view(),
            ts.len() == toks@.len(),
            mts.deep_view() == ts.subrange(2, k as int),
        decreases ts.len() - k,
    {
        let ghost m0 = mts.deep_view();
        let piece = toks[k].clone();
        proof {
            assert(ts[k as int] == toks@[k as int]@);
        }
        let ghost pv = piece@;
        mts.push(piece);
        proof {
            assert(mts.deep_view() =~= m0 + seq![pv]);
            assert(m0 + seq![pv] =~= ts.subrange(2, k + 1));
        }
        k += 1;
    }
    proof {
        assert(mts.deep_view() =~= ts.skip(2));
    }
    if normalize_moves(&mts).is_some() {
        return Vec::new();
    }
    let mut out: Vec<String> = Vec::new();
    let mut j: usize = 3;
    proof {
        assert(out.deep_view() + float_bodies(ts.skip(3)) =~= float_bodies(ts.skip(3)));
    }
    while j < toks.len()
        invariant
            3 <= j <= ts.len(),
            ts == toks.deep_view(),
            ts.len() == toks@.len(),
            float_bodies(ts.skip(3)) == out.deep_view() + float_bodies(ts.skip(j as int)),
        decreases ts.len() - j,
    {
        let ghost rest = ts.skip(j as int);
        proof {
            assert(rest[0] == ts[j as int]);
            assert(ts[j as int] == toks@[j as int]@);
            assert(rest.skip(1) =~= ts.skip(j + 1));
        }
        if is_float_token_exec(toks[j].as_str()) {
            let ghost o0 = out.deep_view();
            let b = body_str(toks[j].as_str());
            let ghost bv = b@;
            out.push(b);
            proof {
                assert(out.deep_view() =~= o0 + seq![bv]);
                assert(o0 + (seq![bv] + float_bodies(ts.skip(j + 1))) =~= (o0 + seq![bv])
                    + float_bodies(ts.skip(j + 1)));
            }
        }
        j += 1;
    }
    proof {
        assert(ts.skip(j as int).len() == 0);
        assert(out.deep_view() + float_bodies(ts.skip(j as int)) =~= out.deep_view());
    }
    out
}

} // verus!
