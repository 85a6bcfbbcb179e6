use asm_canon::canon::FloatVal;
use asm_canon::line::{float_requests, normalize_line};

fn no_floats() -> Vec<FloatVal> {
    Vec::new()
}

fn line3(opc: &str, m: &str, ops: &str) -> String {
    format!("{:14}{:16}{}", opc, m, ops)
}

fn line2(opc: &str, m: &str) -> String {
    format!("{:14}{:16}", opc, m)
}

#[test]
fn bitfield_alias_asr() {
    let out = normalize_line("1000: 9346fc20 sbfm x0, x1, #0x4, #0x3f", &no_floats());
    assert_eq!(out, Some(line3("9346fc20", "asr", "x0, x1, #0x4")));
}

#[test]
fn bitfield_alias_sxtb() {
    let out = normalize_line("1000: 13001c20 sbfm w0, x1, #0x0, #0x7", &no_floats());
    assert_eq!(out, Some(line3("13001c20", "sxtb", "w0, w1")));
}

#[test]
fn bitfield_alias_sxth_and_sxtw() {
    let out = normalize_line("1000: 13003c20 sbfm w0, x1, #0x0, #0xf", &no_floats());
    assert_eq!(out, Some(line3("13003c20", "sxth", "w0, w1")));
    let out = normalize_line("1000: 93407c20 sbfm x0, x1, #0x0, #0x1f", &no_floats());
    assert_eq!(out, Some(line3("93407c20", "sxtw", "x0, w1")));
}

#[test]
fn bitfield_alias_sbfiz() {
    let out = normalize_line("1000: 93441c20 sbfm x0, x1, #0x4, #0x3", &no_floats());
    assert_eq!(out, Some(line3("93441c20", "sbfiz", "x0, x1, #0x3c, #0x4")));
}

#[test]
fn bitfield_without_alias_keeps_sbfm() {
    let out = normalize_line("1000: 93441c20 sbfm x0, x1, #0x2, #0x5", &no_floats());
    assert_eq!(out, Some(line3("93441c20", "sbfm", "x0, x1, #0x2, #0x5")));
}

#[test]
fn load_to_store_aliasing() {
    let out = normalize_line("0: f8400c00 ldr x0, wzr, x1", &no_floats());
    assert_eq!(out, Some(line3("f8400c00", "str", "x0, x1")));
    let out = normalize_line("0: f8400c00 ldr x0, xzr, x1", &no_floats());
    assert_eq!(out, Some(line3("f8400c00", "str", "x0, x1")));
}

#[test]
fn subtract_with_carry_alias() {
    let out = normalize_line("0: fa010000 sbc x0, xzr, x1", &no_floats());
    assert_eq!(out, Some(line3("fa010000", "ngc", "x0, x1")));
}

#[test]
fn dropped_line_scenario() {
    assert_eq!(normalize_line("   ; comment only", &no_floats()), None);
    assert_eq!(normalize_line("", &no_floats()), None);
    assert_eq!(normalize_line("label:", &no_floats()), None);
    // An opcode that is not 32-bit hexadecimal drops the line.
    assert_eq!(normalize_line("0: notahex add x0, x1", &no_floats()), None);
    assert_eq!(normalize_line("0: 123456789 add x0, x1", &no_floats()), None);
}

#[test]
fn unknown_opcode_scenario() {
    let out = normalize_line("   0:  00000000   <unknown>", &no_floats());
    assert_eq!(out, Some(line2("00000000", "<unknown>")));
    let out = normalize_line("   4:  1234abcd   .inst 0x1234abcd ; undefined", &no_floats());
    assert_eq!(out, Some(line2("1234abcd", "<unknown>")));
}

#[test]
fn unknown_marker_with_bad_opcode_dropped() {
    assert_eq!(normalize_line("0: nothex <unknown>", &no_floats()), None);
    assert_eq!(normalize_line(".inst", &no_floats()), None);
}

#[test]
fn move_folding_in_pipeline() {
    let out = normalize_line("0: d2a00200 movz w0, #0x10, lsl #16", &no_floats());
    assert_eq!(out, Some(line3("d2a00200", "mov", "w0, #0x100000")));
}

#[test]
fn movk_keeps_its_mnemonic() {
    let out = normalize_line("0: f2800020 movk x0, #0x1, lsl #0", &no_floats());
    assert_eq!(out, Some(line3("f2800020", "movk", "x0, #0x1")));
}

#[test]
fn return_alias_drops_link_register() {
    let out = normalize_line("0: d65f03c0 ret x30", &no_floats());
    assert_eq!(out, Some(line2("d65f03c0", "ret")));
    // Any other return target is kept.
    let out = normalize_line("0: d65f0100 ret x8", &no_floats());
    assert_eq!(out, Some(line3("d65f0100", "ret", "x8")));
}

#[test]
fn debug_exception_alias_drops_operands() {
    let out = normalize_line("0: d4a00003 dcps3 #0x0", &no_floats());
    assert_eq!(out, Some(line2("d4a00003", "dcps3")));
}

#[test]
fn rotate_via_extract() {
    let out = normalize_line("0: 93c10420 extr x0, x1, x1, #1", &no_floats());
    assert_eq!(out, Some(line3("93c10420", "ror", "x0, x1, #0x1")));
    // Differing source registers produce no output line.
    assert_eq!(normalize_line("0: 93c20420 extr x0, x1, x2, #1", &no_floats()), None);
}

#[test]
fn comments_and_annotations_are_stripped() {
    let out = normalize_line("0: 8b010000 add x0, x0, x1 // trailing note", &no_floats());
    assert_eq!(out, Some(line3("8b010000", "add", "x0, x0, x1")));
    let out = normalize_line("0: 8b010000 add x0, x0, x1 <_binary_blob_start>", &no_floats());
    assert_eq!(out, Some(line3("8b010000", "add", "x0, x0, x1")));
}

#[test]
fn input_is_lowercased() {
    let out = normalize_line("0: 8B010000 ADD X0, X0, X1", &no_floats());
    assert_eq!(out, Some(line3("8b010000", "add", "x0, x0, x1")));
}

#[test]
fn immediates_are_canonicalized_in_operands() {
    let out = normalize_line("0: 91000400 add x0, x0, #16", &no_floats());
    assert_eq!(out, Some(line3("91000400", "add", "x0, x0, #0x10")));
}

#[test]
fn register_lists_are_compacted() {
    let out = normalize_line("0: a540a000 ld1w {z0.s, z1.s}, p0/z, [x0]", &no_floats());
    assert_eq!(out, Some(line3("a540a000", "ld1w", "{z0.s-z1.s}, p0/z, [x0]")));
}

#[test]
fn brace_spacing_is_tightened() {
    let out = normalize_line("0: a540a000 ld1w { z0.s }, p0/z, [x0]", &no_floats());
    assert_eq!(out, Some(line3("a540a000", "ld1w", "{z0.s}, p0/z, [x0]")));
}

#[test]
fn float_requests_and_rendering() {
    let line = "0: 1e2e1000 fmov s0, #1.5";
    let reqs = float_requests(line);
    assert_eq!(reqs, vec!["1.5".to_string()]);
    let out = normalize_line(line, &vec![FloatVal::Fractional("1.5".to_string())]);
    assert_eq!(out, Some(line3("1e2e1000", "fmov", "s0, #1.5")));
    let line = "0: 1e201000 fmov s0, #2.0";
    assert_eq!(float_requests(line), vec!["2.0".to_string()]);
    let out = normalize_line(line, &vec![FloatVal::Whole(2)]);
    assert_eq!(out, Some(line3("1e201000", "fmov", "s0, #0x2")));
}

#[test]
fn no_float_requests_for_plain_lines() {
    assert_eq!(float_requests("0: 91000400 add x0, x0, #16"), Vec::<String>::new());
    assert_eq!(float_requests("   ; comment"), Vec::<String>::new());
}
