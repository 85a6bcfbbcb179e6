use asm_canon::moves::normalize_moves;

fn toks(ts: &[&str]) -> Vec<String> {
    ts.iter().map(|s| s.to_string()).collect()
}

#[test]
fn movz_folds_shift() {
    let t = toks(&["movz", "w0,", "#0x10", "lsl", "#16"]);
    assert_eq!(normalize_moves(&t), Some("w0, #0x100000".to_string()));
}

#[test]
fn movn_folds_with_32_bit_truncation() {
    let t = toks(&["movn", "w1,", "#0x0", "lsl", "#0"]);
    assert_eq!(normalize_moves(&t), Some("w1, #0xffffffff".to_string()));
}

#[test]
fn movn_keeps_64_bits_for_x_destination() {
    let t = toks(&["movn", "x1,", "#0x0", "lsl", "#0"]);
    assert_eq!(normalize_moves(&t), Some("x1, #0xffffffffffffffff".to_string()));
}

#[test]
fn movk_zero_shift_collapses() {
    let t = toks(&["movk", "w2,", "#0x1234,", "lsl", "#0"]);
    assert_eq!(normalize_moves(&t), Some("w2, #0x1234".to_string()));
}

#[test]
fn movk_nonzero_shift_does_not_fold() {
    let t = toks(&["movk", "w2,", "#0x1234,", "lsl", "#16"]);
    assert_eq!(normalize_moves(&t), None);
}

#[test]
fn movz_decimal_immediate() {
    let t = toks(&["movz", "x0,", "#1,", "lsl", "#16"]);
    assert_eq!(normalize_moves(&t), Some("x0, #0x10000".to_string()));
}

#[test]
fn other_mnemonics_do_not_fold() {
    let t = toks(&["add", "x0,", "#1,", "lsl", "#16"]);
    assert_eq!(normalize_moves(&t), None);
}

#[test]
fn short_sequences_do_not_fold() {
    let t = toks(&["movz", "w0,", "#0x10"]);
    assert_eq!(normalize_moves(&t), None);
}

#[test]
fn movn_with_shift() {
    let t = toks(&["movn", "x0,", "#0x1,", "lsl", "#16"]);
    // !(1 << 16) over 64 bits.
    assert_eq!(normalize_moves(&t), Some("x0, #0xfffffffffffeffff".to_string()));
}

#[test]
fn missing_lsl_keyword_does_not_fold() {
    let t = toks(&["movz", "w0,", "#0x10,", "ror", "#16"]);
    assert_eq!(normalize_moves(&t), None);
}

#[test]
fn unparsable_immediates_do_not_fold() {
    let t = toks(&["movz", "w0,", "#zz,", "lsl", "#16"]);
    assert_eq!(normalize_moves(&t), None);
    let t = toks(&["movz", "w0,", "#0x10,", "lsl", "#q"]);
    assert_eq!(normalize_moves(&t), None);
}
