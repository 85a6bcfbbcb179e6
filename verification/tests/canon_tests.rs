use asm_canon::canon::{try_hex, try_hex_float, FloatVal};

#[test]
fn non_literal_tokens_unchanged() {
    assert_eq!(try_hex("x0,"), "x0,");
    assert_eq!(try_hex("[x1]"), "[x1]");
    assert_eq!(try_hex("lsl"), "lsl");
    assert_eq!(try_hex(""), "");
}

#[test]
fn hex_canonicalization_idempotent() {
    let once = try_hex("#16,");
    assert_eq!(once, "#0x10,");
    assert_eq!(try_hex(&once), once);
    assert_eq!(try_hex("#0x10,"), "#0x10,");
    assert_eq!(try_hex("#0xff"), "#0xff");
    assert_eq!(try_hex(&try_hex("#0xff")), "#0xff");
}

#[test]
fn suffix_preservation() {
    assert_eq!(try_hex("#1,"), "#0x1,");
    assert_eq!(try_hex("#1)"), "#0x1)");
    assert_eq!(try_hex("#1]"), "#0x1]");
    assert_eq!(try_hex("#1]!"), "#0x1]!");
    assert_eq!(try_hex("#1"), "#0x1");
}

#[test]
fn twos_complement_negatives() {
    assert_eq!(try_hex("#-1,"), "#0xffffffff,");
    assert_eq!(try_hex("#-0x1,"), "#0xffffffff,");
}

#[test]
fn sixty_four_bit_values() {
    assert_eq!(try_hex("#0xffffffffffffffff,"), "#0xffffffffffffffff,");
    assert_eq!(try_hex("#18446744073709551615,"), "#0xffffffffffffffff,");
    // Too wide for 64 bits: unchanged.
    assert_eq!(try_hex("#18446744073709551616,"), "#18446744073709551616,");
    // A negative magnitude above 32 bits wraps at 64 bits.
    assert_eq!(try_hex("#-0x100000000,"), "#0xffffffff00000000,");
    assert_eq!(try_hex("#-4294967296,"), "#0xffffffff00000000,");
}

#[test]
fn upper_case_hex_digits_parse() {
    assert_eq!(try_hex("#0xFF,"), "#0xff,");
}

#[test]
fn plus_sign_is_accepted() {
    assert_eq!(try_hex("#+15,"), "#0xf,");
    assert_eq!(try_hex("#++1,"), "#++1,");
}

#[test]
fn negative_boundary_values() {
    // The widest 32-bit magnitude still negates at 32 bits.
    assert_eq!(try_hex("#-4294967295,"), "#0x1,");
    assert_eq!(try_hex("#-0xffffffff,"), "#0x1,");
    assert_eq!(try_hex("#-0,"), "#0x0,");
}

#[test]
fn unparsable_bodies_unchanged() {
    assert_eq!(try_hex("#zz,"), "#zz,");
    assert_eq!(try_hex("#0x,"), "#0x,");
    assert_eq!(try_hex("#-,"), "#-,");
    assert_eq!(try_hex("#"), "#");
    assert_eq!(try_hex("#,"), "#,");
}

#[test]
fn float_bodies_left_to_the_host() {
    // Without a host parse the token passes through.
    assert_eq!(try_hex("#1.5,"), "#1.5,");
    assert_eq!(try_hex("#1e+3"), "#1e+3");
}

#[test]
fn float_fractional_rendering() {
    let fv = FloatVal::Fractional("1.5".to_string());
    assert_eq!(try_hex_float("#1.5,", &fv), "#1.5,");
}

#[test]
fn float_whole_rendering() {
    assert_eq!(try_hex_float("#2.0,", &FloatVal::Whole(2)), "#0x2,");
    assert_eq!(try_hex_float("#-1.0]", &FloatVal::Whole(-1)), "#0xffffffff]");
}

#[test]
fn float_invalid_unchanged() {
    assert_eq!(try_hex_float("#1.2.3,", &FloatVal::Invalid), "#1.2.3,");
}
