use asm_canon::lists::try_sve_shorthand;

#[test]
fn list_becomes_range() {
    assert_eq!(try_sve_shorthand("{z0.d, z1.d, z2.d}"), "{z0.d-z2.d}");
    assert_eq!(try_sve_shorthand("{z0.s, z1.s}, p0/z"), "{z0.s-z1.s}, p0/z");
}

#[test]
fn existing_range_only_tightens_spacing() {
    assert_eq!(try_sve_shorthand("{z0.d - z3.d}"), "{z0.d-z3.d}");
    assert_eq!(try_sve_shorthand("{z0.d-z3.d}"), "{z0.d-z3.d}");
}

#[test]
fn single_register_list_unchanged() {
    assert_eq!(try_sve_shorthand("{z0.d}"), "{z0.d}");
}

#[test]
fn no_braces_unchanged() {
    assert_eq!(try_sve_shorthand("x0, x1"), "x0, x1");
    assert_eq!(try_sve_shorthand(""), "");
}
