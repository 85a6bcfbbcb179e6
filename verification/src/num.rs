//! Verified numeric parsing and rendering: unsigned decimal and hexadecimal
//! string parsing (an optional leading `+`, then digits), two's-complement
//! negation, and rendering as `0x`-prefixed lower-case hexadecimal.

use vstd::prelude::*;

use crate::chars::{digit_val, digit_val_exec, hex_digit_char};

verus! {

/// Value of a digit string read left to right, starting from `acc`;
/// `None` on an empty continuation is `Some(acc)`, a bad digit is `None`.
pub open spec fn digits_val(s: Seq<char>, radix: nat, acc: nat) -> Option<nat>
    decreases s.len(),
{
    if s.len() == 0 {
        Some(acc)
    } else {
        match digit_val(s[0], radix) {
            Some(d) => digits_val(s.skip(1), radix, (acc * radix + d) as nat),
            None => None,
        }
    }
}

/// The unsigned integer a string denotes in the given radix: an optional
/// leading `+`, then at least one digit; `None` otherwise.
pub open spec fn parse_uint(s: Seq<char>, radix: nat) -> Option<nat> {
    let b = if s.len() > 0 && s[0] == '+' {
        s.skip(1)
    } else {
        s
    };
    if b.len() == 0 {
        None
    } else {
        digits_val(b, radix, 0)
    }
}

/// Parsing with a 64-bit bound: the value when the string is well formed
/// and fits, `None` otherwise.
pub open spec fn parse_u64_spec(s: Seq<char>, radix: nat) -> Option<u64> {
    match parse_uint(s, radix) {
        Some(v) => if v <= u64::MAX {
            Some(v as u64)
        } else {
            None
        },
        None => None,
    }
}

/// The parsed value never falls below the accumulator it started from.
pub proof fn lemma_digits_val_ge(s: Seq<char>, radix: nat, acc: nat)
    requires
        radix >= 1,
    ensures
        digits_val(s, radix, acc) matches Some(v) ==> v >= acc,
    decreases s.len(),
{
    if s.len() > 0 {
        match digit_val(s[0], radix) {
            Some(d) => {
                let acc2 = (acc * radix + d) as nat;
                assert(acc * radix >= acc * 1) by (nonlinear_arith)
                    requires radix >= 1;
                lemma_digits_val_ge(s.skip(1), radix, acc2);
            },
            None => {},
        }
    }
}

/// Parse an unsigned integer, decimal or hexadecimal, bounded by `u64`.
pub fn parse_u64(s: &str, hex: bool) -> (r: Option<u64>)
    ensures
        r == parse_u64_spec(s@, if hex { 16nat } else { 10nat }),
{
    let ghost radix: nat = if hex { 16nat } else { 10nat };
    let rdx: u64 = if hex { 16 } else { 10 };
    let n = s.unicode_len();
    let start: usize = if n > 0 && s.get_char(0) == '+' {
        1
    } else {
        0
    };
    let ghost b = if start == 1 { s@.skip(1) } else { s@ };
    proof {
        if start == 0 {
            assert(s@.skip(0) =~= s@);
        }
    }
    if n == start {
        return None;
    }
    let mut acc: u64 = 0;
    let mut i: usize = start;
    proof {
        assert(b.skip(0) =~= b);
    }
    while i < n
        invariant
            n == s@.len(),
            start <= i <= n,
            start <= 1,
            rdx == radix,
            radix == if hex { 16nat } else { 10nat },
            1 <= rdx <= 16,
            b == if start == 1 { s@.skip(1) } else { s@ },
            (start == 1) == (s@.len() > 0 && s@[0] == '+'),
            b.len() == n - start,
            digits_val(b, radix, 0) == digits_val(b.skip(i - start), radix, acc as nat),
        decreases n - i,
    {
        let ghost rest = b.skip(i - start);
        proof {
            assert(rest[0] == s@[i as int]);
            assert(rest.skip(1) =~= b.skip(i + 1 - start));
        }
        let c = s.get_char(i);
        match digit_val_exec(c, hex) {
            None => {
                return None;
            },
            Some(d) => {
                proof {
                    assert(digit_val(s@[i as int], radix) == Some(d as nat));
                    assert((d as nat) < radix);
                }
                let bound = (u64::MAX - (d as u64)) / rdx;
                proof {
                    assert(bound as nat == ((u64::MAX - d as u64) as nat) / radix);
                }
                // Detect a value that no longer fits in 64 bits.
                if acc > bound {
                    proof {
                        let acc2 = (acc as nat * radix + d as nat) as nat;
                        assert(acc as nat * radix + d as nat > u64::MAX) by (nonlinear_arith)
                            requires
                                acc as nat > ((u64::MAX - d as u64) as nat) / radix,
                                1 <= radix,
                                (d as nat) < radix,
                        ;
                        lemma_digits_val_ge(rest.skip(1), radix, acc2);
                    }
                    return None;
                }
                proof {
                    assert(acc as nat * radix + d as nat <= u64::MAX) by (nonlinear_arith)
                        requires
                            acc as nat <= ((u64::MAX - d as u64) as nat) / radix,
                            1 <= radix,
                            (d as nat) < radix,
                    ;
                }
                acc = acc * rdx + (d as u64);
            },
        }
        i += 1;
    }
    proof {
        assert(b.skip(n - start) =~= Seq::<char>::empty());
    }
    Some(acc)
}

/// The lower-case hexadecimal digits of `n`, most significant first, with
/// no leading zeroes (`0` itself is the single digit `0`).
pub open spec fn hex_digits(n: nat) -> Seq<char>
    decreases n,
{
    if n < 16 {
        seq![hex_digit_char(n)]
    } else {
        hex_digits(n / 16) + seq![hex_digit_char(n % 16)]
    }
}

/// `n` rendered the way a hexadecimal immediate is printed: `0x` then the
/// lower-case digits.
pub open spec fn hex_render(n: nat) -> Seq<char> {
    seq!['0', 'x'] + hex_digits(n)
}

/// One hexadecimal digit as text.
fn hex_digit_str(d: u64) -> (r: &'static str)
    requires
        d < 16,
    ensures
        r@ == seq![hex_digit_char(d as nat)],
{
    proof {
        reveal_strlit("0");
        reveal_strlit("1");
        reveal_strlit("2");
        reveal_strlit("3");
        reveal_strlit("4");
        reveal_strlit("5");
        reveal_strlit("6");
        reveal_strlit("7");
        reveal_strlit("8");
        reveal_strlit("9");
        reveal_strlit("a");
        reveal_strlit("b");
        reveal_strlit("c");
        reveal_strlit("d");
        reveal_strlit("e");
        reveal_strlit("f");
    }
    if d == 0 { "0" } else if d == 1 { "1" } else if d == 2 { "2" } else if d == 3 { "3" }
    else if d == 4 { "4" } else if d == 5 { "5" } else if d == 6 { "6" } else if d == 7 { "7" }
    else if d == 8 { "8" } else if d == 9 { "9" } else if d == 10 { "a" } else if d == 11 { "b" }
    else if d == 12 { "c" } else if d == 13 { "d" } else if d == 14 { "e" } else { "f" }
}

/// The hexadecimal digits of `n` as a string.
pub fn hex_digits_exec(n: u64) -> (r: String)
    ensures
        r@ == hex_digits(n as nat),
    decreases n,
{
    if n < 16 {
        hex_digit_str(n).to_owned()
    } else {
        let mut r = hex_digits_exec(n / 16);
        r.append(hex_digit_str(n % 16));
        assert(r@ =~= hex_digits(n as nat));
        r
    }
}

/// `n` rendered as `0x` followed by its lower-case hexadecimal digits.
pub fn hex_render_exec(n: u64) -> (r: String)
    ensures
        r@ == hex_render(n as nat),
{
    proof {
        reveal_strlit("0x");
    }
    let mut r = String::new();
    r.append("0x");
    r.append(hex_digits_exec(n).as_str());
    assert(r@ =~= hex_render(n as nat));
    r
}

/// The 32-bit two's-complement bit pattern of `-v`.
pub open spec fn neg32(v: u32) -> u64 {
    ((0x1_0000_0000 - v as int) % 0x1_0000_0000) as u64
}

/// The 64-bit two's-complement bit pattern of `-v`.
pub open spec fn neg64(v: u64) -> u64 {
    ((0x1_0000_0000_0000_0000 - v as int) % 0x1_0000_0000_0000_0000) as u64
}

/// Reading a concatenation of digit strings is reading the first, then
/// the second from where the first left off.
pub proof fn lemma_digits_val_concat(a: Seq<char>, b: Seq<char>, radix: nat, acc: nat)
    ensures
        digits_val(a + b, radix, acc) == match digits_val(a, radix, acc) {
            Some(m) => digits_val(b, radix, m),
            None => None,
        },
    decreases a.len(),
{
    if a.len() == 0 {
        assert(a + b =~= b);
    } else {
        assert((a + b)[0] == a[0]);
        match digit_val(a[0], radix) {
            Some(d) => {
                assert((a + b).skip(1) =~= a.skip(1) + b);
                lemma_digits_val_concat(a.skip(1), b, radix, (acc * radix + d) as nat);
            },
            None => {},
        }
    }
}

/// Every character of a hexadecimal rendering is a hexadecimal digit.
pub proof fn lemma_hex_digits_are_digits(n: nat)
    ensures
        hex_digits(n).len() >= 1,
        forall|i: int|
            0 <= i < hex_digits(n).len() ==> digit_val(#[trigger] hex_digits(n)[i], 16) is Some,
    decreases n,
{
    if n < 16 {
        assert(digit_val(hex_digit_char(n), 16) is Some);
    } else {
        lemma_hex_digits_are_digits(n / 16);
        assert(digit_val(hex_digit_char(n % 16), 16) is Some);
        assert(forall|i: int|
            0 <= i < hex_digits(n).len() ==> digit_val(#[trigger] hex_digits(n)[i], 16)
                is Some) by {
            assert(forall|i: int|
                0 <= i < hex_digits(n / 16).len() ==> hex_digits(n)[i] == #[trigger] hex_digits(
                    n / 16,
                )[i]);
            assert(hex_digits(n)[hex_digits(n).len() - 1] == hex_digit_char(n % 16));
        }
    }
}

/// Reading back a hexadecimal rendering gives the value it was made from.
pub proof fn lemma_hex_digits_roundtrip(n: nat)
    ensures
        digits_val(hex_digits(n), 16, 0) == Some(n),
    decreases n,
{
    if n < 16 {
        assert(digit_val(hex_digit_char(n), 16) == Some(n));
        assert(digits_val(Seq::<char>::empty(), 16, n) == Some(n));
        assert(seq![hex_digit_char(n)].skip(1) =~= Seq::<char>::empty());
    } else {
        lemma_hex_digits_roundtrip(n / 16);
        lemma_digits_val_concat(hex_digits(n / 16), seq![hex_digit_char(n % 16)], 16, 0);
        assert(digit_val(hex_digit_char(n % 16), 16) == Some(n % 16));
        assert(seq![hex_digit_char(n % 16)].skip(1) =~= Seq::<char>::empty());
        vstd::arithmetic::div_mod::lemma_fundamental_div_mod(n as int, 16);
        assert((n / 16) * 16 + n % 16 == n);
        assert(digits_val(Seq::<char>::empty(), 16, n) == Some(n));
        assert(digits_val(seq![hex_digit_char(n % 16)], 16, n / 16) == Some(n));
        assert(digits_val(hex_digits(n / 16) + seq![hex_digit_char(n % 16)], 16, 0) == Some(n));
        assert(hex_digits(n) == hex_digits(n / 16) + seq![hex_digit_char(n % 16)]);
    }
}

/// `a - b` wrapped to 64 bits.
pub open spec fn sub_mod64(a: u64, b: u64) -> u64 {
    ((a - b as int) % 0x1_0000_0000_0000_0000) as u64
}

/// Executable form of [`sub_mod64`].
pub fn sub_mod64_exec(a: u64, b: u64) -> (r: u64)
    ensures
        r == sub_mod64(a, b),
{
    let ghost m: int = 0x1_0000_0000_0000_0000;
    if b <= a {
        proof {
            vstd::arithmetic::div_mod::lemma_small_mod((a - b) as nat, m as nat);
        }
        a - b
    } else {
        let r = a + (u64::MAX - b) + 1;
        proof {
            vstd::arithmetic::div_mod::lemma_mod_add_multiples_vanish(a - b as int, m);
            vstd::arithmetic::div_mod::lemma_small_mod(r as nat, m as nat);
            assert(r == m + (a - b as int));
        }
        r
    }
}

/// The 32-bit two's-complement bit pattern of `w`, as an unsigned value.
pub open spec fn i32_bits(w: i32) -> u64 {
    if w >= 0 {
        w as u64
    } else {
        (w + 0x1_0000_0000) as u64
    }
}

/// Executable form of [`i32_bits`].
pub fn i32_bits_exec(w: i32) -> (r: u64)
    ensures
        r == i32_bits(w),
{
    if w >= 0 {
        w as u64
    } else {
        ((w as i64) + 0x1_0000_0000) as u64
    }
}

/// Executable 32-bit two's-complement negation.
pub fn neg32_exec(v: u32) -> (r: u64)
    ensures
        r == neg32(v),
{
    if v == 0 {
        0
    } else {
        let r32 = !v;
        assert(!v == 0xffff_ffffu32 - v) by (bit_vector);
        (r32 as u64) + 1
    }
}

/// Executable 64-bit two's-complement negation.
pub fn neg64_exec(v: u64) -> (r: u64)
    ensures
        r == neg64(v),
{
    if v == 0 {
        0
    } else {
        let r64 = !v;
        assert(!v == 0xffff_ffff_ffff_ffffu64 - v) by (bit_vector)
            requires v >= 1,
        ;
        r64 + 1
    }
}

} // verus!
