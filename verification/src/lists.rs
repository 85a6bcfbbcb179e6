//! The register-list shorthand compactor: an explicit `{a, b, c}` list is
//! rewritten as the `{a-c}` range shorthand when no range syntax is present
//! already.

use vstd::prelude::*;

use crate::text::{
    contains_s, contains_sub, find_from, find_sub, lemma_find_from_found,
    lemma_find_from_range, replace_all, replace_all_exec, trim_exec, trim_s,
};

verus! {

/// Index of the last occurrence of `c` in `s`, if any.
pub open spec fn rfind_char(s: Seq<char>, c: char) -> Option<int>
    decreases s.len(),
{
    if s.len() == 0 {
        None
    } else if s[s.len() - 1] == c {
        Some(s.len() - 1)
    } else {
        rfind_char(s.take(s.len() - 1), c)
    }
}

/// Executable form of [`rfind_char`].
fn rfind_char_exec(s: &str, c: char) -> (r: Option<usize>)
    ensures
        match r {
            Some(j) => rfind_char(s@, c) == Some(j as int) && j < s@.len(),
            None => rfind_char(s@, c) is None,
        },
{
    let n = s.unicode_len();
    let mut j: usize = n;
    proof {
        assert(s@.take(n as int) =~= s@);
    }
    while j > 0
        invariant
            n == s@.len(),
            j <= n,
            rfind_char(s@, c) == rfind_char(s@.take(j as int), c),
        decreases j,
    {
        if s.get_char(j - 1) == c {
            proof {
                assert(s@.take(j as int)[j - 1] == s@[j - 1]);
            }
            return Some(j - 1);
        }
        proof {
            assert(s@.take(j as int)[j - 1] == s@[j - 1]);
            assert(s@.take(j as int).take(j - 1) =~= s@.take(j - 1));
        }
        j -= 1;
    }
    None
}

/// What the compactor returns. A string without `{` passes through. One
/// that already shows a `-` anywhere only has its `" - "` spacing
/// tightened. Otherwise the region between the first `{` and the first `}`
/// is read as a comma-separated list, and a list of at least two entries
/// is replaced by `first-last`.
pub open spec fn shorthand_spec(s: Seq<char>) -> Seq<char> {
    match find_from(s, seq!['{'], 0) {
        None => s,
        Some(b) => if contains_s(s, seq!['-']) {
            replace_all(s, seq![' ', '-', ' '], seq!['-'])
        } else {
            match find_from(s, seq!['}'], 0) {
                None => s,
                Some(c) => if c < b {
                    s
                } else {
                    let list = s.subrange(b, c);
                    match find_from(list, seq![','], 0) {
                        None => s,
                        Some(fc) => {
                            let lc = rfind_char(list, ',')->Some_0;
                            let first = trim_s(list.take(fc));
                            let last = trim_s(list.skip(lc + 1));
                            replace_all(s, list, first + seq!['-'] + last)
                        },
                    }
                },
            }
        },
    }
}

/// If a character occurs at all, searching from the back finds it too.
proof fn lemma_rfind_some(s: Seq<char>, c: char, i: int)
    requires
        0 <= i < s.len(),
        s[i] == c,
    ensures
        rfind_char(s, c) matches Some(j) && i <= j < s.len(),
    decreases s.len(),
{
    if s[s.len() - 1] == c {
    } else {
        assert(i < s.len() - 1);
        assert(s.take(s.len() - 1)[i] == c);
        lemma_rfind_some(s.take(s.len() - 1), c, i);
    }
}

/// Compact an explicit register list into its range shorthand.
pub fn try_sve_shorthand(s: &str) -> (r: String)
    ensures
        r@ == shorthand_spec(s@),
{
    proof {
        reveal_strlit("{");
        reveal_strlit("}");
        reveal_strlit("-");
        reveal_strlit(" - ");
        reveal_strlit(",");
        assert("{"@ =~= seq!['{']);
        assert("}"@ =~= seq!['}']);
        assert("-"@ =~= seq!['-']);
        assert(" - "@ =~= seq![' ', '-', ' ']);
        assert(","@ =~= seq![',']);
        lemma_find_from_range(s@, seq!['{'], 0);
        lemma_find_from_range(s@, seq!['}'], 0);
    }
    let b = match find_sub(s, "{") {
        None => {
            return s.to_owned();
        },
        Some(b) => b,
    };
    if contains_sub(s, "-") {
        return replace_all_exec(s, " - ", "-");
    }
    let c = match find_sub(s, "}") {
        None => {
            return s.to_owned();
        },
        Some(c) => c,
    };
    if c < b {
        return s.to_owned();
    }
    let list = s.substring_char(b, c);
    proof {
        assert(list@ =~= s@.subrange(b as int, c as int));
        lemma_find_from_range(list@, seq![','], 0);
    }
    let fc = match find_sub(list, ",") {
        None => {
            return s.to_owned();
        },
        Some(fc) => fc,
    };
    proof {
        lemma_find_from_found(list@, seq![','], 0);
        assert(list@.subrange(fc as int, fc + 1)[0] == list@[fc as int]);
        lemma_rfind_some(list@, ',', fc as int);
    }
    let lc = match rfind_char_exec(list, ',') {
        None => {
            return s.to_owned();
        },
        Some(lc) => lc,
    };
    let first_raw = list.substring_char(0, fc);
    let llen = list.unicode_len();
    let last_raw = list.substring_char(lc + 1, llen);
    proof {
        assert(first_raw@ =~= list@.take(fc as int));
        assert(last_raw@ =~= list@.skip(lc + 1));
    }
    let mut short = trim_exec(first_raw);
    short.append("-");
    short.append(trim_exec(last_raw).as_str());
    proof {
        assert(short@ =~= trim_s(list@.take(fc as int)) + seq!['-'] + trim_s(list@.skip(lc + 1)));
    }
    replace_all_exec(s, list, short.as_str())
}

} // verus!
