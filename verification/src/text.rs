//! Verified string utilities over `Seq<char>` views: substring search,
//! replacement, trimming, whitespace splitting, joining, and padding.

use vstd::prelude::*;

use crate::chars::is_ws;

verus! {

/// `p` occurs in `s` at position `i`.
pub open spec fn contains_at(s: Seq<char>, i: int, p: Seq<char>) -> bool {
    0 <= i && i + p.len() <= s.len() && s.subrange(i, i + p.len() as int) == p
}

/// `s` begins with `p`.
pub open spec fn starts_with_s(s: Seq<char>, p: Seq<char>) -> bool {
    contains_at(s, 0, p)
}

/// `s` ends with `p`.
pub open spec fn ends_with_s(s: Seq<char>, p: Seq<char>) -> bool {
    p.len() <= s.len() && contains_at(s, s.len() - p.len(), p)
}

/// Index of the first occurrence of `p` in `s` at or after `i`, if any.
pub open spec fn find_from(s: Seq<char>, p: Seq<char>, i: int) -> Option<int>
    decreases s.len() - i,
{
    if i < 0 || i + p.len() > s.len() {
        None
    } else if p.len() == 0 || contains_at(s, i, p) {
        Some(i)
    } else {
        find_from(s, p, i + 1)
    }
}

/// A found occurrence of a non-empty pattern is a real match.
pub proof fn lemma_find_from_found(s: Seq<char>, p: Seq<char>, i: int)
    requires
        p.len() > 0,
    ensures
        find_from(s, p, i) matches Some(j) ==> contains_at(s, j, p),
    decreases s.len() - i,
{
    if i < 0 || i + p.len() > s.len() {
    } else if contains_at(s, i, p) {
    } else {
        lemma_find_from_found(s, p, i + 1);
    }
}

/// A found occurrence lies within `s`.
pub proof fn lemma_find_from_range(s: Seq<char>, p: Seq<char>, i: int)
    ensures
        find_from(s, p, i) matches Some(j) ==> i <= j && j + p.len() <= s.len(),
    decreases s.len() - i,
{
    if i < 0 || i + p.len() > s.len() {
    } else if p.len() == 0 || contains_at(s, i, p) {
    } else {
        lemma_find_from_range(s, p, i + 1);
    }
}

/// `p` occurs somewhere in `s`.
pub open spec fn contains_s(s: Seq<char>, p: Seq<char>) -> bool {
    find_from(s, p, 0) is Some
}

/// Everything of `s` before the first occurrence of `p`; `s` itself when
/// `p` does not occur.
pub open spec fn cut_before(s: Seq<char>, p: Seq<char>) -> Seq<char> {
    match find_from(s, p, 0) {
        Some(j) => s.take(j),
        None => s,
    }
}

/// `s` with every occurrence of the non-empty pattern `p` replaced by `t`,
/// scanning left to right without rescanning replacements.
pub open spec fn replace_all(s: Seq<char>, p: Seq<char>, t: Seq<char>) -> Seq<char>
    decreases s.len(),
{
    if p.len() == 0 || s.len() < p.len() {
        s
    } else if contains_at(s, 0, p) {
        t + replace_all(s.skip(p.len() as int), p, t)
    } else {
        seq![s[0]] + replace_all(s.skip(1), p, t)
    }
}

/// `s` without leading white space.
pub open spec fn trim_start_s(s: Seq<char>) -> Seq<char>
    decreases s.len(),
{
    if s.len() > 0 && is_ws(s[0]) {
        trim_start_s(s.skip(1))
    } else {
        s
    }
}

/// `s` without trailing white space.
pub open spec fn trim_end_s(s: Seq<char>) -> Seq<char>
    decreases s.len(),
{
    if s.len() > 0 && is_ws(s[s.len() - 1]) {
        trim_end_s(s.take(s.len() - 1))
    } else {
        s
    }
}

/// `s` without leading or trailing white space.
pub open spec fn trim_s(s: Seq<char>) -> Seq<char> {
    trim_end_s(trim_start_s(s))
}

/// Splitting on white space, carrying the token under construction.
pub open spec fn split_ws_acc(s: Seq<char>, i: int, cur: Seq<char>) -> Seq<Seq<char>>
    decreases s.len() - i,
{
    if i < 0 || i >= s.len() {
        if cur.len() > 0 {
            seq![cur]
        } else {
            Seq::empty()
        }
    } else if is_ws(s[i]) {
        if cur.len() > 0 {
            seq![cur] + split_ws_acc(s, i + 1, Seq::empty())
        } else {
            split_ws_acc(s, i + 1, Seq::empty())
        }
    } else {
        split_ws_acc(s, i + 1, cur.push(s[i]))
    }
}

/// The white-space-separated tokens of `s`, in order, each non-empty.
pub open spec fn split_ws(s: Seq<char>) -> Seq<Seq<char>> {
    split_ws_acc(s, 0, Seq::empty())
}

/// The tokens joined with single spaces.
pub open spec fn join_sp(ts: Seq<Seq<char>>) -> Seq<char>
    decreases ts.len(),
{
    if ts.len() == 0 {
        Seq::empty()
    } else if ts.len() == 1 {
        ts[0]
    } else {
        ts[0] + seq![' '] + join_sp(ts.skip(1))
    }
}

/// `n` spaces.
pub open spec fn spaces(n: nat) -> Seq<char>
    decreases n,
{
    if n == 0 {
        Seq::empty()
    } else {
        spaces((n - 1) as nat) + seq![' ']
    }
}

/// `s` padded on the right with spaces to at least `n` characters.
pub open spec fn pad_to(s: Seq<char>, n: nat) -> Seq<char> {
    if s.len() >= n {
        s
    } else {
        s + spaces((n - s.len()) as nat)
    }
}

/// Whether `p` occurs in `s` at position `i` (in-bounds check included).
pub fn matches_at(s: &str, i: usize, p: &str) -> (r: bool)
    ensures
        r == contains_at(s@, i as int, p@),
{
    let n = s.unicode_len();
    let m = p.unicode_len();
    if i > n || m > n - i {
        return false;
    }
    let mut j: usize = 0;
    while j < m
        invariant
            j <= m,
            i + m <= n,
            n == s@.len(),
            m == p@.len(),
            forall|k: int| 0 <= k < j ==> s@[i + k] == p@[k],
        decreases m - j,
    {
        if s.get_char(i + j) != p.get_char(j) {
            assert(s@.subrange(i as int, i + m) != p@) by {
                assert(s@.subrange(i as int, i + m)[j as int] != p@[j as int]);
            }
            return false;
        }
        j += 1;
    }
    assert(s@.subrange(i as int, i + m) =~= p@);
    true
}

/// Whether the two strings hold the same characters.
pub fn str_eq(a: &str, b: &str) -> (r: bool)
    ensures
        r == (a@ == b@),
{
    if a.unicode_len() != b.unicode_len() {
        return false;
    }
    let r = matches_at(a, 0, b);
    proof {
        assert(a@.subrange(0, a@.len() as int) =~= a@);
    }
    r
}

/// Whether `s` begins with `p`.
pub fn starts_with(s: &str, p: &str) -> (r: bool)
    ensures
        r == starts_with_s(s@, p@),
{
    matches_at(s, 0, p)
}

/// Whether `s` ends with `p`.
pub fn ends_with(s: &str, p: &str) -> (r: bool)
    ensures
        r == ends_with_s(s@, p@),
{
    let n = s.unicode_len();
    let m = p.unicode_len();
    if m > n {
        return false;
    }
    matches_at(s, n - m, p)
}

/// First occurrence of `p` in `s`, if any.
pub fn find_sub(s: &str, p: &str) -> (r: Option<usize>)
    ensures
        match r {
            Some(j) => find_from(s@, p@, 0) == Some(j as int),
            None => find_from(s@, p@, 0) is None,
        },
{
    let n = s.unicode_len();
    let m = p.unicode_len();
    if m == 0 {
        return Some(0);
    }
    let mut i: usize = 0;
    while m <= n && i <= n - m
        invariant
            n == s@.len(),
            m == p@.len(),
            m >= 1,
            i <= n + 1,
            find_from(s@, p@, 0) == find_from(s@, p@, i as int),
        decreases n - i,
    {
        if matches_at(s, i, p) {
            return Some(i);
        }
        assert(find_from(s@, p@, i as int) == find_from(s@, p@, i + 1));
        i += 1;
    }
    assert(find_from(s@, p@, i as int) is None);
    None
}

/// Whether `p` occurs in `s`.
pub fn contains_sub(s: &str, p: &str) -> (r: bool)
    ensures
        r == contains_s(s@, p@),
{
    find_sub(s, p).is_some()
}

/// Everything of `s` before the first occurrence of `p`.
pub fn cut_before_exec(s: &str, p: &str) -> (r: String)
    ensures
        r@ == cut_before(s@, p@),
{
    proof {
        lemma_find_from_range(s@, p@, 0);
    }
    match find_sub(s, p) {
        Some(j) => {
            let r = s.substring_char(0, j).to_owned();
            assert(s@.subrange(0, j as int) =~= s@.take(j as int));
            r
        },
        None => s.to_owned(),
    }
}

/// `s` with every occurrence of the non-empty `p` replaced by `t`.
pub fn replace_all_exec(s: &str, p: &str, t: &str) -> (r: String)
    ensures
        r@ == replace_all(s@, p@, t@),
{
    let n = s.unicode_len();
    let m = p.unicode_len();
    if m == 0 {
        return s.to_owned();
    }
    let mut r = String::new();
    let mut i: usize = 0;
    proof {
        assert(s@.skip(0) =~= s@);
        assert(Seq::<char>::empty() + replace_all(s@, p@, t@) =~= replace_all(s@, p@, t@));
    }
    while i < n
        invariant
            n == s@.len(),
            m == p@.len(),
            m >= 1,
            i <= n,
            replace_all(s@, p@, t@) == r@ + replace_all(s@.skip(i as int), p@, t@),
        decreases n - i,
    {
        let ghost rest = s@.skip(i as int);
        if m <= n - i && matches_at(s, i, p) {
            r.append(t);
            proof {
                assert(rest.subrange(0, m as int) =~= s@.subrange(i as int, i + m));
                assert(contains_at(rest, 0, p@));
                assert(rest.skip(m as int) =~= s@.skip(i + m));
            }
            i += m;
        } else {
            let c = s.substring_char(i, i + 1);
            r.append(c);
            proof {
                if m <= n - i {
                    assert(rest.subrange(0, m as int) =~= s@.subrange(i as int, i + m));
                    assert(!contains_at(rest, 0, p@));
                }
                assert(seq![rest[0]] =~= s@.subrange(i as int, i + 1));
                assert(rest.skip(1) =~= s@.skip(i + 1));
            }
            i += 1;
        }
    }
    assert(s@.skip(n as int) =~= Seq::<char>::empty());
    assert(r@ =~= replace_all(s@, p@, t@));
    r
}

/// `s` without leading or trailing white space.
pub fn trim_exec(s: &str) -> (r: String)
    ensures
        r@ == trim_s(s@),
{
    let n = s.unicode_len();
    let mut i: usize = 0;
    proof {
        assert(s@.skip(0) =~= s@);
    }
    while i < n && crate::chars::is_ws_exec(s.get_char(i))
        invariant
            n == s@.len(),
            i <= n,
            trim_start_s(s@) == trim_start_s(s@.skip(i as int)),
        decreases n - i,
    {
        proof {
            assert(s@.skip(i as int).skip(1) =~= s@.skip(i + 1));
        }
        i += 1;
    }
    let ghost t = s@.skip(i as int);
    proof {
        assert(trim_start_s(s@) == t);
    }
    let mut j: usize = n;
    proof {
        assert(t.take(n - i) =~= t);
    }
    while j > i && crate::chars::is_ws_exec(s.get_char(j - 1))
        invariant
            n == s@.len(),
            i <= j <= n,
            t == s@.skip(i as int),
            trim_start_s(s@) == t,
            trim_end_s(t) == trim_end_s(t.take(j - i)),
        decreases j,
    {
        proof {
            let sub = t.take(j - i);
            assert(sub[sub.len() - 1] == s@[j - 1]);
            assert(sub.take(sub.len() - 1) =~= t.take(j - 1 - i));
        }
        j -= 1;
    }
    let r = s.substring_char(i, j).to_owned();
    proof {
        let sub = t.take(j - i);
        if j > i {
            assert(sub[sub.len() - 1] == s@[j - 1]);
        }
        assert(trim_end_s(sub) == sub);
        assert(s@.subrange(i as int, j as int) =~= sub);
    }
    r
}

/// The white-space-separated tokens of `s`.
pub fn split_ws_exec(s: &str) -> (r: Vec<String>)
    ensures
        r.deep_view() == split_ws(s@),
{
    let n = s.unicode_len();
    let mut toks: Vec<String> = Vec::new();
    let mut cur: String = String::new();
    let mut i: usize = 0;
    while i < n
        invariant
            n == s@.len(),
            i <= n,
            split_ws(s@) == toks.deep_view() + split_ws_acc(s@, i as int, cur@),
        decreases n - i,
    {
        let c = s.get_char(i);
        if crate::chars::is_ws_exec(c) {
            if cur.as_str().unicode_len() > 0 {
                let ghost old_toks = toks.deep_view();
                let ghost done_view = cur@;
                let done = cur;
                cur = String::new();
                toks.push(done);
                proof {
                    assert(toks.deep_view() =~= old_toks + seq![done_view]);
                    assert(old_toks + (seq![done_view] + split_ws_acc(s@, i + 1, Seq::empty()))
                        =~= (old_toks + seq![done_view]) + split_ws_acc(s@, i + 1, Seq::empty()));
                }
            } else {
                proof {
                    assert(cur@ =~= Seq::<char>::empty());
                }
            }
        } else {
            let ghost cur0 = cur@;
            let piece = s.substring_char(i, i + 1);
            cur.append(piece);
            proof {
                assert(cur@ =~= cur0.push(s@[i as int]));
            }
        }
        i += 1;
    }
    let ghost before = toks.deep_view();
    if cur.as_str().unicode_len() > 0 {
        let ghost done_view = cur@;
        toks.push(cur);
        proof {
            assert(toks.deep_view() =~= before + seq![done_view]);
        }
    } else {
        proof {
            assert(cur@ =~= Seq::<char>::empty());
            assert(toks.deep_view() + split_ws_acc(s@, n as int, cur@) =~= toks.deep_view());
        }
    }
    toks
}

} // verus!
