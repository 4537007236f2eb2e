//! Verified text utilities shared by the snapshot codec and the parsers.
//!
//! Everything here is stated over `Seq<char>` views; the executable
//! functions walk strings with character-level access from vstd.

use vstd::prelude::*;
use vstd::string::*;

verus! {

/// Whitespace as the trimmers and the snapshot tokenizer understand it:
/// the characters with the Unicode `White_Space` property.
pub open spec fn is_space(c: char) -> bool {
    c == ' ' || c == '\t' || c == '\n' || c == '\r' || c == '\u{000B}' || c == '\u{000C}'
        || c == '\u{0085}' || c == '\u{00A0}' || c == '\u{1680}' || c == '\u{2000}'
        || c == '\u{2001}' || c == '\u{2002}' || c == '\u{2003}' || c == '\u{2004}'
        || c == '\u{2005}' || c == '\u{2006}' || c == '\u{2007}' || c == '\u{2008}'
        || c == '\u{2009}' || c == '\u{200A}' || c == '\u{2028}' || c == '\u{2029}'
        || c == '\u{202F}' || c == '\u{205F}' || c == '\u{3000}'
}

pub fn is_space_char(c: char) -> (r: bool)
    ensures
        r == is_space(c),
{
    c == ' ' || c == '\t' || c == '\n' || c == '\r' || c == '\u{000B}' || c == '\u{000C}'
        || c == '\u{0085}' || c == '\u{00A0}' || c == '\u{1680}' || c == '\u{2000}'
        || c == '\u{2001}' || c == '\u{2002}' || c == '\u{2003}' || c == '\u{2004}'
        || c == '\u{2005}' || c == '\u{2006}' || c == '\u{2007}' || c == '\u{2008}'
        || c == '\u{2009}' || c == '\u{200A}' || c == '\u{2028}' || c == '\u{2029}'
        || c == '\u{202F}' || c == '\u{205F}' || c == '\u{3000}'
}

/// The sequence without its leading whitespace.
pub open spec fn spec_trim_start(s: Seq<char>) -> Seq<char>
    decreases s.len(),
{
    if s.len() > 0 && is_space(s[0]) {
        spec_trim_start(s.drop_first())
    } else {
        s
    }
}

/// The sequence without its trailing whitespace.
pub open spec fn spec_trim_end(s: Seq<char>) -> Seq<char>
    decreases s.len(),
{
    if s.len() > 0 && is_space(s[s.len() - 1]) {
        spec_trim_end(s.drop_last())
    } else {
        s
    }
}

/// The sequence without leading or trailing whitespace.
pub open spec fn spec_trim(s: Seq<char>) -> Seq<char> {
    spec_trim_end(spec_trim_start(s))
}

/// Trims leading and trailing whitespace, like `str::trim`.
pub fn trim<'a>(s: &'a str) -> (r: &'a str)
    ensures
        r@ == spec_trim(s@),
{
    let n = s.unicode_len();
    let mut a: usize = 0;
    proof {
        assert(s@.skip(0) =~= s@);
    }
    while a < n && is_space_char(s.get_char(a))
        invariant
            n == s@.len(),
            a <= n,
            spec_trim_start(s@.skip(a as int)) == spec_trim_start(s@),
        decreases n - a,
    {
        proof {
            assert(s@.skip(a as int)[0] == s@[a as int]);
            assert(s@.skip(a as int).drop_first() =~= s@.skip(a as int + 1));
        }
        a = a + 1;
    }
    proof {
        assert(spec_trim_start(s@.skip(a as int)) == s@.skip(a as int));
    }
    let mut b: usize = n;
    proof {
        assert(s@.subrange(a as int, n as int) =~= s@.skip(a as int));
    }
    while b > a && is_space_char(s.get_char(b - 1))
        invariant
            n == s@.len(),
            a <= b <= n,
            spec_trim_end(s@.subrange(a as int, b as int)) == spec_trim_end(s@.skip(a as int)),
        decreases b,
    {
        proof {
            let u = s@.subrange(a as int, b as int);
            assert(u[u.len() - 1] == s@[b - 1]);
            assert(u.drop_last() =~= s@.subrange(a as int, b as int - 1));
        }
        b = b - 1;
    }
    proof {
        assert(spec_trim_end(s@.subrange(a as int, b as int)) == s@.subrange(a as int, b as int));
        assert(s@.subrange(a as int, n as int) =~= s@.skip(a as int));
    }
    s.substring_char(a, b)
}

/// Whether `p` is a prefix of `s`.
pub open spec fn spec_starts_with(s: Seq<char>, p: Seq<char>) -> bool {
    p.len() <= s.len() && s.take(p.len() as int) == p
}

/// Whether the characters of `p` occur in `s` starting at `off`.
fn matches_at(s: &str, p: &str, off: usize) -> (r: bool)
    requires
        off + p@.len() <= s@.len(),
    ensures
        r == (s@.subrange(off as int, off + p@.len()) == p@),
{
    let n = s.unicode_len();
    let m = p.unicode_len();
    let mut i: usize = 0;
    while i < m
        invariant
            n == s@.len(),
            m == p@.len(),
            off + m <= s@.len(),
            i <= m,
            forall|k: int| 0 <= k < i ==> s@[off + k] == p@[k],
        decreases m - i,
    {
        if s.get_char(off + i) != p.get_char(i) {
            proof {
                assert(s@.subrange(off as int, off + p@.len())[i as int] == s@[off + i]);
            }
            return false;
        }
        i = i + 1;
    }
    proof {
        assert(s@.subrange(off as int, off + p@.len()) =~= p@);
    }
    true
}

/// Whether `s` starts with `p`, like `str::starts_with`.
pub fn starts_with(s: &str, p: &str) -> (r: bool)
    ensures
        r == spec_starts_with(s@, p@),
{
    let n = s.unicode_len();
    let m = p.unicode_len();
    if m > n {
        return false;
    }
    proof {
        assert(s@.subrange(0, p@.len() as int) =~= s@.take(p@.len() as int));
    }
    matches_at(s, p, 0)
}

/// Whether `needle` occurs somewhere in `s`.
pub open spec fn spec_contains(s: Seq<char>, needle: Seq<char>) -> bool {
    exists|i: int|
        0 <= i <= s.len() - needle.len() && #[trigger] s.subrange(i, i + needle.len()) == needle
}

/// Substring search, like `str::contains`.
pub fn contains_sub(s: &str, needle: &str) -> (r: bool)
    ensures
        r == spec_contains(s@, needle@),
{
    let n = s.unicode_len();
    let m = needle.unicode_len();
    if m > n {
        return false;
    }
    if m == 0 {
        proof {
            assert(s@.subrange(0, 0 + needle@.len() as int) =~= needle@);
        }
        return true;
    }
    let mut i: usize = 0;
    while i <= n - m
        invariant
            n == s@.len(),
            m == needle@.len(),
            0 < m <= n,
            i <= n - m + 1,
            forall|j: int| 0 <= j < i ==> #[trigger] s@.subrange(j, j + needle@.len()) != needle@,
        decreases n - i,
    {
        if matches_at(s, needle, i) {
            return true;
        }
        i = i + 1;
    }
    false
}

/// The sequence with every trailing copy of `suf` removed.
pub open spec fn spec_strip_suffix_all(s: Seq<char>, suf: Seq<char>) -> Seq<char>
    decreases s.len(),
{
    if suf.len() > 0 && s.len() >= suf.len() && s.subrange(s.len() - suf.len(), s.len() as int)
        == suf {
        spec_strip_suffix_all(s.take(s.len() - suf.len()), suf)
    } else {
        s
    }
}

/// Removes every trailing copy of `suf`, like `str::trim_end_matches`
/// with a nonempty pattern.
pub fn strip_suffix_all<'a>(s: &'a str, suf: &str) -> (r: &'a str)
    requires
        suf@.len() > 0,
    ensures
        r@ == spec_strip_suffix_all(s@, suf@),
{
    let m = suf.unicode_len();
    let mut end = s.unicode_len();
    proof {
        assert(s@.take(s@.len() as int) =~= s@);
    }
    loop
        invariant
            m == suf@.len(),
            m > 0,
            end <= s@.len(),
            spec_strip_suffix_all(s@.take(end as int), suf@) == spec_strip_suffix_all(s@, suf@),
        decreases end,
    {
        if end >= m && matches_at(s, suf, end - m) {
            proof {
                let u = s@.take(end as int);
                assert(u.subrange(u.len() - suf@.len(), u.len() as int) =~= s@.subrange(
                    end - m,
                    end as int,
                ));
                assert(u.take(u.len() - suf@.len()) =~= s@.take(end - m));
            }
            end = end - m;
        } else {
            proof {
                let u = s@.take(end as int);
                if end >= m {
                    assert(u.subrange(u.len() - suf@.len(), u.len() as int) =~= s@.subrange(
                        end - m,
                        end as int,
                    ));
                }
                assert(spec_strip_suffix_all(u, suf@) == u);
            }
            return s.substring_char(0, end);
        }
    }
}

/// Length of the maximal run of non-whitespace characters at the front.
pub open spec fn spec_token_len(s: Seq<char>) -> int
    decreases s.len(),
{
    if s.len() > 0 && !is_space(s[0]) {
        1 + spec_token_len(s.drop_first())
    } else {
        0
    }
}

pub proof fn lemma_token_len_bounds(s: Seq<char>)
    ensures
        0 <= spec_token_len(s) <= s.len(),
    decreases s.len(),
{
    if s.len() > 0 && !is_space(s[0]) {
        lemma_token_len_bounds(s.drop_first());
    }
}

/// The token length is exactly the first whitespace position (or the end).
pub proof fn lemma_token_len_eq(s: Seq<char>, t: int)
    requires
        0 <= t <= s.len(),
        forall|k: int| 0 <= k < t ==> !is_space(s[k]),
        t == s.len() || is_space(s[t]),
    ensures
        spec_token_len(s) == t,
    decreases t,
{
    if t == 0 {
    } else {
        assert(!is_space(s[0]));
        assert forall|k: int| 0 <= k < t - 1 implies !is_space(s.drop_first()[k]) by {
            assert(s.drop_first()[k] == s[k + 1]);
        }
        if t < s.len() {
            assert(s.drop_first()[t - 1] == s[t]);
        }
        lemma_token_len_eq(s.drop_first(), t - 1);
    }
}

/// The whitespace-delimited tokens of `s`, in order.
pub open spec fn spec_split_ws(s: Seq<char>) -> Seq<Seq<char>>
    decreases s.len(),
    via spec_split_ws_decreases
{
    if s.len() == 0 {
        Seq::empty()
    } else if is_space(s[0]) {
        spec_split_ws(s.drop_first())
    } else {
        seq![s.take(spec_token_len(s))] + spec_split_ws(s.skip(spec_token_len(s)))
    }
}

#[via_fn]
proof fn spec_split_ws_decreases(s: Seq<char>) {
    if s.len() > 0 && !is_space(s[0]) {
        lemma_token_len_bounds(s.drop_first());
        assert(spec_token_len(s) == 1 + spec_token_len(s.drop_first()));
    }
}

/// Splits on runs of whitespace, like `str::split_whitespace`.
pub fn split_ws(s: &str) -> (r: Vec<String>)
    ensures
        r.deep_view() == spec_split_ws(s@),
{
    let n = s.unicode_len();
    let mut out: Vec<String> = Vec::new();
    let mut i: usize = 0;
    proof {
        assert(s@.skip(0) =~= s@);
        assert(out.deep_view() + spec_split_ws(s@) =~= spec_split_ws(s@));
    }
    while i < n
        invariant
            n == s@.len(),
            i <= n,
            out.deep_view() + spec_split_ws(s@.skip(i as int)) == spec_split_ws(s@),
        decreases n - i,
    {
        if is_space_char(s.get_char(i)) {
            proof {
                assert(s@.skip(i as int)[0] == s@[i as int]);
                assert(s@.skip(i as int).drop_first() =~= s@.skip(i as int + 1));
            }
            i = i + 1;
        } else {
            let start = i;
            let mut j = i + 1;
            while j < n && !is_space_char(s.get_char(j))
                invariant
                    n == s@.len(),
                    start < j <= n,
                    forall|k: int| start <= k < j ==> !is_space(s@[k]),
                decreases n - j,
            {
                j = j + 1;
            }
            let tok = s.substring_char(start, j);
            proof {
                let u = s@.skip(start as int);
                assert forall|k: int| 0 <= k < j - start implies !is_space(u[k]) by {
                    assert(u[k] == s@[start + k]);
                }
                if j < n {
                    assert(u[j - start] == s@[j as int]);
                }
                lemma_token_len_eq(u, j - start);
                assert(u.take(j - start) =~= s@.subrange(start as int, j as int));
                assert(u.skip(j - start) =~= s@.skip(j as int));
                assert(spec_split_ws(u) == seq![tok@] + spec_split_ws(s@.skip(j as int)));
            }
            let ghost pre = out.deep_view();
            out.push(String::from_str(tok));
            proof {
                assert(out.deep_view() =~= pre + seq![tok@]);
                assert(out.deep_view() + spec_split_ws(s@.skip(j as int)) =~= spec_split_ws(s@));
            }
            i = j;
        }
    }
    proof {
        assert(s@.skip(n as int) =~= Seq::<char>::empty());
        assert(out.deep_view() + spec_split_ws(s@.skip(n as int)) =~= out.deep_view());
    }
    out
}

/// `s` with every non-overlapping occurrence of `from` (scanned left to
/// right) replaced by `to`; `from` must be nonempty.
pub open spec fn spec_replace(s: Seq<char>, from: Seq<char>, to: Seq<char>) -> Seq<char>
    decreases s.len(),
{
    if from.len() == 0 || s.len() < from.len() {
        s
    } else if s.take(from.len() as int) == from {
        to + spec_replace(s.skip(from.len() as int), from, to)
    } else {
        seq![s[0]] + spec_replace(s.drop_first(), from, to)
    }
}

/// Replaces every occurrence of `from` by `to`, like `str::replace`.
pub fn replace(s: &str, from: &str, to: &str) -> (r: String)
    requires
        from@.len() > 0,
    ensures
        r@ == spec_replace(s@, from@, to@),
{
    let n = s.unicode_len();
    let m = from.unicode_len();
    let mut out = String::new();
    let mut i: usize = 0;
    proof {
        assert(s@.skip(0) =~= s@);
    }
    while i < n
        invariant
            n == s@.len(),
            m == from@.len(),
            m > 0,
            i <= n,
            out@ + spec_replace(s@.skip(i as int), from@, to@) == spec_replace(s@, from@, to@),
        decreases n - i,
    {
        let u_len = n - i;
        if m <= u_len && matches_at(s, from, i) {
            proof {
                let u = s@.skip(i as int);
                assert(u.take(from@.len() as int) =~= s@.subrange(i as int, i + from@.len()));
                assert(u.skip(from@.len() as int) =~= s@.skip(i + m));
            }
            out.append(to);
            i = i + m;
        } else {
            let c = s.substring_char(i, i + 1);
            proof {
                let u = s@.skip(i as int);
                if m <= u_len {
                    assert(u.take(from@.len() as int) =~= s@.subrange(i as int, i + from@.len()));
                }
                assert(u[0] == s@[i as int]);
                assert(u.drop_first() =~= s@.skip(i as int + 1));
                assert(c@ =~= seq![s@[i as int]]);
            }
            out.append(c);
            i = i + 1;
        }
    }
    proof {
        assert(s@.skip(n as int) =~= Seq::<char>::empty());
    }
    out
}

/// All the pieces joined in order.
pub open spec fn spec_concat_all(ts: Seq<Seq<char>>) -> Seq<char>
    decreases ts.len(),
{
    if ts.len() == 0 {
        Seq::empty()
    } else {
        ts[0] + spec_concat_all(ts.drop_first())
    }
}

/// Joins all the pieces in order into one string.
pub fn concat_all(ts: &Vec<String>) -> (r: String)
    ensures
        r@ == spec_concat_all(ts.deep_view()),
{
    let mut out = String::new();
    let mut i: usize = 0;
    proof {
        assert(ts.deep_view().skip(0) =~= ts.deep_view());
    }
    while i < ts.len()
        invariant
            i <= ts.len(),
            out@ + spec_concat_all(ts.deep_view().skip(i as int)) == spec_concat_all(
                ts.deep_view(),
            ),
        decreases ts.len() - i,
    {
        proof {
            let d = ts.deep_view();
            assert(d.skip(i as int)[0] == d[i as int]);
            assert(d.skip(i as int).drop_first() =~= d.skip(i as int + 1));
        }
        out.append(ts[i].as_str());
        i = i + 1;
    }
    proof {
        assert(ts.deep_view().skip(ts.len() as int) =~= Seq::<Seq<char>>::empty());
    }
    out
}

/// The first piece whose trimmed form is nonempty, trimmed; `None` if
/// every piece is blank.
pub open spec fn spec_first_nonempty_trimmed(ts: Seq<Seq<char>>) -> Option<Seq<char>>
    decreases ts.len(),
{
    if ts.len() == 0 {
        None
    } else if spec_trim(ts[0]).len() > 0 {
        Some(spec_trim(ts[0]))
    } else {
        spec_first_nonempty_trimmed(ts.drop_first())
    }
}

/// Finds the first piece that is more than whitespace and trims it.
pub fn first_nonempty_trimmed(ts: &Vec<String>) -> (r: Option<String>)
    ensures
        r.deep_view() == spec_first_nonempty_trimmed(ts.deep_view()),
{
    let mut i: usize = 0;
    proof {
        assert(ts.deep_view().skip(0) =~= ts.deep_view());
    }
    while i < ts.len()
        invariant
            i <= ts.len(),
            spec_first_nonempty_trimmed(ts.deep_view().skip(i as int))
                == spec_first_nonempty_trimmed(ts.deep_view()),
        decreases ts.len() - i,
    {
        proof {
            let d = ts.deep_view();
            assert(d.skip(i as int)[0] == d[i as int]);
            assert(d.skip(i as int).drop_first() =~= d.skip(i as int + 1));
        }
        let t = trim(ts[i].as_str());
        if t.unicode_len() > 0 {
            return Some(String::from_str(t));
        }
        i = i + 1;
    }
    proof {
        assert(ts.deep_view().skip(ts.len() as int) =~= Seq::<Seq<char>>::empty());
    }
    None
}


/// Character-for-character string equality.
pub fn str_eq(a: &str, b: &str) -> (r: bool)
    ensures
        r == (a@ == b@),
{
    let n = a.unicode_len();
    if n != b.unicode_len() {
        return false;
    }
    let r = starts_with(a, b);
    proof {
        assert(a@.take(b@.len() as int) =~= a@);
    }
    r
}


} // verus!
