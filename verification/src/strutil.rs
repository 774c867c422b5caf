//! Verified string utilities used across the crate: equality, substring
//! search, splitting and joining on a separator, trimming, prefix stripping
//! and ASCII-case-insensitive comparison.
//!
//! All contracts are stated over the `Seq<char>` views of the inputs.

use vstd::prelude::*;
use vstd::string::*;

verus! {

/// Character-for-character equality of two string slices.
pub fn str_eq(a: &str, b: &str) -> (r: bool)
    ensures
        r == (a@ == b@),
{
    let alen = a.unicode_len();
    let blen = b.unicode_len();
    if alen != blen {
        return false;
    }
    let mut i: usize = 0;
    while i < alen
        invariant
            0 <= i <= alen,
            alen == a@.len(),
            alen == b@.len(),
            forall|j: int| 0 <= j < i ==> a@[j] == b@[j],
        decreases alen - i,
    {
        if a.get_char(i) != b.get_char(i) {
            return false;
        }
        i += 1;
    }
    proof {
        assert(a@ =~= b@);
    }
    true
}

/// The needle occurs in the haystack starting at position `i`.
pub open spec fn contains_seq_at(hay: Seq<char>, needle: Seq<char>, i: int) -> bool {
    0 <= i && i + needle.len() <= hay.len() && hay.subrange(i, i + needle.len()) == needle
}

/// The needle occurs somewhere in the haystack.
pub open spec fn contains_seq(hay: Seq<char>, needle: Seq<char>) -> bool {
    exists|i: int| contains_seq_at(hay, needle, i)
}

/// Does the needle occur at position `i` of the haystack?
fn matches_at(hay: &str, needle: &str, i: usize) -> (r: bool)
    requires
        i + needle@.len() <= hay@.len(),
    ensures
        r == contains_seq_at(hay@, needle@, i as int),
{
    let hlen = hay.unicode_len();
    let nlen = needle.unicode_len();
    let mut j: usize = 0;
    while j < nlen
        invariant
            0 <= j <= nlen,
            nlen == needle@.len(),
            hlen == hay@.len(),
            i + nlen <= hlen,
            forall|k: int| 0 <= k < j ==> hay@[i + k] == needle@[k],
        decreases nlen - j,
    {
        if hay.get_char(i + j) != needle.get_char(j) {
            assert(!contains_seq_at(hay@, needle@, i as int)) by {
                if contains_seq_at(hay@, needle@, i as int) {
                    assert(hay@.subrange(i as int, i + needle@.len())[j as int] == needle@[j as int]);
                }
            }
            return false;
        }
        j += 1;
    }
    proof {
        assert(hay@.subrange(i as int, i + needle@.len()) =~= needle@);
    }
    true
}

/// Substring search: does `needle` occur anywhere in `hay`?
pub fn contains_sub(hay: &str, needle: &str) -> (r: bool)
    ensures
        r == contains_seq(hay@, needle@),
{
    let hlen = hay.unicode_len();
    let nlen = needle.unicode_len();
    if nlen > hlen {
        assert(!contains_seq(hay@, needle@)) by {
            if contains_seq(hay@, needle@) {
                let i = choose|i: int| contains_seq_at(hay@, needle@, i);
            }
        }
        return false;
    }
    if nlen == 0 {
        proof {
            assert(hay@.subrange(0, 0) =~= needle@);
            assert(contains_seq_at(hay@, needle@, 0));
        }
        return true;
    }
    let mut i: usize = 0;
    while i <= hlen - nlen
        invariant
            0 <= i,
            1 <= nlen <= hlen,
            hlen == hay@.len(),
            nlen == needle@.len(),
            forall|k: int| 0 <= k < i ==> !contains_seq_at(hay@, needle@, k),
        decreases hlen - i,
    {
        if matches_at(hay, needle, i) {
            return true;
        }
        i += 1;
    }
    assert(!contains_seq(hay@, needle@)) by {
        if contains_seq(hay@, needle@) {
            let k = choose|k: int| contains_seq_at(hay@, needle@, k);
            assert(k < i);
        }
    }
    false
}

/// Joining a sequence of parts with a separator sequence between
/// consecutive parts.
pub open spec fn spec_join(parts: Seq<Seq<char>>, sep: Seq<char>) -> Seq<char>
    decreases parts.len(),
{
    if parts.len() == 0 {
        Seq::empty()
    } else if parts.len() == 1 {
        parts[0]
    } else {
        parts[0] + sep + spec_join(parts.drop_first(), sep)
    }
}

/// Split `s` at every occurrence of the character `sep`.
///
/// The result is pinned down exactly: the parts joined with `sep` give back
/// `s`, and no part contains `sep` — there is only one such decomposition.
pub fn split_on(s: &str, sep: char) -> (r: Vec<String>)
    ensures
        r@.len() >= 1,
        spec_join(r.deep_view(), seq![sep]) == s@,
        forall|i: int| 0 <= i < r@.len() ==> !r.deep_view()[i].contains(sep),
{
    let slen = s.unicode_len();
    let mut parts: Vec<String> = Vec::new();
    let mut start: usize = 0;
    let mut i: usize = 0;
    while i < slen
        invariant
            0 <= start <= i <= slen,
            slen == s@.len(),
            forall|k: int| start <= k < i ==> s@[k] != sep,
            forall|p: int| 0 <= p < parts@.len() ==> !parts.deep_view()[p].contains(sep),
            spec_join(parts.deep_view().push(s@.subrange(start as int, s@.len() as int)), seq![sep])
                == s@,
        decreases slen - i,
    {
        if s.get_char(i) == sep {
            let ghost old_parts = parts.deep_view();
            let part = s.substring_char(start, i).to_owned();
            parts.push(part);
            proof {
                assert(parts.deep_view() =~= old_parts.push(part@));
                assert(!part@.contains(sep)) by {
                    if part@.contains(sep) {
                        let k = choose|k: int| 0 <= k < part@.len() && part@[k] == sep;
                        assert(s@[start + k] == sep);
                    }
                }
                assert(part@ + seq![sep] + s@.subrange(i + 1, s@.len() as int)
                    =~= s@.subrange(start as int, s@.len() as int));
                lemma_join_push_split(old_parts, part@, s@.subrange(i + 1, s@.len() as int),
                    seq![sep], s@.subrange(start as int, s@.len() as int));
            }
            start = i + 1;
        }
        i += 1;
    }
    let ghost old_parts = parts.deep_view();
    let last = s.substring_char(start, slen).to_owned();
    parts.push(last);
    proof {
        assert(parts.deep_view() =~= old_parts.push(last@));
        assert(!last@.contains(sep)) by {
            if last@.contains(sep) {
                let k = choose|k: int| 0 <= k < last@.len() && last@[k] == sep;
                assert(s@[start + k] == sep);
            }
        }
    }
    parts
}

/// Helper for `split_on`: extending the accumulated parts by one completed
/// part keeps the join equation, provided the tail decomposes accordingly.
proof fn lemma_join_push_split(
    parts: Seq<Seq<char>>,
    part: Seq<char>,
    rest: Seq<char>,
    sep: Seq<char>,
    tail: Seq<char>,
)
    requires
        part + sep + rest == tail,
    ensures
        spec_join(parts.push(part).push(rest), sep) == spec_join(parts.push(tail), sep),
    decreases parts.len(),
{
    if parts.len() == 0 {
        assert(parts.push(part).push(rest).drop_first() =~= seq![rest]);
        assert(parts.push(part).push(rest)[0] == part);
        assert(seq![rest][0] == rest);
        assert(spec_join(seq![rest], sep) == rest);
        assert(spec_join(parts.push(part).push(rest), sep) == part + sep + rest);
        assert(parts.push(tail)[0] == tail);
        assert(spec_join(parts.push(tail), sep) == tail);
    } else {
        assert(parts.push(part).push(rest).drop_first()
            =~= parts.drop_first().push(part).push(rest));
        assert(parts.push(tail).drop_first() =~= parts.drop_first().push(tail));
        lemma_join_push_split(parts.drop_first(), part, rest, sep, tail);
        assert(parts.push(part).push(rest)[0] == parts[0]);
        assert(parts.push(tail)[0] == parts[0]);
        assert(parts.push(tail).len() >= 2);
        assert(parts.push(part).push(rest).len() >= 2);
    }
}

/// Join the parts with the separator string between consecutive parts.
pub fn join_with(parts: &Vec<String>, sep: &str) -> (r: String)
    ensures
        r@ == spec_join(parts.deep_view(), sep@),
{
    let mut out = String::new();
    let n = parts.len();
    if n == 0 {
        return out;
    }
    let mut i: usize = 0;
    while i < n
        invariant
            0 < i <= n || (i == 0 && out@ =~= Seq::<char>::empty()),
            n == parts@.len(),
            i > 0 ==> out@ == spec_join(parts.deep_view().subrange(0, i as int), sep@),
        decreases n - i,
    {
        if i > 0 {
            out.append(sep);
        }
        out.append(parts[i].as_str());
        proof {
            lemma_join_take_one_more(parts.deep_view(), sep@, i as int);
        }
        i += 1;
    }
    proof {
        assert(parts.deep_view().subrange(0, n as int) =~= parts.deep_view());
    }
    out
}

/// Helper for `join_with`: the join of one more part appends separator and
/// part (or just the part, for the first one).
proof fn lemma_join_take_one_more(parts: Seq<Seq<char>>, sep: Seq<char>, i: int)
    requires
        0 <= i < parts.len(),
    ensures
        i == 0 ==> spec_join(parts.subrange(0, 1), sep) == parts[0],
        i > 0 ==> spec_join(parts.subrange(0, i + 1), sep)
            == spec_join(parts.subrange(0, i), sep) + sep + parts[i],
    decreases i,
{
    if i == 0 {
        assert(parts.subrange(0, 1) =~= seq![parts[0]]);
    } else if i == 1 {
        let s2 = parts.subrange(0, 2);
        assert(s2.len() == 2);
        assert(s2[0] == parts[0]);
        assert(s2.drop_first() =~= seq![parts[1]]);
        assert(seq![parts[1]][0] == parts[1]);
        assert(spec_join(seq![parts[1]], sep) == parts[1]);
        assert(spec_join(s2, sep) == parts[0] + sep + parts[1]);
        assert(parts.subrange(0, 1) =~= seq![parts[0]]);
        assert(seq![parts[0]][0] == parts[0]);
        assert(spec_join(parts.subrange(0, 1), sep) == parts[0]);
    } else {
        lemma_join_take_one_more(parts.drop_first(), sep, i - 1);
        assert(parts.subrange(0, i + 1).drop_first() =~= parts.drop_first().subrange(0, i));
        assert(parts.subrange(0, i).drop_first() =~= parts.drop_first().subrange(0, i - 1));
        assert(parts.subrange(0, i + 1)[0] == parts[0]);
        assert(parts.subrange(0, i)[0] == parts[0]);
        assert(parts.drop_first()[i - 1] == parts[i]);
        let x = spec_join(parts.drop_first().subrange(0, i - 1), sep);
        assert(spec_join(parts.drop_first().subrange(0, i), sep) == x + sep + parts[i]);
        assert(spec_join(parts.subrange(0, i + 1), sep)
            == parts[0] + sep + (x + sep + parts[i]));
        assert(spec_join(parts.subrange(0, i), sep) == parts[0] + sep + x);
        assert(parts[0] + sep + (x + sep + parts[i]) =~= (parts[0] + sep + x) + sep + parts[i]);
    }
}

/// Strip `prefix` from the front of `s`, returning the remainder when `s`
/// starts with `prefix` and `None` otherwise.
pub fn strip_prefix_str(s: &str, prefix: &str) -> (r: Option<String>)
    ensures
        match r {
            Some(rest) => prefix@.len() <= s@.len() && s@.subrange(0, prefix@.len() as int)
                == prefix@ && rest@ == s@.subrange(prefix@.len() as int, s@.len() as int),
            None => !(prefix@.len() <= s@.len() && s@.subrange(0, prefix@.len() as int)
                == prefix@),
        },
{
    let slen = s.unicode_len();
    let plen = prefix.unicode_len();
    if plen > slen {
        return None;
    }
    if matches_at(s, prefix, 0) {
        let rest = s.substring_char(plen, slen).to_owned();
        Some(rest)
    } else {
        None
    }
}

/// Is `c` an ASCII whitespace character?
pub open spec fn is_space_char(c: char) -> bool {
    c == ' ' || c == '\t' || c == '\r' || c == '\n'
}

fn is_space(c: char) -> (r: bool)
    ensures
        r == is_space_char(c),
{
    c == ' ' || c == '\t' || c == '\r' || c == '\n'
}

/// Number of leading ASCII whitespace characters of `s`.
pub open spec fn leading_spaces(s: Seq<char>) -> int
    decreases s.len(),
{
    if s.len() == 0 || !is_space_char(s[0]) {
        0
    } else {
        1 + leading_spaces(s.drop_first())
    }
}

/// Number of trailing ASCII whitespace characters of `s`.
pub open spec fn trailing_spaces(s: Seq<char>) -> int
    decreases s.len(),
{
    if s.len() == 0 || !is_space_char(s.last()) {
        0
    } else {
        1 + trailing_spaces(s.drop_last())
    }
}

/// `s` with leading and trailing ASCII whitespace removed.
pub open spec fn spec_trim_spaces(s: Seq<char>) -> Seq<char> {
    let a = leading_spaces(s);
    let rest = s.skip(a);
    rest.take(rest.len() - trailing_spaces(rest))
}

/// A scan that stops at the first non-whitespace character finds exactly
/// `leading_spaces`.
proof fn lemma_leading_spaces_from_scan(s: Seq<char>, a: int)
    requires
        0 <= a <= s.len(),
        forall|j: int| 0 <= j < a ==> is_space_char(s[j]),
        a == s.len() || !is_space_char(s[a]),
    ensures
        leading_spaces(s) == a,
    decreases a,
{
    if a != 0 {
        assert(is_space_char(s[0]));
        lemma_leading_spaces_from_scan(s.drop_first(), a - 1);
    }
}

/// The mirror image of `lemma_leading_spaces_from_scan` for the tail.
proof fn lemma_trailing_spaces_from_scan(s: Seq<char>, b: int)
    requires
        0 <= b <= s.len(),
        forall|j: int| b <= j < s.len() ==> is_space_char(s[j]),
        b == 0 || !is_space_char(s[b - 1]),
    ensures
        trailing_spaces(s) == s.len() - b,
    decreases s.len() - b,
{
    if b != s.len() {
        assert(is_space_char(s.last()));
        lemma_trailing_spaces_from_scan(s.drop_last(), b);
    }
}

/// `s` with leading and trailing ASCII whitespace removed.
pub fn trim_spaces(s: &str) -> (r: String)
    ensures
        r@ == spec_trim_spaces(s@),
{
    let slen = s.unicode_len();
    let mut a: usize = 0;
    while a < slen && is_space(s.get_char(a))
        invariant
            0 <= a <= slen,
            slen == s@.len(),
            forall|j: int| 0 <= j < a ==> is_space_char(s@[j]),
        decreases slen - a,
    {
        a += 1;
    }
    proof {
        lemma_leading_spaces_from_scan(s@, a as int);
    }
    let mut b: usize = slen;
    while b > a && is_space(s.get_char(b - 1))
        invariant
            a <= b <= slen,
            slen == s@.len(),
            forall|j: int| b <= j < slen ==> is_space_char(s@[j]),
        decreases b,
    {
        b -= 1;
    }
    proof {
        let rest = s@.skip(a as int);
        assert(forall|j: int| b - a <= j < rest.len() ==> is_space_char(rest[j]));
        assert(b - a == 0 || !is_space_char(rest[b - a - 1])) by {
            if b > a {
                assert(rest[b - a - 1] == s@[b - 1]);
            }
        }
        lemma_trailing_spaces_from_scan(rest, b - a);
        assert(s@.subrange(a as int, b as int) =~= spec_trim_spaces(s@));
    }
    s.substring_char(a, b).to_owned()
}

/// Number of leading occurrences of `c` in `s`.
pub open spec fn leading_matching(s: Seq<char>, c: char) -> int
    decreases s.len(),
{
    if s.len() == 0 || s[0] != c {
        0
    } else {
        1 + leading_matching(s.drop_first(), c)
    }
}

/// Number of trailing occurrences of `c` in `s`.
pub open spec fn trailing_matching(s: Seq<char>, c: char) -> int
    decreases s.len(),
{
    if s.len() == 0 || s.last() != c {
        0
    } else {
        1 + trailing_matching(s.drop_last(), c)
    }
}

/// `s` with every leading and trailing occurrence of `c` removed.
pub open spec fn spec_trim_matching(s: Seq<char>, c: char) -> Seq<char> {
    let a = leading_matching(s, c);
    let rest = s.skip(a);
    rest.take(rest.len() - trailing_matching(rest, c))
}

proof fn lemma_leading_matching_from_scan(s: Seq<char>, c: char, a: int)
    requires
        0 <= a <= s.len(),
        forall|j: int| 0 <= j < a ==> s[j] == c,
        a == s.len() || s[a] != c,
    ensures
        leading_matching(s, c) == a,
    decreases a,
{
    if a != 0 {
        lemma_leading_matching_from_scan(s.drop_first(), c, a - 1);
    }
}

proof fn lemma_trailing_matching_from_scan(s: Seq<char>, c: char, b: int)
    requires
        0 <= b <= s.len(),
        forall|j: int| b <= j < s.len() ==> s[j] == c,
        b == 0 || s[b - 1] != c,
    ensures
        trailing_matching(s, c) == s.len() - b,
    decreases s.len() - b,
{
    if b != s.len() {
        lemma_trailing_matching_from_scan(s.drop_last(), c, b);
    }
}

/// `s` with every leading and trailing occurrence of `c` removed.
pub fn trim_matching(s: &str, c: char) -> (r: String)
    ensures
        r@ == spec_trim_matching(s@, c),
{
    let slen = s.unicode_len();
    let mut a: usize = 0;
    while a < slen && s.get_char(a) == c
        invariant
            0 <= a <= slen,
            slen == s@.len(),
            forall|j: int| 0 <= j < a ==> s@[j] == c,
        decreases slen - a,
    {
        a += 1;
    }
    proof {
        lemma_leading_matching_from_scan(s@, c, a as int);
    }
    let mut b: usize = slen;
    while b > a && s.get_char(b - 1) == c
        invariant
            a <= b <= slen,
            slen == s@.len(),
            forall|j: int| b <= j < slen ==> s@[j] == c,
        decreases b,
    {
        b -= 1;
    }
    proof {
        let rest = s@.skip(a as int);
        assert(forall|j: int| b - a <= j < rest.len() ==> rest[j] == c);
        assert(b - a == 0 || rest[b - a - 1] != c) by {
            if b > a {
                assert(rest[b - a - 1] == s@[b - 1]);
            }
        }
        lemma_trailing_matching_from_scan(rest, c, b - a);
        assert(s@.subrange(a as int, b as int) =~= spec_trim_matching(s@, c));
    }
    s.substring_char(a, b).to_owned()
}

/// The first `n` characters of `s` (all of `s` when it is shorter).
pub fn truncate_chars(s: &str, n: usize) -> (r: String)
    ensures
        r@ == s@.take(if n <= s@.len() { n as int } else { s@.len() as int }),
{
    let slen = s.unicode_len();
    let end = if n <= slen {
        n
    } else {
        slen
    };
    proof {
        assert(s@.subrange(0, end as int) =~= s@.take(end as int));
    }
    s.substring_char(0, end).to_owned()
}

/// ASCII-case-insensitive equality of two characters.
pub open spec fn chars_eq_ci(a: char, b: char) -> bool {
    ||| a == b
    ||| (65 <= a as u32 <= 90 && a as u32 + 32 == b as u32)
    ||| (65 <= b as u32 <= 90 && b as u32 + 32 == a as u32)
}

/// ASCII-case-insensitive equality of two character sequences.
pub open spec fn seq_eq_ci(a: Seq<char>, b: Seq<char>) -> bool {
    a.len() == b.len() && forall|i: int| 0 <= i < a.len() ==> chars_eq_ci(a[i], b[i])
}

/// ASCII-case-insensitive equality of two string slices.
pub fn str_eq_ci(a: &str, b: &str) -> (r: bool)
    ensures
        r == seq_eq_ci(a@, b@),
{
    let alen = a.unicode_len();
    let blen = b.unicode_len();
    if alen != blen {
        return false;
    }
    let mut i: usize = 0;
    while i < alen
        invariant
            0 <= i <= alen,
            alen == a@.len(),
            alen == b@.len(),
            forall|j: int| 0 <= j < i ==> chars_eq_ci(a@[j], b@[j]),
        decreases alen - i,
    {
        let ca = a.get_char(i) as u32;
        let cb = b.get_char(i) as u32;
        let same = ca == cb || (65 <= ca && ca <= 90 && ca + 32 == cb) || (65 <= cb && cb <= 90
            && cb + 32 == ca);
        if !same {
            return false;
        }
        i += 1;
    }
    true
}

} // verus!
