//! Verified text utilities: splitting, trimming, searching, joining and
//! decimal parsing over character sequences.
//!
//! Each executable function is specified against a spec-level model on
//! `Seq<char>`; the lemmas relate those models under concatenation, which the
//! protocol round-trip proofs rely on.

use vstd::prelude::*;

verus! {

use vstd::string::StringSliceAdditionalSpecFns;
use vstd::utf8::{valid_utf8, decode_utf8};

/// Relies on `String::from_utf8`: it succeeds exactly on valid UTF-8 and
/// returns the string those bytes decode to.
#[verifier::external_body]
pub(crate) fn string_from_utf8(b: Vec<u8>) -> (r: Option<String>)
    ensures
        r is Some <==> valid_utf8(b@),
        r is Some ==> r->Some_0@ == decode_utf8(b@),
{
    String::from_utf8(b).ok()
}

/// The segments of `s` between occurrences of `sep`.
///
/// There is always at least one segment; a separator at either end or two
/// adjacent separators yield empty segments, as `str::split` does.
pub open spec fn split_on(s: Seq<char>, sep: char) -> Seq<Seq<char>>
    decreases s.len(),
{
    if s.len() == 0 {
        seq![Seq::<char>::empty()]
    } else if s.last() == sep {
        split_on(s.drop_last(), sep).push(Seq::<char>::empty())
    } else {
        let p = split_on(s.drop_last(), sep);
        p.update(p.len() - 1, p.last().push(s.last()))
    }
}

/// Splitting yields at least one segment.
pub proof fn lemma_split_on_len(s: Seq<char>, sep: char)
    ensures
        split_on(s, sep).len() >= 1,
    decreases s.len(),
{
    if s.len() > 0 {
        lemma_split_on_len(s.drop_last(), sep);
    }
}

/// A sequence without the separator splits into itself alone.
pub proof fn lemma_split_on_no_sep(s: Seq<char>, sep: char)
    requires
        forall|i: int| 0 <= i < s.len() ==> s[i] != sep,
    ensures
        split_on(s, sep) == seq![s],
    decreases s.len(),
{
    if s.len() == 0 {
        assert(split_on(s, sep) =~~= seq![s]);
    } else {
        lemma_split_on_no_sep(s.drop_last(), sep);
        assert(split_on(s, sep) =~~= seq![s]);
    }
}

/// Splitting distributes over a separator between two sequences.
pub proof fn lemma_split_on_concat(s1: Seq<char>, s2: Seq<char>, sep: char)
    ensures
        split_on(s1 + seq![sep] + s2, sep) == split_on(s1, sep) + split_on(s2, sep),
    decreases s2.len(),
{
    let whole = s1 + seq![sep] + s2;
    if s2.len() == 0 {
        assert(whole.drop_last() =~= s1);
        assert(whole.last() == sep);
        assert(split_on(whole, sep) =~~= split_on(s1, sep) + split_on(s2, sep));
    } else {
        lemma_split_on_concat(s1, s2.drop_last(), sep);
        let prev = s1 + seq![sep] + s2.drop_last();
        assert(whole.drop_last() =~= prev);
        assert(whole.last() == s2.last());
        lemma_split_on_len(s1, sep);
        lemma_split_on_len(s2.drop_last(), sep);
        if s2.last() == sep {
            assert(split_on(whole, sep) =~~= split_on(s1, sep) + split_on(s2, sep));
        } else {
            let p = split_on(prev, sep);
            let q = split_on(s2.drop_last(), sep);
            assert(p.last() == q.last());
            assert(split_on(whole, sep) =~~= split_on(s1, sep) + split_on(s2, sep));
        }
    }
}

/// Whether two string slices hold the same characters.
pub fn str_eq(a: &str, b: &str) -> (r: bool)
    ensures
        r == (a@ == b@),
{
    let na = a.unicode_len();
    let nb = b.unicode_len();
    if na != nb {
        return false;
    }
    let mut i: usize = 0;
    while i < na
        invariant
            na == a@.len(),
            na == b@.len(),
            i <= na,
            forall|j: int| 0 <= j < i ==> a@[j] == b@[j],
        decreases na - i,
    {
        if a.get_char(i) != b.get_char(i) {
            return false;
        }
        i = i + 1;
    }
    proof {
        assert(a@ =~= b@);
    }
    true
}

/// The characters of `s` from `from` to `to`, as an owned string.
pub fn substr_string(s: &str, from: usize, to: usize) -> (r: String)
    requires
        from <= to <= s@.len(),
    ensures
        r@ == s@.subrange(from as int, to as int),
{
    s.substring_char(from, to).to_owned()
}

/// Splits `s` at every occurrence of `sep`, as `str::split` does.
pub fn split_on_char(s: &str, sep: char) -> (r: Vec<String>)
    ensures
        r.deep_view() == split_on(s@, sep),
{
    let n = s.unicode_len();
    let mut out: Vec<String> = Vec::new();
    let mut seg_start: usize = 0;
    let mut i: usize = 0;
    proof {
        assert(s@.take(0) =~= Seq::<char>::empty());
        assert(split_on(s@.take(0), sep) =~~= out.deep_view().push(s@.subrange(0, 0)));
    }
    while i < n
        invariant
            n == s@.len(),
            seg_start <= i <= n,
            split_on(s@.take(i as int), sep) == out.deep_view().push(
                s@.subrange(seg_start as int, i as int),
            ),
        decreases n - i,
    {
        let c = s.get_char(i);
        let ghost pre = s@.take(i as int);
        let ghost post = s@.take(i as int + 1);
        proof {
            assert(post.drop_last() =~= pre);
            assert(post.last() == s@[i as int]);
        }
        if c == sep {
            let ghost old_dv = out.deep_view();
            let piece = substr_string(s, seg_start, i);
            out.push(piece);
            seg_start = i + 1;
            proof {
                assert(out.deep_view() =~~= old_dv.push(piece@));
                assert(split_on(post, sep) =~~= out.deep_view().push(
                    s@.subrange(seg_start as int, i as int + 1),
                ));
            }
        } else {
            proof {
                let p = split_on(pre, sep);
                assert(p.len() == out.deep_view().len() + 1);
                assert(p.last() == s@.subrange(seg_start as int, i as int));
                assert(s@.subrange(seg_start as int, i as int).push(s@[i as int]) =~= s@.subrange(
                    seg_start as int,
                    i as int + 1,
                ));
                assert(split_on(post, sep) =~~= out.deep_view().push(
                    s@.subrange(seg_start as int, i as int + 1),
                ));
            }
        }
        i = i + 1;
    }
    let ghost old_dv = out.deep_view();
    let piece = substr_string(s, seg_start, n);
    out.push(piece);
    proof {
        assert(s@.take(n as int) =~= s@);
        assert(out.deep_view() =~~= old_dv.push(piece@));
        assert(out.deep_view() =~~= split_on(s@, sep));
    }
    out
}

/// Whether `c` occurs in `s`.
pub fn contains_char(s: &str, c: char) -> (r: bool)
    ensures
        r == exists|i: int| 0 <= i < s@.len() && s@[i] == c,
{
    let n = s.unicode_len();
    let mut i: usize = 0;
    while i < n
        invariant
            n == s@.len(),
            i <= n,
            forall|j: int| 0 <= j < i ==> s@[j] != c,
        decreases n - i,
    {
        if s.get_char(i) == c {
            return true;
        }
        i = i + 1;
    }
    false
}

/// Whitespace, as the table parsers understand it.
pub open spec fn is_ws(c: char) -> bool {
    c == ' ' || c == '\t' || c == '\r' || c == '\n'
}

/// The maximal whitespace-free words of `s`, in order.
pub open spec fn split_ws(s: Seq<char>) -> Seq<Seq<char>>
    decreases s.len(),
{
    if s.len() == 0 {
        Seq::<Seq<char>>::empty()
    } else if is_ws(s.last()) {
        split_ws(s.drop_last())
    } else if s.len() == 1 || is_ws(s[s.len() - 2]) {
        split_ws(s.drop_last()).push(seq![s.last()])
    } else {
        let p = split_ws(s.drop_last());
        p.update(p.len() - 1, p.last().push(s.last()))
    }
}

/// A sequence ending in a non-whitespace character has at least one word.
pub proof fn lemma_split_ws_len(s: Seq<char>)
    requires
        s.len() > 0,
        !is_ws(s.last()),
    ensures
        split_ws(s).len() >= 1,
    decreases s.len(),
{
    if s.len() > 1 && !is_ws(s[s.len() - 2]) {
        lemma_split_ws_len(s.drop_last());
    }
}

/// Splits `s` into its whitespace-separated words.
pub fn split_whitespace_of(s: &str) -> (r: Vec<String>)
    ensures
        r.deep_view() == split_ws(s@),
{
    let n = s.unicode_len();
    let mut out: Vec<String> = Vec::new();
    let mut word_start: usize = 0;
    let mut in_word: bool = false;
    let mut i: usize = 0;
    proof {
        assert(s@.take(0) =~= Seq::<char>::empty());
        assert(split_ws(s@.take(0)) =~~= out.deep_view());
    }
    while i < n
        invariant
            n == s@.len(),
            i <= n,
            in_word ==> word_start < i,
            in_word ==> forall|j: int| word_start <= j < i ==> !is_ws(s@[j]),
            in_word ==> split_ws(s@.take(i as int)) == out.deep_view().push(
                s@.subrange(word_start as int, i as int),
            ),
            !in_word ==> (i == 0 || is_ws(s@[i as int - 1])),
            !in_word ==> split_ws(s@.take(i as int)) == out.deep_view(),
        decreases n - i,
    {
        let c = s.get_char(i);
        let ghost pre = s@.take(i as int);
        let ghost post = s@.take(i as int + 1);
        proof {
            assert(post.drop_last() =~= pre);
            assert(post.last() == s@[i as int]);
        }
        if c == ' ' || c == '\t' || c == '\r' || c == '\n' {
            if in_word {
                let ghost old_dv = out.deep_view();
                let piece = substr_string(s, word_start, i);
                out.push(piece);
                in_word = false;
                proof {
                    assert(out.deep_view() =~~= old_dv.push(piece@));
                    assert(split_ws(post) =~~= out.deep_view());
                }
            } else {
                proof {
                    assert(split_ws(post) =~~= out.deep_view());
                }
            }
        } else {
            if !in_word {
                word_start = i;
                in_word = true;
                proof {
                    assert(s@.subrange(i as int, i as int + 1) =~= seq![s@[i as int]]);
                    assert(split_ws(post) =~~= out.deep_view().push(
                        s@.subrange(i as int, i as int + 1),
                    ));
                }
            } else {
                proof {
                    let p = split_ws(pre);
                    lemma_split_ws_len(pre);
                    assert(p.last() == s@.subrange(word_start as int, i as int));
                    assert(s@.subrange(word_start as int, i as int).push(s@[i as int])
                        =~= s@.subrange(word_start as int, i as int + 1));
                    assert(split_ws(post) =~~= out.deep_view().push(
                        s@.subrange(word_start as int, i as int + 1),
                    ));
                }
            }
        }
        i = i + 1;
    }
    proof {
        assert(s@.take(n as int) =~= s@);
    }
    if in_word {
        let ghost old_dv = out.deep_view();
        let piece = substr_string(s, word_start, n);
        out.push(piece);
        proof {
            assert(out.deep_view() =~~= old_dv.push(piece@));
        }
    }
    out
}

/// `s` without leading whitespace.
pub open spec fn trim_front(s: Seq<char>) -> Seq<char>
    decreases s.len(),
{
    if s.len() > 0 && is_ws(s[0]) {
        trim_front(s.drop_first())
    } else {
        s
    }
}

/// `s` without trailing whitespace.
pub open spec fn trim_back(s: Seq<char>) -> Seq<char>
    decreases s.len(),
{
    if s.len() > 0 && is_ws(s.last()) {
        trim_back(s.drop_last())
    } else {
        s
    }
}

/// `s` without leading and trailing whitespace.
pub open spec fn spec_trim(s: Seq<char>) -> Seq<char> {
    trim_back(trim_front(s))
}

proof fn lemma_trim_front_skip(s: Seq<char>, a: int)
    requires
        0 <= a <= s.len(),
        forall|j: int| 0 <= j < a ==> is_ws(s[j]),
        a == s.len() || !is_ws(s[a]),
    ensures
        trim_front(s) == s.skip(a),
    decreases a,
{
    if a == 0 {
        assert(s.skip(0) =~= s);
    } else {
        let t = s.drop_first();
        lemma_trim_front_skip(t, a - 1);
        assert(t.skip(a - 1) =~= s.skip(a));
    }
}

proof fn lemma_trim_back_take(s: Seq<char>, b: int)
    requires
        0 <= b <= s.len(),
        forall|j: int| b <= j < s.len() ==> is_ws(s[j]),
        b == 0 || !is_ws(s[b - 1]),
    ensures
        trim_back(s) == s.take(b),
    decreases s.len() - b,
{
    if b == s.len() {
        assert(s.take(b) =~= s);
    } else {
        let t = s.drop_last();
        lemma_trim_back_take(t, b);
        assert(t.take(b) =~= s.take(b));
    }
}

fn first_non_ws(s: &str) -> (a: usize)
    ensures
        a <= s@.len(),
        forall|j: int| 0 <= j < a ==> is_ws(s@[j]),
        a == s@.len() || !is_ws(s@[a as int]),
{
    let n = s.unicode_len();
    let mut a: usize = 0;
    while a < n
        invariant
            n == s@.len(),
            a <= n,
            forall|j: int| 0 <= j < a ==> is_ws(s@[j]),
        decreases n - a,
    {
        let c = s.get_char(a);
        if !(c == ' ' || c == '\t' || c == '\r' || c == '\n') {
            return a;
        }
        a = a + 1;
    }
    a
}

fn scan_back_ws(s: &str, a: usize) -> (b: usize)
    requires
        a <= s@.len(),
    ensures
        a <= b <= s@.len(),
        forall|j: int| b <= j < s@.len() ==> is_ws(s@[j]),
        b == a || !is_ws(s@[b - 1]),
{
    let n = s.unicode_len();
    let mut b: usize = n;
    while b > a
        invariant
            n == s@.len(),
            a <= b <= n,
            forall|j: int| b <= j < n ==> is_ws(s@[j]),
        decreases b,
    {
        let c = s.get_char(b - 1);
        if !(c == ' ' || c == '\t' || c == '\r' || c == '\n') {
            return b;
        }
        b = b - 1;
    }
    b
}

/// Removes leading and trailing whitespace, as `str::trim` does for the
/// whitespace characters the parsers meet.
pub fn trim_of(s: &str) -> (r: String)
    ensures
        r@ == spec_trim(s@),
{
    let n = s.unicode_len();
    let a = first_non_ws(s);
    proof {
        lemma_trim_front_skip(s@, a as int);
    }
    let b = scan_back_ws(s, a);
    let r = substr_string(s, a, b);
    proof {
        let t = s@.skip(a as int);
        if b == a {
            lemma_trim_back_take(t, 0);
        } else {
            lemma_trim_back_take(t, b - a as int);
        }
        assert(t.take(b - a as int) =~= s@.subrange(a as int, b as int));
        assert(t.take(0) =~= s@.subrange(a as int, a as int));
    }
    r
}

/// Whether the characters of `pat` occur in `s` starting at position `i`.
pub open spec fn matches_at(s: Seq<char>, pat: Seq<char>, i: int) -> bool {
    0 <= i && i + pat.len() <= s.len() && s.subrange(i, i + pat.len()) == pat
}

/// The position of the first occurrence of `pat` in `s`, if any.
pub fn find_str(s: &str, pat: &str) -> (r: Option<usize>)
    ensures
        r is Some ==> matches_at(s@, pat@, r->Some_0 as int) && (forall|j: int|
            0 <= j < r->Some_0 ==> !matches_at(s@, pat@, j)),
        r is None ==> forall|j: int| !matches_at(s@, pat@, j),
{
    let n = s.unicode_len();
    let m = pat.unicode_len();
    if m > n {
        return None;
    }
    let mut i: usize = 0;
    while i <= n - m
        invariant
            n == s@.len(),
            m == pat@.len(),
            m <= n,
            i <= n - m + 1,
            forall|j: int| 0 <= j < i ==> !matches_at(s@, pat@, j),
        decreases n - i,
    {
        let mut k: usize = 0;
        let mut hit: bool = true;
        while k < m
            invariant
                n == s@.len(),
                m == pat@.len(),
                m <= n,
                i <= n - m,
                k <= m,
                m == 0 ==> hit,
                hit ==> forall|t: int| 0 <= t < k ==> s@[i + t] == pat@[t],
                !hit ==> !matches_at(s@, pat@, i as int),
            decreases m - k,
        {
            if hit && s.get_char(i + k) != pat.get_char(k) {
                proof {
                    assert(!matches_at(s@, pat@, i as int)) by {
                        if matches_at(s@, pat@, i as int) {
                            assert(s@.subrange(i as int, i + m as int)[k as int] == pat@[k as int]);
                        }
                    }
                }
                hit = false;
            }
            k = k + 1;
        }
        if hit {
            proof {
                assert(s@.subrange(i as int, i + m as int) =~= pat@);
            }
            return Some(i);
        }
        proof {
            assert(m >= 1);
        }
        i = i + 1;
    }
    proof {
        assert(forall|j: int| j > n - m ==> !matches_at(s@, pat@, j));
    }
    None
}

/// The position of the first occurrence of `pat` in `s`, or `s.len()` where
/// there is none.
pub open spec fn first_match(s: Seq<char>, pat: Seq<char>) -> int {
    if exists|j: int| matches_at(s, pat, j) {
        choose|j: int|
            matches_at(s, pat, j) && (forall|k: int| 0 <= k < j ==> !matches_at(s, pat, k))
    } else {
        s.len() as int
    }
}

/// Whether `s` begins with `pat`.
pub fn starts_with_str(s: &str, pat: &str) -> (r: bool)
    ensures
        r == (s@.len() >= pat@.len() && s@.subrange(0, pat@.len() as int) == pat@),
{
    let n = s.unicode_len();
    let m = pat.unicode_len();
    if m > n {
        return false;
    }
    let mut k: usize = 0;
    while k < m
        invariant
            n == s@.len(),
            m == pat@.len(),
            m <= n,
            k <= m,
            forall|t: int| 0 <= t < k ==> s@[t] == pat@[t],
        decreases m - k,
    {
        if s.get_char(k) != pat.get_char(k) {
            proof {
                assert(s@.subrange(0, m as int)[k as int] == s@[k as int]);
            }
            return false;
        }
        k = k + 1;
    }
    proof {
        assert(s@.subrange(0, m as int) =~= pat@);
    }
    true
}

/// Whether `s` ends with `pat`.
pub fn ends_with_str(s: &str, pat: &str) -> (r: bool)
    ensures
        r == (s@.len() >= pat@.len() && s@.subrange(
            s@.len() - pat@.len(),
            s@.len() as int,
        ) == pat@),
{
    let n = s.unicode_len();
    let m = pat.unicode_len();
    if m > n {
        return false;
    }
    let mut k: usize = 0;
    while k < m
        invariant
            n == s@.len(),
            m == pat@.len(),
            m <= n,
            k <= m,
            forall|t: int| 0 <= t < k ==> s@[n - m + t] == pat@[t],
        decreases m - k,
    {
        if s.get_char(n - m + k) != pat.get_char(k) {
            proof {
                assert(s@.subrange(n - m as int, n as int)[k as int] == s@[n - m + k as int]);
            }
            return false;
        }
        k = k + 1;
    }
    proof {
        assert(s@.subrange(n - m as int, n as int) =~= pat@);
    }
    true
}

/// A line without its trailing carriage return, if it has one.
pub open spec fn strip_cr(l: Seq<char>) -> Seq<char> {
    if l.len() > 0 && l.last() == '\r' {
        l.drop_last()
    } else {
        l
    }
}

/// The lines of `s`, as `str::lines` yields them: split on newlines, the
/// final empty segment after a trailing newline dropped, and each line's
/// trailing carriage return stripped.
pub open spec fn spec_lines(s: Seq<char>) -> Seq<Seq<char>> {
    let p = split_on(s, '\n');
    let q = if p.len() > 0 && p.last().len() == 0 {
        p.drop_last()
    } else {
        p
    };
    q.map_values(|l: Seq<char>| strip_cr(l))
}

/// Splits `s` into lines, as `str::lines` does.
pub fn lines_of(s: &str) -> (r: Vec<String>)
    ensures
        r.deep_view() == spec_lines(s@),
{
    let mut parts = split_on_char(s, '\n');
    let ghost p = split_on(s@, '\n');
    proof {
        lemma_split_on_len(s@, '\n');
    }
    let plen = parts.len();
    if parts[plen - 1].as_str().is_empty() {
        let _ = parts.pop();
    }
    let ghost q = parts.deep_view();
    let mut out: Vec<String> = Vec::new();
    let mut i: usize = 0;
    proof {
        assert(out.deep_view() =~= q.map_values(|l: Seq<char>| strip_cr(l)).take(0));
    }
    while i < parts.len()
        invariant
            q == parts.deep_view(),
            i <= parts@.len(),
            q.len() == parts@.len(),
            out.deep_view() == q.map_values(|l: Seq<char>| strip_cr(l)).take(i as int),
        decreases parts@.len() - i,
    {
        let ghost old_dv = out.deep_view();
        let line = &parts[i];
        let m = line.as_str().unicode_len();
        let stripped: String = if m > 0 && line.as_str().get_char(m - 1) == '\r' {
            substr_string(line.as_str(), 0, m - 1)
        } else {
            line.clone()
        };
        proof {
            assert(line@.subrange(0, line@.len() - 1) =~= line@.drop_last());
            assert(stripped@ == strip_cr(q[i as int]));
        }
        out.push(stripped);
        i = i + 1;
        proof {
            assert(out.deep_view() =~~= old_dv.push(strip_cr(q[i - 1])));
            assert(out.deep_view() =~~= q.map_values(|l: Seq<char>| strip_cr(l)).take(i as int));
        }
    }
    proof {
        assert(q.map_values(|l: Seq<char>| strip_cr(l)).take(parts@.len() as int) =~= q.map_values(
            |l: Seq<char>| strip_cr(l),
        ));
        assert(out.deep_view() =~~= spec_lines(s@));
    }
    out
}

/// The position of the first occurrence of `c` in `s`, or `s.len()`.
pub open spec fn idx_of(s: Seq<char>, c: char) -> int
    decreases s.len(),
{
    if s.len() == 0 {
        0
    } else if s[0] == c {
        0
    } else {
        1 + idx_of(s.drop_first(), c)
    }
}

/// What `idx_of` returns: the first occurrence, or the length if none.
pub proof fn lemma_idx_of(s: Seq<char>, c: char)
    ensures
        0 <= idx_of(s, c) <= s.len(),
        idx_of(s, c) < s.len() ==> s[idx_of(s, c)] == c,
        forall|j: int| 0 <= j < idx_of(s, c) ==> s[j] != c,
    decreases s.len(),
{
    if s.len() > 0 && s[0] != c {
        let t = s.drop_first();
        lemma_idx_of(t, c);
        assert forall|j: int| 0 <= j < idx_of(s, c) implies s[j] != c by {
            if j > 0 {
                assert(s[j] == t[j - 1]);
            }
        }
    }
}

/// The position of the first occurrence of `c` in `s`, or the length.
pub fn find_char(s: &str, c: char) -> (r: usize)
    ensures
        r == idx_of(s@, c),
        r <= s@.len(),
{
    let n = s.unicode_len();
    let mut i: usize = 0;
    while i < n
        invariant
            n == s@.len(),
            i <= n,
            forall|j: int| 0 <= j < i ==> s@[j] != c,
        decreases n - i,
    {
        if s.get_char(i) == c {
            proof {
                lemma_idx_of(s@, c);
            }
            return i;
        }
        i = i + 1;
    }
    proof {
        lemma_idx_of(s@, c);
    }
    n
}

/// Byte-lexicographic order: `a` sorts no later than `b`.
pub open spec fn lex_le(a: Seq<u8>, b: Seq<u8>) -> bool
    decreases a.len(),
{
    if a.len() == 0 {
        true
    } else if b.len() == 0 {
        false
    } else if a[0] < b[0] {
        true
    } else if a[0] > b[0] {
        false
    } else {
        lex_le(a.drop_first(), b.drop_first())
    }
}

/// Any two byte sequences are ordered one way or the other.
pub proof fn lemma_lex_total(a: Seq<u8>, b: Seq<u8>)
    ensures
        lex_le(a, b) || lex_le(b, a),
    decreases a.len(),
{
    if a.len() > 0 && b.len() > 0 && a[0] == b[0] {
        lemma_lex_total(a.drop_first(), b.drop_first());
    }
}

/// Byte-lexicographic order is transitive.
pub proof fn lemma_lex_trans(a: Seq<u8>, b: Seq<u8>, c: Seq<u8>)
    requires
        lex_le(a, b),
        lex_le(b, c),
    ensures
        lex_le(a, c),
    decreases a.len(),
{
    if a.len() > 0 && b.len() > 0 && c.len() > 0 && a[0] == b[0] && b[0] == c[0] {
        lemma_lex_trans(a.drop_first(), b.drop_first(), c.drop_first());
    }
}

proof fn lemma_lex_skip(a: Seq<u8>, b: Seq<u8>, i: int)
    requires
        0 <= i <= a.len(),
        i <= b.len(),
        forall|j: int| 0 <= j < i ==> a[j] == b[j],
    ensures
        lex_le(a, b) == lex_le(a.skip(i), b.skip(i)),
    decreases i,
{
    if i > 0 {
        let a1 = a.drop_first();
        let b1 = b.drop_first();
        assert forall|j: int| 0 <= j < i - 1 implies a1[j] == b1[j] by {
            assert(a1[j] == a[j + 1] && b1[j] == b[j + 1]);
        }
        lemma_lex_skip(a1, b1, i - 1);
        assert(a1.skip(i - 1) =~= a.skip(i));
        assert(b1.skip(i - 1) =~= b.skip(i));
    } else {
        assert(a.skip(0) =~= a);
        assert(b.skip(0) =~= b);
    }
}

/// Whether `a` sorts no later than `b` in byte-lexicographic order, the order
/// `str`'s own comparison uses.
pub fn str_le(a: &str, b: &str) -> (r: bool)
    ensures
        r == lex_le(a.spec_bytes(), b.spec_bytes()),
{
    let av = a.as_bytes_vec();
    let bv = b.as_bytes_vec();
    let la = av.len();
    let lb = bv.len();
    let m = if la <= lb {
        la
    } else {
        lb
    };
    let mut i: usize = 0;
    while i < m
        invariant
            av@ == a.spec_bytes(),
            bv@ == b.spec_bytes(),
            la == av@.len(),
            lb == bv@.len(),
            m == if la <= lb {
                la
            } else {
                lb
            },
            i <= m,
            forall|j: int| 0 <= j < i ==> av@[j] == bv@[j],
        decreases m - i,
    {
        if av[i] < bv[i] {
            proof {
                lemma_lex_skip(av@, bv@, i as int);
            }
            return true;
        }
        if av[i] > bv[i] {
            proof {
                lemma_lex_skip(av@, bv@, i as int);
            }
            return false;
        }
        i = i + 1;
    }
    proof {
        lemma_lex_skip(av@, bv@, m as int);
    }
    la <= lb
}

/// Whether `c` is a decimal digit.
pub open spec fn is_digit(c: char) -> bool {
    48 <= c as u32 <= 57
}

/// Whether `s` is a non-empty run of decimal digits.
pub open spec fn is_digits(s: Seq<char>) -> bool {
    s.len() > 0 && forall|i: int| 0 <= i < s.len() ==> is_digit(s[i])
}

/// The value of a run of decimal digits, most significant first.
pub open spec fn digits_val(s: Seq<char>) -> int
    decreases s.len(),
{
    if s.len() == 0 {
        0
    } else {
        digits_val(s.drop_last()) * 10 + (s.last() as u32 - 48)
    }
}

/// The number a string of digits denotes, where it is one and fits in `u32`.
pub open spec fn spec_parse_u32(s: Seq<char>) -> Option<u32> {
    if is_digits(s) && digits_val(s) <= u32::MAX {
        Some(digits_val(s) as u32)
    } else {
        None
    }
}

proof fn lemma_digits_val_bounds(s: Seq<char>)
    requires
        forall|i: int| 0 <= i < s.len() ==> is_digit(s[i]),
    ensures
        digits_val(s) >= 0,
        forall|k: int| 0 <= k <= s.len() ==> #[trigger] digits_val(s.take(k)) <= digits_val(s),
    decreases s.len(),
{
    if s.len() == 0 {
        assert forall|k: int| 0 <= k <= s.len() implies #[trigger] digits_val(s.take(k))
            <= digits_val(s) by {
            assert(s.take(k) =~= s);
        }
    } else {
        let t = s.drop_last();
        lemma_digits_val_bounds(t);
        assert(digits_val(s) == digits_val(t) * 10 + (s.last() as u32 - 48));
        assert(digits_val(t) * 10 >= digits_val(t));
        assert forall|k: int| 0 <= k <= s.len() implies #[trigger] digits_val(s.take(k))
            <= digits_val(s) by {
            if k == s.len() {
                assert(s.take(k) =~= s);
            } else {
                assert(s.take(k) =~= t.take(k));
            }
        }
    }
}

/// Parses a non-empty, all-digit string as a `u32`.
///
/// Returns `None` where the string is empty, holds a non-digit, or denotes a
/// value above `u32::MAX`.
pub fn parse_u32_str(s: &str) -> (r: Option<u32>)
    ensures
        r == spec_parse_u32(s@),
{
    let n = s.unicode_len();
    if n == 0 {
        return None;
    }
    let mut acc: u32 = 0;
    let mut i: usize = 0;
    proof {
        assert(s@.take(0) =~= Seq::<char>::empty());
    }
    while i < n
        invariant
            n == s@.len(),
            i <= n,
            forall|j: int| 0 <= j < i ==> is_digit(s@[j]),
            acc == digits_val(s@.take(i as int)),
        decreases n - i,
    {
        let c = s.get_char(i);
        let cv = c as u32;
        if cv < 48 || cv > 57 {
            return None;
        }
        let d = cv - 48;
        if acc > (u32::MAX - d) / 10 {
            proof {
                assert(acc * 10 + d > u32::MAX) by (nonlinear_arith)
                    requires
                        acc > (u32::MAX - d) / 10,
                        d <= 9,
                ;
                assert(s@.take(i as int + 1).drop_last() =~= s@.take(i as int));
                assert(digits_val(s@.take(i as int + 1)) > u32::MAX);
                if is_digits(s@) {
                    lemma_digits_val_bounds(s@);
                    assert(digits_val(s@) > u32::MAX);
                }
            }
            return None;
        }
        proof {
            assert(acc * 10 + d <= u32::MAX) by (nonlinear_arith)
                requires
                    acc <= (u32::MAX - d) / 10,
                    d <= 9,
            ;
            assert(s@.take(i as int + 1).drop_last() =~= s@.take(i as int));
        }
        acc = acc * 10 + d;
        i = i + 1;
    }
    proof {
        assert(s@.take(n as int) =~= s@);
    }
    Some(acc)
}

/// The words of `ps`, joined by single spaces.
pub open spec fn join_sp(ps: Seq<Seq<char>>) -> Seq<char>
    decreases ps.len(),
{
    if ps.len() == 0 {
        Seq::<char>::empty()
    } else if ps.len() == 1 {
        ps[0]
    } else {
        join_sp(ps.drop_last()) + seq![' '] + ps.last()
    }
}

/// Joins the elements of `parts` from index `from` on, separated by spaces.
pub fn join_space_from(parts: &Vec<String>, from: usize) -> (r: String)
    requires
        from <= parts@.len(),
    ensures
        r@ == join_sp(parts.deep_view().skip(from as int)),
{
    let mut r = String::new();
    let mut i: usize = from;
    proof {
        assert(parts.deep_view().skip(from as int).take(0) =~= Seq::<Seq<char>>::empty());
    }
    while i < parts.len()
        invariant
            from <= i <= parts@.len(),
            parts.deep_view().len() == parts@.len(),
            r@ == join_sp(parts.deep_view().skip(from as int).take(i - from as int)),
        decreases parts@.len() - i,
    {
        let ghost ps = parts.deep_view().skip(from as int);
        let ghost pre = ps.take(i - from as int);
        let ghost post = ps.take(i - from as int + 1);
        proof {
            assert(post.drop_last() =~= pre);
            assert(post.last() == parts.deep_view()[i as int]);
            assert(parts.deep_view()[i as int] == parts@[i as int]@);
        }
        if i > from {
            r.append(" ");
            proof {
                reveal_strlit(" ");
                assert(" "@ =~= seq![' ']);
            }
        }
        r.append(parts[i].as_str());
        i = i + 1;
        proof {
            if i - 1 == from {
                assert(join_sp(post) == post[0]);
                assert(post[0] == parts@[from as int]@);
            }
        }
    }
    proof {
        assert(parts.deep_view().skip(from as int).take(parts@.len() - from as int)
            =~= parts.deep_view().skip(from as int));
    }
    r
}

} // verus!
