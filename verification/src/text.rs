//! Verified text utilities shared by the string-handling exercises: character
//! tests, string equality and lexicographic order, prefix and substring
//! search, whitespace splitting, line splitting, trimming and joining.

use vstd::prelude::*;

verus! {

/// Whether a character has the Unicode `White_Space` property; the result of
/// `char::is_whitespace`, named here because the full table is the standard
/// library's business.
pub uninterp spec fn is_space_char(c: char) -> bool;

/// Relies on `char::is_whitespace`: true exactly on the characters with the
/// Unicode `White_Space` property, a function of the character alone.
#[verifier::external_body]
pub(crate) fn is_space(c: char) -> (r: bool)
    ensures
        r == is_space_char(c),
{
    c.is_whitespace()
}

/// Lexicographic order on character sequences, by code point, with a prefix
/// ordered before every extension of it.  This is the order in which the
/// standard library compares strings.
pub open spec fn lex_leq(a: Seq<char>, b: Seq<char>) -> bool
    decreases a.len(),
{
    if a.len() == 0 {
        true
    } else if b.len() == 0 {
        false
    } else if (a[0] as int) < (b[0] as int) {
        true
    } else if (b[0] as int) < (a[0] as int) {
        false
    } else {
        lex_leq(a.drop_first(), b.drop_first())
    }
}

/// The lexicographic order is total.
pub proof fn lemma_lex_total(a: Seq<char>, b: Seq<char>)
    ensures
        lex_leq(a, b) || lex_leq(b, a),
    decreases a.len(),
{
    if a.len() > 0 && b.len() > 0 && (a[0] as int) == (b[0] as int) {
        lemma_lex_total(a.drop_first(), b.drop_first());
    }
}

/// The lexicographic order is transitive.
pub proof fn lemma_lex_trans(a: Seq<char>, b: Seq<char>, c: Seq<char>)
    requires
        lex_leq(a, b),
        lex_leq(b, c),
    ensures
        lex_leq(a, c),
    decreases a.len(),
{
    if a.len() > 0 && b.len() > 0 && c.len() > 0 && (a[0] as int) == (b[0] as int) && (b[0] as int)
        == (c[0] as int) {
        lemma_lex_trans(a.drop_first(), b.drop_first(), c.drop_first());
    }
}

/// Whether the two strings hold the same characters.
pub fn str_eq(a: &str, b: &str) -> (r: bool)
    ensures
        r == (a@ == b@),
{
    let na = a.unicode_len();
    let nb = b.unicode_len();
    if na != nb {
        return false;
    }
    let mut i: usize = 0;
    while i < na
        invariant
            i <= na,
            na == a@.len(),
            na == b@.len(),
            forall|j: int| 0 <= j < i ==> a@[j] == b@[j],
        decreases na - i,
    {
        if a.get_char(i) != b.get_char(i) {
            return false;
        }
        i += 1;
    }
    proof {
        assert(a@ =~= b@);
    }
    true
}

/// Whether `a` comes no later than `b` in lexicographic order.
pub fn str_leq(a: &str, b: &str) -> (r: bool)
    ensures
        r == lex_leq(a@, b@),
{
    let na = a.unicode_len();
    let nb = b.unicode_len();
    let mut i: usize = 0;
    proof {
        assert(a@.skip(0) =~= a@);
        assert(b@.skip(0) =~= b@);
    }
    while i < na && i < nb
        invariant
            i <= na,
            i <= nb,
            na == a@.len(),
            nb == b@.len(),
            lex_leq(a@, b@) == lex_leq(a@.skip(i as int), b@.skip(i as int)),
            lex_leq(b@, a@) == lex_leq(b@.skip(i as int), a@.skip(i as int)),
        decreases na - i,
    {
        let ca = a.get_char(i);
        let cb = b.get_char(i);
        proof {
            assert(ca as int == ca as u32 as int);
            assert(cb as int == cb as u32 as int);
        }
        if (ca as u32) < (cb as u32) {
            return true;
        }
        if (cb as u32) < (ca as u32) {
            return false;
        }
        proof {
            assert(a@.skip(i as int).drop_first() =~= a@.skip(i + 1));
            assert(b@.skip(i as int).drop_first() =~= b@.skip(i + 1));
        }
        i += 1;
    }
    proof {
        if i >= na {
            assert(a@.skip(i as int).len() == 0);
        } else {
            assert(b@.skip(i as int).len() == 0);
            assert(a@.skip(i as int).len() > 0);
        }
    }
    i >= na
}

/// Whether `p` is a prefix of `s`.
pub open spec fn is_prefix(p: Seq<char>, s: Seq<char>) -> bool {
    p.len() <= s.len() && s.subrange(0, p.len() as int) == p
}

/// Whether the string `s` starts with the string `p`.
pub fn str_starts_with(s: &str, p: &str) -> (r: bool)
    ensures
        r == is_prefix(p@, s@),
{
    let ns = s.unicode_len();
    let np = p.unicode_len();
    if np > ns {
        return false;
    }
    let mut i: usize = 0;
    while i < np
        invariant
            i <= np,
            np <= ns,
            ns == s@.len(),
            np == p@.len(),
            forall|j: int| 0 <= j < i ==> s@[j] == p@[j],
        decreases np - i,
    {
        if s.get_char(i) != p.get_char(i) {
            proof {
                assert(s@.subrange(0, p@.len() as int)[i as int] != p@[i as int]);
            }
            return false;
        }
        i += 1;
    }
    proof {
        assert(s@.subrange(0, p@.len() as int) =~= p@);
    }
    true
}

/// Whether `n` occurs in `h` starting at position `k`.
pub open spec fn contains_at(h: Seq<char>, n: Seq<char>, k: int) -> bool {
    0 <= k && k + n.len() <= h.len() && h.subrange(k, k + n.len()) == n
}

/// Whether `n` occurs somewhere in `h` as a contiguous run.
pub open spec fn seq_contains(h: Seq<char>, n: Seq<char>) -> bool {
    exists|k: int| contains_at(h, n, k)
}

/// Whether the string `hay` contains the string `needle`.
pub fn str_contains(hay: &str, needle: &str) -> (r: bool)
    ensures
        r == seq_contains(hay@, needle@),
{
    let nh = hay.unicode_len();
    let nn = needle.unicode_len();
    if nn > nh {
        return false;
    }
    if nn == 0 {
        proof {
            assert(hay@.subrange(0, 0) =~= needle@);
            assert(contains_at(hay@, needle@, 0));
        }
        return true;
    }
    let mut k: usize = 0;
    while k <= nh - nn
        invariant
            0 < nn <= nh,
            nh == hay@.len(),
            nn == needle@.len(),
            k <= nh - nn + 1,
            forall|k2: int| 0 <= k2 < k ==> !contains_at(hay@, needle@, k2),
        decreases nh - nn + 1 - k,
    {
        let mut j: usize = 0;
        let mut matches_here = true;
        while j < nn
            invariant
                k + nn <= nh,
                nh == hay@.len(),
                nn == needle@.len(),
                j <= nn,
                matches_here ==> forall|j2: int| 0 <= j2 < j ==> hay@[k + j2] == needle@[j2],
                !matches_here ==> !contains_at(hay@, needle@, k as int),
            decreases nn - j,
        {
            if hay.get_char(k + j) != needle.get_char(j) {
                proof {
                    assert(hay@.subrange(k as int, k + needle@.len())[j as int] != needle@[
                        j as int]);
                }
                matches_here = false;
            }
            j += 1;
        }
        if matches_here {
            proof {
                assert(hay@.subrange(k as int, k + needle@.len()) =~= needle@);
                assert(contains_at(hay@, needle@, k as int));
            }
            return true;
        }
        k += 1;
    }
    proof {
        assert(forall|k2: int| contains_at(hay@, needle@, k2) ==> 0 <= k2 <= nh - nn);
    }
    false
}


/// The position of the first whitespace character at or after `i`, or the
/// end of `s` if there is none.
pub open spec fn word_end(s: Seq<char>, i: int) -> int
    decreases s.len() - i,
        when 0 <= i <= s.len()
{
    if i >= s.len() || is_space_char(s[i]) {
        i
    } else {
        word_end(s, i + 1)
    }
}

/// Where `word_end` lands: at or after `i`, at the first whitespace
/// character, never past the end.
pub proof fn lemma_word_end(s: Seq<char>, i: int)
    requires
        0 <= i <= s.len(),
    ensures
        i <= word_end(s, i) <= s.len(),
        forall|m: int| i <= m < word_end(s, i) ==> !is_space_char(s[m]),
        word_end(s, i) < s.len() ==> is_space_char(s[word_end(s, i)]),
    decreases s.len() - i,
{
    if i < s.len() && !is_space_char(s[i]) {
        lemma_word_end(s, i + 1);
    }
}

/// Any position that ends a run of non-whitespace characters starting at `i`
/// is `word_end(s, i)`.
pub proof fn lemma_word_end_is(s: Seq<char>, i: int, j: int)
    requires
        0 <= i <= j <= s.len(),
        forall|m: int| i <= m < j ==> !is_space_char(s[m]),
        j < s.len() ==> is_space_char(s[j]),
    ensures
        word_end(s, i) == j,
    decreases j - i,
{
    if i < j {
        lemma_word_end_is(s, i + 1, j);
    }
}

/// The position of the first non-whitespace character at or after `i`, or
/// the end of `s` if there is none.
pub open spec fn skip_spaces(s: Seq<char>, i: int) -> int
    decreases s.len() - i,
        when 0 <= i <= s.len()
{
    if i >= s.len() || !is_space_char(s[i]) {
        i
    } else {
        skip_spaces(s, i + 1)
    }
}

/// Where `skip_spaces` lands: at or after `i`, at the first non-whitespace
/// character, never past the end.
pub proof fn lemma_skip_spaces(s: Seq<char>, i: int)
    requires
        0 <= i <= s.len(),
    ensures
        i <= skip_spaces(s, i) <= s.len(),
        forall|m: int| i <= m < skip_spaces(s, i) ==> is_space_char(s[m]),
        skip_spaces(s, i) < s.len() ==> !is_space_char(s[skip_spaces(s, i)]),
    decreases s.len() - i,
{
    if i < s.len() && is_space_char(s[i]) {
        lemma_skip_spaces(s, i + 1);
    }
}

/// Any position that ends a run of whitespace characters starting at `i` is
/// `skip_spaces(s, i)`.
pub proof fn lemma_skip_spaces_is(s: Seq<char>, i: int, j: int)
    requires
        0 <= i <= j <= s.len(),
        forall|m: int| i <= m < j ==> is_space_char(s[m]),
        j < s.len() ==> !is_space_char(s[j]),
    ensures
        skip_spaces(s, i) == j,
    decreases j - i,
{
    if i < j {
        lemma_skip_spaces_is(s, i + 1, j);
    }
}

/// The maximal runs of non-whitespace characters of `s` from position `i`
/// on, in order.
pub open spec fn split_ws_from(s: Seq<char>, i: int) -> Seq<Seq<char>>
    decreases s.len() - i,
        when 0 <= i <= s.len()
        via split_ws_from_decreases
{
    if i >= s.len() {
        Seq::empty()
    } else if is_space_char(s[i]) {
        split_ws_from(s, i + 1)
    } else {
        seq![s.subrange(i, word_end(s, i))] + split_ws_from(s, word_end(s, i))
    }
}

#[via_fn]
proof fn split_ws_from_decreases(s: Seq<char>, i: int) {
    if 0 <= i < s.len() && !is_space_char(s[i]) {
        lemma_word_end(s, i);
        assert(word_end(s, i) == word_end(s, i + 1));
    }
}

/// The words of `s`: its maximal runs of non-whitespace characters, in
/// order.  This is what the standard library's whitespace splitting yields.
pub open spec fn split_ws(s: Seq<char>) -> Seq<Seq<char>> {
    split_ws_from(s, 0)
}

/// Every word that whitespace splitting yields is nonempty.
pub proof fn lemma_split_ws_from_words_nonempty(s: Seq<char>, i: int)
    requires
        0 <= i <= s.len(),
    ensures
        forall|w: int| 0 <= w < split_ws_from(s, i).len() ==> split_ws_from(s, i)[w].len() > 0,
    decreases s.len() - i,
{
    if i >= s.len() {
    } else if is_space_char(s[i]) {
        lemma_split_ws_from_words_nonempty(s, i + 1);
        assert forall|w: int| 0 <= w < split_ws_from(s, i).len() implies split_ws_from(s, i)[
            w].len() > 0 by {
            assert(split_ws_from(s, i)[w] == split_ws_from(s, i + 1)[w]);
        };
    } else {
        lemma_word_end(s, i);
        assert(word_end(s, i) == word_end(s, i + 1));
        lemma_word_end(s, i + 1);
        let e = word_end(s, i);
        lemma_split_ws_from_words_nonempty(s, e);
        assert forall|w: int| 0 <= w < split_ws_from(s, i).len() implies split_ws_from(s, i)[
            w].len() > 0 by {
            if w == 0 {
                assert(split_ws_from(s, i)[0] == s.subrange(i, e));
            } else {
                assert(split_ws_from(s, i)[w] == split_ws_from(s, e)[w - 1]);
            }
        };
    }
}

/// Splits the string into its whitespace-separated words.
pub fn split_whitespace_of<'a>(s: &'a str) -> (parts: Vec<&'a str>)
    ensures
        parts.deep_view() == split_ws(s@),
{
    let n = s.unicode_len();
    let mut parts: Vec<&'a str> = Vec::new();
    let mut i: usize = 0;
    proof {
        assert(parts.deep_view() =~= Seq::<Seq<char>>::empty());
        assert(split_ws(s@) =~= Seq::<Seq<char>>::empty() + split_ws_from(s@, 0));
    }
    while i < n
        invariant
            i <= n,
            n == s@.len(),
            split_ws(s@) == parts.deep_view() + split_ws_from(s@, i as int),
        decreases n - i,
    {
        if is_space(s.get_char(i)) {
            i += 1;
        } else {
            let ghost old_parts = parts.deep_view();
            let start = i;
            let mut j = i + 1;
            while j < n && !is_space(s.get_char(j))
                invariant
                    i < j <= n,
                    n == s@.len(),
                    forall|m: int| i <= m < j ==> !is_space_char(s@[m]),
                decreases n - j,
            {
                j += 1;
            }
            proof {
                lemma_word_end_is(s@, i as int, j as int);
            }
            let word = s.substring_char(start, j);
            parts.push(word);
            proof {
                assert(parts.deep_view() =~= old_parts.push(word@));
                assert(old_parts + split_ws_from(s@, i as int) =~= parts.deep_view()
                    + split_ws_from(s@, j as int));
            }
            i = j;
        }
    }
    proof {
        assert(split_ws_from(s@, n as int) =~= Seq::<Seq<char>>::empty());
        assert(parts.deep_view() + split_ws_from(s@, n as int) =~= parts.deep_view());
    }
    parts
}

/// The position of the first line feed at or after `i`, or the end of `s` if
/// there is none.
pub open spec fn line_break(s: Seq<char>, i: int) -> int
    decreases s.len() - i,
        when 0 <= i <= s.len()
{
    if i >= s.len() || s[i] == '\n' {
        i
    } else {
        line_break(s, i + 1)
    }
}

/// Where `line_break` lands: at or after `i`, at the first line feed, never
/// past the end.
pub proof fn lemma_line_break(s: Seq<char>, i: int)
    requires
        0 <= i <= s.len(),
    ensures
        i <= line_break(s, i) <= s.len(),
        forall|m: int| i <= m < line_break(s, i) ==> s[m] != '\n',
        line_break(s, i) < s.len() ==> s[line_break(s, i)] == '\n',
    decreases s.len() - i,
{
    if i < s.len() && s[i] != '\n' {
        lemma_line_break(s, i + 1);
    }
}

/// Any position that ends a run of characters other than line feeds starting
/// at `i` is `line_break(s, i)`.
pub proof fn lemma_line_break_is(s: Seq<char>, i: int, j: int)
    requires
        0 <= i <= j <= s.len(),
        forall|m: int| i <= m < j ==> s[m] != '\n',
        j < s.len() ==> s[j] == '\n',
    ensures
        line_break(s, i) == j,
    decreases j - i,
{
    if i < j {
        lemma_line_break_is(s, i + 1, j);
    }
}

/// The lines of `s` from position `i` on: pieces split at line feeds, with a
/// carriage return directly before a line feed dropped, and with no empty
/// last piece when `s` ends in a line feed.
pub open spec fn lines_from(s: Seq<char>, i: int) -> Seq<Seq<char>>
    decreases s.len() - i,
        when 0 <= i <= s.len()
        via lines_from_decreases
{
    if i >= s.len() {
        Seq::empty()
    } else {
        let j = line_break(s, i);
        let raw = s.subrange(i, j);
        if j == s.len() {
            seq![raw]
        } else {
            let line = if raw.len() > 0 && raw[raw.len() - 1] == '\r' {
                raw.drop_last()
            } else {
                raw
            };
            seq![line] + lines_from(s, j + 1)
        }
    }
}

#[via_fn]
proof fn lines_from_decreases(s: Seq<char>, i: int) {
    if 0 <= i < s.len() {
        lemma_line_break(s, i);
    }
}

/// The lines of `s`, as the standard library's line splitting yields them.
pub open spec fn spec_lines(s: Seq<char>) -> Seq<Seq<char>> {
    lines_from(s, 0)
}

/// Splits the string into its lines: pieces split at line feeds, each
/// terminating line feed dropped together with a carriage return directly
/// before it.
pub fn lines_of<'a>(s: &'a str) -> (lines: Vec<&'a str>)
    ensures
        lines.deep_view() == spec_lines(s@),
{
    let n = s.unicode_len();
    let mut lines: Vec<&'a str> = Vec::new();
    let mut i: usize = 0;
    proof {
        assert(lines.deep_view() =~= Seq::<Seq<char>>::empty());
        assert(spec_lines(s@) =~= Seq::<Seq<char>>::empty() + lines_from(s@, 0));
    }
    while i < n
        invariant
            i <= n,
            n == s@.len(),
            spec_lines(s@) == lines.deep_view() + lines_from(s@, i as int),
        decreases n - i,
    {
        let ghost old_lines = lines.deep_view();
        let start = i;
        let mut j = i;
        while j < n && s.get_char(j) != '\n'
            invariant
                i <= j <= n,
                n == s@.len(),
                forall|m: int| i <= m < j ==> s@[m] != '\n',
            decreases n - j,
        {
            j += 1;
        }
        proof {
            lemma_line_break_is(s@, i as int, j as int);
        }
        if j == n {
            let line = s.substring_char(start, j);
            lines.push(line);
            proof {
                assert(lines.deep_view() =~= old_lines.push(line@));
                assert(old_lines + lines_from(s@, i as int) =~= lines.deep_view()
                    + lines_from(s@, n as int));
            }
            i = n;
        } else {
            let line = if j > start && s.get_char(j - 1) == '\r' {
                let ghost raw = s@.subrange(start as int, j as int);
                proof {
                    assert(raw[raw.len() - 1] == s@[j - 1]);
                    assert(s@.subrange(start as int, j - 1) =~= raw.drop_last());
                }
                s.substring_char(start, j - 1)
            } else {
                s.substring_char(start, j)
            };
            lines.push(line);
            proof {
                assert(lines.deep_view() =~= old_lines.push(line@));
                assert(old_lines + lines_from(s@, i as int) =~= lines.deep_view()
                    + lines_from(s@, j + 1));
            }
            i = j + 1;
        }
    }
    proof {
        assert(lines_from(s@, n as int) =~= Seq::<Seq<char>>::empty());
        assert(lines.deep_view() + lines_from(s@, n as int) =~= lines.deep_view());
    }
    lines
}

/// The position just after the last non-whitespace character of `s` before
/// position `j`, or zero if there is none.
pub open spec fn trim_end_idx(s: Seq<char>, j: int) -> int
    decreases j,
        when 0 <= j <= s.len()
{
    if j <= 0 || !is_space_char(s[j - 1]) {
        j
    } else {
        trim_end_idx(s, j - 1)
    }
}

/// Where `trim_end_idx` lands: at or before `j`, just after a non-whitespace
/// character, with only whitespace behind it.
pub proof fn lemma_trim_end_idx(s: Seq<char>, j: int)
    requires
        0 <= j <= s.len(),
    ensures
        0 <= trim_end_idx(s, j) <= j,
        forall|m: int| trim_end_idx(s, j) <= m < j ==> is_space_char(s[m]),
        trim_end_idx(s, j) > 0 ==> !is_space_char(s[trim_end_idx(s, j) - 1]),
    decreases j,
{
    if j > 0 && is_space_char(s[j - 1]) {
        lemma_trim_end_idx(s, j - 1);
    }
}

/// Any position that starts a run of whitespace characters reaching up to
/// `j` is `trim_end_idx(s, j)`.
pub proof fn lemma_trim_end_idx_is(s: Seq<char>, b: int, j: int)
    requires
        0 <= b <= j <= s.len(),
        forall|m: int| b <= m < j ==> is_space_char(s[m]),
        b > 0 ==> !is_space_char(s[b - 1]),
    ensures
        trim_end_idx(s, j) == b,
    decreases j,
{
    if b < j {
        lemma_trim_end_idx_is(s, b, j - 1);
    }
}

/// `s` without its leading and trailing whitespace.
pub open spec fn spec_trim(s: Seq<char>) -> Seq<char> {
    let a = skip_spaces(s, 0);
    if a == s.len() {
        Seq::empty()
    } else {
        s.subrange(a, trim_end_idx(s, s.len() as int))
    }
}

/// Returns the string without its leading and trailing whitespace.
pub fn trim_of<'a>(s: &'a str) -> (r: &'a str)
    ensures
        r@ == spec_trim(s@),
{
    let n = s.unicode_len();
    let mut a: usize = 0;
    while a < n && is_space(s.get_char(a))
        invariant
            a <= n,
            n == s@.len(),
            forall|m: int| 0 <= m < a ==> is_space_char(s@[m]),
        decreases n - a,
    {
        a += 1;
    }
    proof {
        lemma_skip_spaces_is(s@, 0, a as int);
    }
    if a == n {
        let r = s.substring_char(n, n);
        proof {
            assert(r@ =~= Seq::<char>::empty());
        }
        return r;
    }
    let mut b: usize = n;
    while b > 0 && is_space(s.get_char(b - 1))
        invariant
            a < b <= n,
            n == s@.len(),
            !is_space_char(s@[a as int]),
            forall|m: int| b <= m < n ==> is_space_char(s@[m]),
        decreases b,
    {
        b -= 1;
    }
    proof {
        lemma_trim_end_idx_is(s@, b as int, n as int);
    }
    s.substring_char(a, b)
}

/// The pieces of `parts` laid end to end with `sep` between each two
/// neighbours.
pub open spec fn join_with(parts: Seq<Seq<char>>, sep: Seq<char>) -> Seq<char>
    decreases parts.len(),
{
    if parts.len() == 0 {
        Seq::empty()
    } else if parts.len() == 1 {
        parts[0]
    } else {
        parts[0] + sep + join_with(parts.drop_first(), sep)
    }
}

/// Joining one more piece appends a separator and the piece.
pub proof fn lemma_join_push(parts: Seq<Seq<char>>, sep: Seq<char>, w: Seq<char>)
    ensures
        join_with(parts.push(w), sep) == (if parts.len() == 0 {
            w
        } else {
            join_with(parts, sep) + sep + w
        }),
    decreases parts.len(),
{
    if parts.len() == 0 {
        assert(parts.push(w).len() == 1);
        assert(parts.push(w)[0] == w);
    } else if parts.len() == 1 {
        assert(parts.push(w)[0] == parts[0]);
        assert(parts.push(w).drop_first() =~= seq![w]);
        assert(join_with(seq![w], sep) == w);
    } else {
        assert(parts.push(w)[0] == parts[0]);
        assert(parts.push(w).drop_first() =~= parts.drop_first().push(w));
        lemma_join_push(parts.drop_first(), sep, w);
        assert(join_with(parts.push(w), sep) == parts[0] + sep + (join_with(
            parts.drop_first(),
            sep,
        ) + sep + w));
        assert(parts[0] + sep + (join_with(parts.drop_first(), sep) + sep + w) =~= (parts[0] + sep
            + join_with(parts.drop_first(), sep)) + sep + w);
    }
}

/// Joins the strings with `sep` between each two neighbours.
pub fn join_strs(parts: &Vec<String>, sep: &str) -> (r: String)
    ensures
        r@ == join_with(parts.deep_view(), sep@),
{
    let mut r = String::new();
    let mut i: usize = 0;
    proof {
        assert(parts.deep_view().take(0) =~= Seq::<Seq<char>>::empty());
    }
    while i < parts.len()
        invariant
            i <= parts.len(),
            r@ == join_with(parts.deep_view().take(i as int), sep@),
        decreases parts.len() - i,
    {
        let ghost before = parts.deep_view().take(i as int);
        if i > 0 {
            r.append(sep);
        }
        r.append(parts[i].as_str());
        proof {
            assert(parts.deep_view()[i as int] == parts@[i as int]@);
            assert(parts.deep_view().take(i + 1) =~= before.push(parts@[i as int]@));
            lemma_join_push(before, sep@, parts@[i as int]@);
            if i == 0 {
                assert(Seq::<char>::empty() + parts@[i as int]@ =~= parts@[i as int]@);
            }
        }
        i += 1;
    }
    proof {
        assert(parts.deep_view().take(parts@.len() as int) =~= parts.deep_view());
    }
    r
}

/// The Unicode lowercase mapping of a character sequence; the result of
/// `str::to_lowercase`, named here because the full mapping is the standard
/// library's business.
pub uninterp spec fn lower_of(s: Seq<char>) -> Seq<char>;

/// Relies on `str::to_lowercase`: the lowercase mapping of the string, a
/// function of its characters alone.
#[verifier::external_body]
pub(crate) fn to_lowercase_of(s: &str) -> (r: String)
    ensures
        r@ == lower_of(s@),
{
    s.to_lowercase()
}

} // verus!

