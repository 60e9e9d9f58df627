//! Character-level text utilities: trimming, case folding, searching and
//! lexicographic comparison, each with an exact specification over `Seq<char>`.

use vstd::prelude::*;

verus! {

/// A character with the Unicode `White_Space` property: the ASCII
/// whitespace characters, next line, no-break space, ogham space mark,
/// the typographic spaces, the line and paragraph separators, narrow
/// no-break space, medium mathematical space and ideographic space.
pub open spec fn is_ws(c: char) -> bool {
    c == '\u{9}' || c == '\u{a}' || c == '\u{b}' || c == '\u{c}' || c == '\u{d}' || c == ' '
        || c == '\u{85}' || c == '\u{a0}' || c == '\u{1680}' || ('\u{2000}' <= c && c
        <= '\u{200a}') || c == '\u{2028}' || c == '\u{2029}' || c == '\u{202f}' || c == '\u{205f}'
        || c == '\u{3000}'
}

/// Index of the first character at or after `from` that is not whitespace,
/// or `s.len()` if all remaining characters are whitespace.
pub open spec fn first_non_ws(s: Seq<char>, from: int) -> int
    decreases s.len() - from,
{
    if from < 0 || from >= s.len() {
        s.len() as int
    } else if is_ws(s[from]) {
        first_non_ws(s, from + 1)
    } else {
        from
    }
}

/// One past the index of the last character strictly before `upto` that is
/// not whitespace, or `0` if all of them are whitespace.
pub open spec fn last_non_ws_end(s: Seq<char>, upto: int) -> int
    decreases upto,
{
    if upto <= 0 || upto > s.len() {
        0
    } else if is_ws(s[upto - 1]) {
        last_non_ws_end(s, upto - 1)
    } else {
        upto
    }
}

/// The sequence with leading and trailing ASCII whitespace removed.
pub open spec fn trim_seq(s: Seq<char>) -> Seq<char> {
    let a = first_non_ws(s, 0);
    let b = last_non_ws_end(s, s.len() as int);
    if a >= b {
        Seq::empty()
    } else {
        s.subrange(a, b)
    }
}

/// Remove leading and trailing ASCII whitespace.
pub fn trim_str(s: &str) -> (r: String)
    ensures
        r@ == trim_seq(s@),
{
    let n = s.unicode_len();
    let mut a: usize = 0;
    while a < n && is_ws_exec(s.get_char(a))
        invariant
            0 <= a <= n,
            n == s@.len(),
            first_non_ws(s@, 0) == first_non_ws(s@, a as int),
        decreases n - a,
    {
        a = a + 1;
    }
    let mut b: usize = n;
    while b > a && is_ws_exec(s.get_char(b - 1))
        invariant
            a <= b <= n,
            n == s@.len(),
            a as int == first_non_ws(s@, 0),
            last_non_ws_end(s@, n as int) == last_non_ws_end(s@, b as int),
        decreases b,
    {
        b = b - 1;
    }
    proof {
        if a == b {
            lemma_last_non_ws_end_le(s@, b as int);
            assert(trim_seq(s@) =~= Seq::empty());
        } else {
            assert(!is_ws(s@[b - 1]));
            assert(last_non_ws_end(s@, n as int) == b);
            assert(trim_seq(s@) =~= s@.subrange(a as int, b as int));
        }
    }
    let piece = s.substring_char(a, b);
    piece.to_owned()
}

/// Whitespace test, usable from executable code.
pub fn is_ws_exec(c: char) -> (r: bool)
    ensures
        r == is_ws(c),
{
    c == '\u{9}' || c == '\u{a}' || c == '\u{b}' || c == '\u{c}' || c == '\u{d}' || c == ' '
        || c == '\u{85}' || c == '\u{a0}' || c == '\u{1680}' || ('\u{2000}' <= c && c
        <= '\u{200a}') || c == '\u{2028}' || c == '\u{2029}' || c == '\u{202f}' || c == '\u{205f}'
        || c == '\u{3000}'
}

proof fn lemma_last_non_ws_end_le(s: Seq<char>, upto: int)
    ensures
        last_non_ws_end(s, upto) <= upto || upto < 0,
    decreases upto,
{
    if upto > 0 && upto <= s.len() && is_ws(s[upto - 1]) {
        lemma_last_non_ws_end_le(s, upto - 1);
    }
}

proof fn lemma_first_non_ws_ge(s: Seq<char>, from: int)
    requires
        0 <= from <= s.len(),
    ensures
        first_non_ws(s, from) >= from,
    decreases s.len() - from,
{
    if from < s.len() && is_ws(s[from]) {
        lemma_first_non_ws_ge(s, from + 1);
    }
}

/// The found position is in range, everything before it (at or after
/// `from`) is whitespace, and it carries a non-whitespace character when
/// it is inside the sequence.
pub proof fn lemma_first_non_ws(s: Seq<char>, from: int)
    requires
        0 <= from <= s.len(),
    ensures
        from <= first_non_ws(s, from) <= s.len(),
        first_non_ws(s, from) < s.len() ==> !is_ws(s[first_non_ws(s, from)]),
        forall|j: int| from <= j < first_non_ws(s, from) ==> is_ws(#[trigger] s[j]),
    decreases s.len() - from,
{
    if from < s.len() && is_ws(s[from]) {
        lemma_first_non_ws(s, from + 1);
    }
}

/// If everything in `[from, k)` is whitespace and `k` is the length or
/// carries a non-whitespace character, the forward search finds `k`.
pub proof fn lemma_first_non_ws_at(s: Seq<char>, from: int, k: int)
    requires
        0 <= from <= k <= s.len(),
        forall|j: int| from <= j < k ==> is_ws(#[trigger] s[j]),
        k < s.len() ==> !is_ws(s[k]),
    ensures
        first_non_ws(s, from) == k,
    decreases k - from,
{
    if from < k {
        lemma_first_non_ws_at(s, from + 1, k);
    }
}

/// The found end is in range, everything from it up to `upto` is
/// whitespace, and a non-whitespace character stands directly before it
/// when it is positive.
pub proof fn lemma_last_non_ws(s: Seq<char>, upto: int)
    requires
        0 <= upto <= s.len(),
    ensures
        0 <= last_non_ws_end(s, upto) <= upto,
        last_non_ws_end(s, upto) > 0 ==> !is_ws(s[last_non_ws_end(s, upto) - 1]),
        forall|j: int| last_non_ws_end(s, upto) <= j < upto ==> is_ws(#[trigger] s[j]),
    decreases upto,
{
    if upto > 0 && is_ws(s[upto - 1]) {
        lemma_last_non_ws(s, upto - 1);
    }
}

/// If everything in `[k, upto)` is whitespace and `k` is zero or has a
/// non-whitespace character directly before it, the backward search
/// finds `k`.
pub proof fn lemma_last_non_ws_at(s: Seq<char>, upto: int, k: int)
    requires
        0 <= k <= upto <= s.len(),
        forall|j: int| k <= j < upto ==> is_ws(#[trigger] s[j]),
        k > 0 ==> !is_ws(s[k - 1]),
    ensures
        last_non_ws_end(s, upto) == k,
    decreases upto - k,
{
    if k < upto {
        lemma_last_non_ws_at(s, upto - 1, k);
    }
}

/// A sequence without surrounding whitespace is its own trim.
pub proof fn lemma_trim_id(s: Seq<char>)
    requires
        s.len() == 0 || (!is_ws(s[0]) && !is_ws(s[s.len() - 1])),
    ensures
        trim_seq(s) == s,
{
    if s.len() == 0 {
        assert(trim_seq(s) =~= s);
    } else {
        assert(first_non_ws(s, 0) == 0);
        assert(last_non_ws_end(s, s.len() as int) == s.len());
        assert(trim_seq(s) =~= s);
    }
}

/// A nonempty sequence that is its own trim neither starts nor ends with
/// whitespace.
pub proof fn lemma_trim_fixpoint_ends(s: Seq<char>)
    requires
        trim_seq(s) == s,
        s.len() > 0,
    ensures
        !is_ws(s[0]),
        !is_ws(s[s.len() - 1]),
{
    let a = first_non_ws(s, 0);
    let b = last_non_ws_end(s, s.len() as int);
    lemma_last_non_ws_end_le(s, s.len() as int);
    if is_ws(s[0]) {
        lemma_first_non_ws_ge(s, 1);
        assert(a == first_non_ws(s, 1));
        assert(a >= 1);
        if a >= b {
            assert(trim_seq(s).len() == 0);
        } else {
            assert(trim_seq(s).len() == b - a);
            assert(b <= s.len());
            assert(trim_seq(s).len() < s.len());
        }
    }
    if !is_ws(s[0]) && is_ws(s[s.len() - 1]) {
        lemma_last_non_ws_end_le(s, s.len() - 1);
        assert(b == last_non_ws_end(s, s.len() - 1));
        assert(b <= s.len() - 1);
        if a >= b {
            assert(trim_seq(s).len() == 0);
        } else {
            assert(trim_seq(s).len() == b - a);
            assert(trim_seq(s).len() < s.len());
        }
    }
}

/// ASCII upper-case image of one character; characters outside `a`..`z`
/// are unchanged.
pub open spec fn upper_char(c: char) -> char {
    if 'a' <= c && c <= 'z' {
        ((c as u8) - 32) as char
    } else {
        c
    }
}

/// ASCII upper-case image of a character sequence.
pub open spec fn upper_seq(s: Seq<char>) -> Seq<char> {
    Seq::new(s.len(), |i: int| upper_char(s[i]))
}

/// Relies on `String::push` of std, which vstd leaves unspecified:
/// it appends the given character to the string.
#[verifier::external_body]
pub fn push_char(s: &mut String, c: char)
    ensures
        final(s)@ == old(s)@.push(c),
{
    s.push(c)
}

/// The Unicode upper-case image of a character sequence, as
/// `str::to_uppercase` computes it.
pub uninterp spec fn upper_of(s: Seq<char>) -> Seq<char>;

/// Relies on `str::to_uppercase`: the Unicode upper-case image depends
/// on the characters alone, and on ASCII text it coincides with the
/// ASCII upper-case map, as its documentation states.
#[verifier::external_body]
pub fn to_uppercase_str(s: &str) -> (r: String)
    ensures
        r@ == upper_of(s@),
        vstd::utf8::is_ascii_chars(s@) ==> r@ == upper_seq(s@),
{
    s.to_uppercase()
}

/// Character-for-character equality of two string slices.
pub fn str_eq(a: &str, b: &str) -> (r: bool)
    ensures
        r == (a@ == b@),
{
    let na = a.unicode_len();
    let nb = b.unicode_len();
    if na != nb {
        proof {
            assert(a@ != b@);
        }
        return false;
    }
    let mut i: usize = 0;
    while i < na
        invariant
            0 <= i <= na,
            na == a@.len(),
            na == b@.len(),
            forall|j: int| 0 <= j < i ==> a@[j] == b@[j],
        decreases na - i,
    {
        if a.get_char(i) != b.get_char(i) {
            proof {
                assert(a@[i as int] != b@[i as int]);
            }
            return false;
        }
        i = i + 1;
    }
    proof {
        assert(a@ =~= b@);
    }
    true
}

/// `p` is a prefix of `s`.
pub open spec fn has_prefix(s: Seq<char>, p: Seq<char>) -> bool {
    p.len() <= s.len() && s.subrange(0, p.len() as int) == p
}

/// `p` is a suffix of `s`.
pub open spec fn has_suffix(s: Seq<char>, p: Seq<char>) -> bool {
    p.len() <= s.len() && s.subrange(s.len() - p.len(), s.len() as int) == p
}

/// Prefix test against another string slice.
pub fn str_has_prefix(s: &str, p: &str) -> (r: bool)
    ensures
        r == has_prefix(s@, p@),
{
    let ns = s.unicode_len();
    let np = p.unicode_len();
    if np > ns {
        return false;
    }
    let head = s.substring_char(0, np);
    let r = str_eq(head, p);
    proof {
        assert(head@ == s@.subrange(0, p@.len() as int));
    }
    r
}

/// Suffix test against another string slice.
pub fn str_has_suffix(s: &str, p: &str) -> (r: bool)
    ensures
        r == has_suffix(s@, p@),
{
    let ns = s.unicode_len();
    let np = p.unicode_len();
    if np > ns {
        return false;
    }
    let tail = s.substring_char(ns - np, ns);
    let r = str_eq(tail, p);
    proof {
        assert(tail@ == s@.subrange(s@.len() - p@.len(), s@.len() as int));
    }
    r
}

/// Index of the first occurrence of `c` at or after `from`, or `s.len()`
/// if there is none.
pub open spec fn find_char(s: Seq<char>, c: char, from: int) -> int
    decreases s.len() - from,
{
    if from < 0 || from >= s.len() {
        s.len() as int
    } else if s[from] == c {
        from
    } else {
        find_char(s, c, from + 1)
    }
}

/// The found position lies between `from` and `s.len()`, no occurrence of
/// `c` lies before it (at or after `from`), and it carries `c` when it is
/// inside the sequence.
pub proof fn lemma_find_char(s: Seq<char>, c: char, from: int)
    requires
        0 <= from <= s.len(),
    ensures
        from <= find_char(s, c, from) <= s.len(),
        find_char(s, c, from) < s.len() ==> s[find_char(s, c, from)] == c,
        forall|j: int| from <= j < find_char(s, c, from) ==> s[j] != c,
    decreases s.len() - from,
{
    if from < s.len() && s[from] != c {
        lemma_find_char(s, c, from + 1);
    }
}

/// Find the first occurrence of `c` at or after `from`.
pub fn find_char_from(s: &str, c: char, from: usize) -> (r: usize)
    requires
        from <= s@.len(),
    ensures
        r == find_char(s@, c, from as int),
{
    let n = s.unicode_len();
    let mut i: usize = from;
    while i < n
        invariant
            from <= i <= n,
            n == s@.len(),
            find_char(s@, c, from as int) == find_char(s@, c, i as int),
        decreases n - i,
    {
        if s.get_char(i) == c {
            return i;
        }
        i = i + 1;
    }
    n
}

/// Strict lexicographic order on character sequences, compared by code
/// point from position `i` on; a proper prefix sorts first.
pub open spec fn lex_lt_from(a: Seq<char>, b: Seq<char>, i: int) -> bool
    decreases a.len() - i,
{
    if i < 0 {
        false
    } else if i >= a.len() {
        i < b.len()
    } else if i >= b.len() {
        false
    } else if a[i] != b[i] {
        (a[i] as u32) < (b[i] as u32)
    } else {
        lex_lt_from(a, b, i + 1)
    }
}

/// Strict lexicographic order on character sequences.
pub open spec fn lex_lt(a: Seq<char>, b: Seq<char>) -> bool {
    lex_lt_from(a, b, 0)
}

/// Lexicographic order is total: two sequences are ordered one way or the
/// other, or they are equal.
pub proof fn lemma_lex_total(a: Seq<char>, b: Seq<char>)
    ensures
        lex_lt(a, b) || lex_lt(b, a) || a == b,
{
    lemma_lex_total_from(a, b, 0);
}

proof fn lemma_lex_total_from(a: Seq<char>, b: Seq<char>, i: int)
    requires
        0 <= i <= a.len(),
        0 <= i <= b.len(),
        forall|j: int| 0 <= j < i ==> a[j] == b[j],
    ensures
        lex_lt_from(a, b, i) || lex_lt_from(b, a, i) || a == b,
    decreases a.len() - i,
{
    if i < a.len() && i < b.len() && a[i] == b[i] {
        lemma_lex_total_from(a, b, i + 1);
    } else if i < a.len() && i < b.len() {
        vstd::utf8::char_u32_cast(a[i], a[i] as u32);
        vstd::utf8::char_u32_cast(b[i], b[i] as u32);
        assert((a[i] as u32) != (b[i] as u32));
    } else if i == a.len() && i == b.len() {
        assert(a =~= b);
    }
}

/// Lexicographic order is transitive.
pub proof fn lemma_lex_trans(a: Seq<char>, b: Seq<char>, c: Seq<char>)
    requires
        lex_lt(a, b),
        lex_lt(b, c),
    ensures
        lex_lt(a, c),
{
    lemma_lex_trans_from(a, b, c, 0);
}

proof fn lemma_lex_trans_from(a: Seq<char>, b: Seq<char>, c: Seq<char>, i: int)
    requires
        0 <= i,
        lex_lt_from(a, b, i),
        lex_lt_from(b, c, i),
    ensures
        lex_lt_from(a, c, i),
    decreases a.len() - i,
{
    if i < a.len() && i < b.len() && i < c.len() && a[i] == b[i] && b[i] == c[i] {
        lemma_lex_trans_from(a, b, c, i + 1);
    }
}

/// A sequence is never lexicographically below itself.
pub proof fn lemma_lex_irrefl(a: Seq<char>)
    ensures
        !lex_lt(a, a),
{
    lemma_lex_irrefl_from(a, 0);
}

proof fn lemma_lex_irrefl_from(a: Seq<char>, i: int)
    requires
        0 <= i,
    ensures
        !lex_lt_from(a, a, i),
    decreases a.len() - i,
{
    if i < a.len() {
        lemma_lex_irrefl_from(a, i + 1);
    }
}

/// Strict lexicographic comparison of two string slices.
pub fn str_lex_lt(a: &str, b: &str) -> (r: bool)
    ensures
        r == lex_lt(a@, b@),
{
    let na = a.unicode_len();
    let nb = b.unicode_len();
    let mut i: usize = 0;
    loop
        invariant
            0 <= i <= na,
            i <= nb,
            na == a@.len(),
            nb == b@.len(),
            lex_lt(a@, b@) == lex_lt_from(a@, b@, i as int),
        decreases na - i,
    {
        if i >= na {
            return na < nb;
        }
        if i >= nb {
            return false;
        }
        let ca = a.get_char(i);
        let cb = b.get_char(i);
        if ca != cb {
            return (ca as u32) < (cb as u32);
        }
        i = i + 1;
    }
}

} // verus!
