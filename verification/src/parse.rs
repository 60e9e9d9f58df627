//! The line parser and cache reader: one cache line becomes an optional
//! raw flag or a parse error; a whole cache text becomes the ordered
//! sequence of its flags, failing fast on the first bad line.

use vstd::prelude::*;

use crate::model::{CMakeType, RawFlag, RawFlagV, lemma_type_tag_round_trip};
use crate::text::{
    find_char, find_char_from, first_non_ws, has_prefix, last_non_ws_end, lemma_find_char,
    trim_seq, trim_str, str_has_prefix,
};

verus! {

broadcast use vstd::string::group_string_axioms;

/// The usual things that might go wrong when interpreting a blob of CMake
/// cache data.
#[derive(Clone, Copy, Debug, PartialEq, Eq, Structural)]
pub enum ParseError {
    InvalidTypeHint,
    PropertyMissingKeyTypeValueTriple,
    IoFailure,
}

/// A key/type/value delimiter character.
pub open spec fn is_delim(c: char) -> bool {
    c == ':' || c == '='
}

/// Index of the first delimiter at or after `from`, or `s.len()` if there
/// is none.
pub open spec fn find_delim(s: Seq<char>, from: int) -> int
    decreases s.len() - from,
{
    if from < 0 || from >= s.len() {
        s.len() as int
    } else if is_delim(s[from]) {
        from
    } else {
        find_delim(s, from + 1)
    }
}

/// The found position is in range, is the first delimiter position at or
/// after `from`, and carries a delimiter when inside the sequence.
pub proof fn lemma_find_delim(s: Seq<char>, from: int)
    requires
        0 <= from <= s.len(),
    ensures
        from <= find_delim(s, from) <= s.len(),
        find_delim(s, from) < s.len() ==> is_delim(s[find_delim(s, from)]),
        forall|j: int| from <= j < find_delim(s, from) ==> !is_delim(s[j]),
    decreases s.len() - from,
{
    if from < s.len() && !is_delim(s[from]) {
        lemma_find_delim(s, from + 1);
    }
}

/// Find the first delimiter at or after `from`.
fn find_delim_from(s: &str, from: usize) -> (r: usize)
    requires
        from <= s@.len(),
    ensures
        r == find_delim(s@, from as int),
{
    let n = s.unicode_len();
    let mut i: usize = from;
    while i < n
        invariant
            from <= i <= n,
            n == s@.len(),
            find_delim(s@, from as int) == find_delim(s@, i as int),
        decreases n - i,
    {
        let c = s.get_char(i);
        if c == ':' || c == '=' {
            return i;
        }
        i = i + 1;
    }
    n
}

/// What one line of cache text means: nothing (blank or comment line), a
/// raw flag, or a parse failure.
///
/// The line is split at every delimiter occurrence, so a value that
/// itself contains `:` or `=` keeps only its first token and the rest is
/// dropped; this deliberate compatibility behaviour is covered by an
/// explicit test.
pub open spec fn parse_line_spec(l: Seq<char>) -> Result<Option<RawFlagV>, ParseError> {
    let t = trim_seq(l);
    if t.len() == 0 || t[0] == '#' || has_prefix(t, "//"@) {
        Ok(None)
    } else {
        let i1 = find_delim(t, 0);
        let i2 = find_delim(t, i1 + 1);
        if i2 >= t.len() {
            Err(ParseError::PropertyMissingKeyTypeValueTriple)
        } else {
            let i3 = find_delim(t, i2 + 1);
            let tok = trim_seq(t.subrange(i1 + 1, i2));
            match CMakeType::parse_spec(tok) {
                None => Err(ParseError::InvalidTypeHint),
                Some(ct) => Ok(
                    Some(
                        RawFlagV {
                            key: trim_seq(t.subrange(0, i1)),
                            cmake_type: ct,
                            value: trim_seq(t.subrange(i2 + 1, i3)),
                        },
                    ),
                ),
            }
        }
    }
}

/// The executable outcome agrees with the specified outcome.
pub open spec fn line_result_matches(
    r: Result<Option<RawFlag>, ParseError>,
    s: Result<Option<RawFlagV>, ParseError>,
) -> bool {
    match (r, s) {
        (Ok(o1), Ok(o2)) => match (o1, o2) {
            (None, None) => true,
            (Some(f), Some(v)) => f@ == v,
            _ => false,
        },
        (Err(e1), Err(e2)) => e1 == e2,
        _ => false,
    }
}

/// Parse one line of cache text into "not a flag", a raw flag, or a
/// parse failure.
pub fn parse_line(l: &str) -> (r: Result<Option<RawFlag>, ParseError>)
    ensures
        line_result_matches(r, parse_line_spec(l@)),
{
    let trimmed = trim_str(l);
    let t = trimmed.as_str();
    let n = t.unicode_len();
    if n == 0 {
        return Ok(None);
    }
    if t.get_char(0) == '#' {
        return Ok(None);
    }
    if str_has_prefix(t, "//") {
        return Ok(None);
    }
    proof {
        lemma_find_delim(t@, 0);
    }
    let i1 = find_delim_from(t, 0);
    if i1 == n {
        proof {
            assert(find_delim(t@, i1 + 1) == t@.len());
        }
        return Err(ParseError::PropertyMissingKeyTypeValueTriple);
    }
    proof {
        lemma_find_delim(t@, i1 + 1);
    }
    let i2 = find_delim_from(t, i1 + 1);
    if i2 == n {
        return Err(ParseError::PropertyMissingKeyTypeValueTriple);
    }
    proof {
        lemma_find_delim(t@, i2 + 1);
    }
    let i3 = find_delim_from(t, i2 + 1);
    let tok = trim_str(t.substring_char(i1 + 1, i2));
    match CMakeType::parse(tok.as_str()) {
        None => Err(ParseError::InvalidTypeHint),
        Some(ct) => {
            let key = trim_str(t.substring_char(0, i1));
            let value = trim_str(t.substring_char(i2 + 1, i3));
            Ok(Some(RawFlag { key, cmake_type: ct, value }))
        },
    }
}

/// If a delimiter stands at `k` and none stands between `from` and `k`,
/// the search from `from` finds `k`.
proof fn lemma_find_delim_at(s: Seq<char>, from: int, k: int)
    requires
        0 <= from <= k < s.len(),
        is_delim(s[k]),
        forall|j: int| from <= j < k ==> !is_delim(#[trigger] s[j]),
    ensures
        find_delim(s, from) == k,
    decreases k - from,
{
    if from < k {
        lemma_find_delim_at(s, from + 1, k);
    }
}

/// If no delimiter stands at or after `from`, the search finds nothing.
proof fn lemma_find_delim_none(s: Seq<char>, from: int)
    requires
        0 <= from <= s.len(),
        forall|j: int| from <= j < s.len() ==> !is_delim(#[trigger] s[j]),
    ensures
        find_delim(s, from) == s.len(),
{
    lemma_find_delim(s, from);
}

/// The textual token of every type tag is nonempty and free of
/// whitespace and delimiter characters.
proof fn lemma_tag_name_wf(t: CMakeType)
    ensures
        crate::text::trim_seq(t.name_seq()) == t.name_seq(),
        t.name_seq().len() > 0,
        forall|j: int|
            0 <= j < t.name_seq().len() ==> !is_delim(#[trigger] t.name_seq()[j]) && !crate::text::is_ws(
                t.name_seq()[j],
            ),
{
    reveal_strlit("BOOL");
    reveal_strlit("PATH");
    reveal_strlit("FILEPATH");
    reveal_strlit("STRING");
    reveal_strlit("INTERNAL");
    reveal_strlit("STATIC");
    reveal_strlit("UNINITIALIZED");
    let name = t.name_seq();
    assert forall|j: int| 0 <= j < name.len() implies !is_delim(#[trigger] name[j])
        && !crate::text::is_ws(name[j]) by {
        match t {
            CMakeType::Bool => {
                assert(name =~= "BOOL"@);
            },
            CMakeType::Path => {
                assert(name =~= "PATH"@);
            },
            CMakeType::FilePath => {
                assert(name =~= "FILEPATH"@);
            },
            CMakeType::String => {
                assert(name =~= "STRING"@);
            },
            CMakeType::Internal => {
                assert(name =~= "INTERNAL"@);
            },
            CMakeType::Static => {
                assert(name =~= "STATIC"@);
            },
            CMakeType::Uninitialized => {
                assert(name =~= "UNINITIALIZED"@);
            },
        }
    }
    crate::text::lemma_trim_id(name);
}

/// Parsing is the inverse of writing a flag out: a line written as
/// `key:TYPE=value` parses back to exactly the flag whose key and value
/// are the trimmed key and value, provided neither contains a delimiter
/// character and the trimmed key is nonempty and opens no comment.
pub proof fn lemma_parse_line_round_trip(key: Seq<char>, t: CMakeType, value: Seq<char>)
    requires
        forall|j: int| 0 <= j < key.len() ==> !is_delim(#[trigger] key[j]),
        forall|j: int| 0 <= j < value.len() ==> !is_delim(#[trigger] value[j]),
        trim_seq(key).len() > 0,
        trim_seq(key)[0] != '#',
        !(trim_seq(key).len() >= 2 && trim_seq(key)[0] == '/' && trim_seq(key)[1] == '/'),
    ensures
        parse_line_spec(key + seq![':'] + t.name_seq() + seq!['='] + value) == Ok::<
            Option<RawFlagV>,
            ParseError,
        >(Some(RawFlagV { key: trim_seq(key), cmake_type: t, value: trim_seq(value) })),
{
    lemma_tag_name_wf(t);
    let name = t.name_seq();
    let line = key + seq![':'] + name + seq!['='] + value;
    let kl = key.len() as int;
    let nl = name.len() as int;
    let vl = value.len() as int;
    let ll = line.len() as int;
    assert(ll == kl + 1 + nl + 1 + vl);
    assert(forall|j: int| 0 <= j < kl ==> line[j] == key[j]);
    assert(line[kl] == ':');
    assert(forall|j: int| kl + 1 <= j < kl + 1 + nl ==> line[j] == name[j - (kl + 1)]);
    assert(line[kl + 1 + nl] == '=');
    assert(forall|j: int| kl + nl + 2 <= j < ll ==> line[j] == value[j - (kl + nl + 2)]);

    // Where the key's and value's content stands inside them.
    let ak = first_non_ws(key, 0);
    let bk = last_non_ws_end(key, kl);
    crate::text::lemma_first_non_ws(key, 0);
    crate::text::lemma_last_non_ws(key, kl);
    assert(ak < bk) by {
        if ak >= bk {
            assert(trim_seq(key).len() == 0);
        }
    }
    assert(trim_seq(key) =~= key.subrange(ak, bk));
    let av = first_non_ws(value, 0);
    let bv = last_non_ws_end(value, vl);
    crate::text::lemma_first_non_ws(value, 0);
    crate::text::lemma_last_non_ws(value, vl);

    // Trimming the line strips exactly the key's leading and the value's
    // trailing whitespace.
    crate::text::lemma_first_non_ws_at(line, 0, ak);
    let lb = if bv > 0 {
        kl + nl + 2 + bv
    } else {
        kl + nl + 2
    };
    if bv > 0 {
        assert(line[lb - 1] == value[bv - 1]);
        crate::text::lemma_last_non_ws_at(line, ll, lb);
    } else {
        assert(line[lb - 1] == '=');
        crate::text::lemma_last_non_ws_at(line, ll, lb);
    }
    let trimmed = trim_seq(line);
    assert(trimmed =~= line.subrange(ak, lb));
    let tn = lb - ak;
    assert(forall|j: int| 0 <= j < tn ==> trimmed[j] == line[ak + j]);

    // The trimmed line is nonempty and no comment.
    assert(trimmed.len() > 0);
    assert(trimmed[0] == key[ak]);
    assert(trimmed[0] == trim_seq(key)[0]);
    assert(trimmed[0] != '#');
    reveal_strlit("//");
    assert("//"@.len() == 2);
    assert("//"@[0] == '/' && "//"@[1] == '/');
    if has_prefix(trimmed, "//"@) {
        assert(trimmed.subrange(0, 2)[0] == trimmed[0]);
        assert(trimmed.subrange(0, 2)[1] == trimmed[1]);
        assert(trimmed[0] == '/' && trimmed[1] == '/');
        if ak + 1 < bk {
            assert(trimmed[1] == key[ak + 1]);
            assert(trim_seq(key)[1] == key[ak + 1]);
            assert(false);
        } else if ak + 1 < kl {
            assert(trimmed[1] == key[ak + 1]);
            assert(crate::text::is_ws(key[ak + 1]));
            assert(!crate::text::is_ws('/'));
            assert(false);
        } else {
            assert(trimmed[1] == line[kl]);
            assert(false);
        }
    }

    // The delimiters stand exactly at the two joints, and nowhere after.
    assert(forall|j: int| 0 <= j < kl - ak ==> trimmed[j] == key[ak + j]);
    assert(trimmed[kl - ak] == ':');
    lemma_find_delim_at(trimmed, 0, kl - ak);
    assert(forall|j: int|
        kl - ak + 1 <= j < kl + 1 + nl - ak ==> trimmed[j] == name[j - (kl - ak + 1)]);
    assert(trimmed[kl + 1 + nl - ak] == '=');
    lemma_find_delim_at(trimmed, kl - ak + 1, kl + 1 + nl - ak);
    assert(forall|j: int| kl + nl + 2 - ak <= j < tn ==> trimmed[j] == value[j - (kl + nl + 2
        - ak)]);
    lemma_find_delim_none(trimmed, kl + nl + 2 - ak);
    let i1 = find_delim(trimmed, 0);
    let i2 = find_delim(trimmed, i1 + 1);
    let i3 = find_delim(trimmed, i2 + 1);
    assert(i1 == kl - ak);
    assert(i2 == kl + 1 + nl - ak);
    assert(i2 < tn);
    assert(i3 == tn);

    // The key token trims to the trimmed key.
    let token0 = trimmed.subrange(0, i1);
    assert(token0 =~= key.subrange(ak, kl));
    crate::text::lemma_first_non_ws_at(token0, 0, 0);
    crate::text::lemma_last_non_ws_at(token0, kl - ak, bk - ak);
    assert(trim_seq(token0) =~= token0.subrange(0, bk - ak));
    assert(trim_seq(token0) =~= trim_seq(key));

    // The type token is the tag's name, which trims to itself.
    let token1 = trimmed.subrange(i1 + 1, i2);
    assert(token1 =~= name);
    lemma_type_tag_round_trip(t);
    assert(CMakeType::parse_spec(trim_seq(token1)) == Some(t));

    // The value token trims to the trimmed value.
    let token2 = trimmed.subrange(i2 + 1, i3);
    if bv > 0 {
        assert(token2 =~= value.subrange(0, bv));
        assert(av < bv) by {
            if av >= bv {
                assert(crate::text::is_ws(value[av]));
            }
        }
        crate::text::lemma_first_non_ws_at(token2, 0, av);
        crate::text::lemma_last_non_ws_at(token2, bv, bv);
        assert(trim_seq(token2) =~= token2.subrange(av, bv));
        assert(trim_seq(value) =~= value.subrange(av, bv));
        assert(trim_seq(token2) =~= trim_seq(value));
    } else {
        assert(token2 =~= Seq::<char>::empty());
        assert(trim_seq(token2) =~= Seq::<char>::empty());
        assert(av >= bv);
        assert(trim_seq(value) =~= Seq::<char>::empty());
    }
}

/// A line with a trailing carriage return removed, as a buffered reader
/// does for lines that ended in a CR-LF pair.
pub open spec fn strip_cr(l: Seq<char>) -> Seq<char> {
    if l.len() > 0 && l[l.len() - 1] == '\r' {
        l.subrange(0, l.len() - 1)
    } else {
        l
    }
}

/// The lines of `s` from position `pos` on: text is split at every line
/// feed, a carriage return directly before a line feed is dropped, and a
/// final fragment without a line feed is a line of its own.
pub open spec fn lines_from(s: Seq<char>, pos: int) -> Seq<Seq<char>>
    decreases s.len() - pos,
    via lines_from_decreases
{
    if pos < 0 || pos >= s.len() {
        Seq::empty()
    } else {
        let j = find_char(s, '\n', pos);
        if j >= s.len() {
            seq![s.subrange(pos, s.len() as int)]
        } else {
            seq![strip_cr(s.subrange(pos, j))] + lines_from(s, j + 1)
        }
    }
}

#[via_fn]
proof fn lines_from_decreases(s: Seq<char>, pos: int) {
    if 0 <= pos < s.len() {
        lemma_find_char(s, '\n', pos);
    }
}

/// The lines of a whole cache text.
pub open spec fn cache_lines(s: Seq<char>) -> Seq<Seq<char>> {
    lines_from(s, 0)
}

/// The flags of the given lines in source order, or the first parse
/// failure.
pub open spec fn parse_lines_spec(ls: Seq<Seq<char>>) -> Result<Seq<RawFlagV>, ParseError>
    decreases ls.len(),
{
    if ls.len() == 0 {
        Ok(Seq::empty())
    } else {
        match parse_line_spec(ls[0]) {
            Err(e) => Err(e),
            Ok(head) => match parse_lines_spec(ls.drop_first()) {
                Err(e) => Err(e),
                Ok(rest) => Ok(
                    match head {
                        Some(f) => seq![f] + rest,
                        None => rest,
                    },
                ),
            },
        }
    }
}

/// The mathematical image of a flag vector.
pub open spec fn raw_views(s: Seq<RawFlag>) -> Seq<RawFlagV> {
    Seq::new(s.len(), |i: int| s[i]@)
}

/// The executable outcome of reading a whole cache agrees with the
/// specified outcome.
pub open spec fn cache_result_matches(
    r: Result<Vec<RawFlag>, ParseError>,
    s: Result<Seq<RawFlagV>, ParseError>,
) -> bool {
    match (r, s) {
        (Ok(v), Ok(fs)) => raw_views(v@) == fs,
        (Err(e1), Err(e2)) => e1 == e2,
        _ => false,
    }
}

/// Read a whole cache text: every line is parsed in order, flags are
/// collected in source order, and the first parse failure aborts the
/// whole read with no partial result.
pub fn parse_raw(content: &str) -> (r: Result<Vec<RawFlag>, ParseError>)
    ensures
        cache_result_matches(r, parse_lines_spec(cache_lines(content@))),
{
    let n = content.unicode_len();
    let mut v: Vec<RawFlag> = Vec::new();
    let mut pos: usize = 0;
    loop
        invariant
            0 <= pos <= n,
            n == content@.len(),
            ({
                let full = parse_lines_spec(cache_lines(content@));
                match parse_lines_spec(lines_from(content@, pos as int)) {
                    Ok(rest) => full == Ok::<Seq<RawFlagV>, ParseError>(raw_views(v@) + rest),
                    Err(e) => full == Err::<Seq<RawFlagV>, ParseError>(e),
                }
            }),
        decreases n - pos,
    {
        if pos >= n {
            proof {
                assert(lines_from(content@, pos as int) =~= Seq::<Seq<char>>::empty());
                assert(raw_views(v@) + Seq::<RawFlagV>::empty() =~= raw_views(v@));
            }
            return Ok(v);
        }
        proof {
            lemma_find_char(content@, '\n', pos as int);
        }
        let j = find_char_from(content, '\n', pos);
        let line_end: usize = if j < n && j > pos && content.get_char(j - 1) == '\r' {
            j - 1
        } else {
            j
        };
        let line = content.substring_char(pos, line_end);
        let ghost cur: Seq<char> = if j == n {
            content@.subrange(pos as int, n as int)
        } else {
            strip_cr(content@.subrange(pos as int, j as int))
        };
        proof {
            if j < n {
                let sub = content@.subrange(pos as int, j as int);
                if sub.len() > 0 && sub[sub.len() - 1] == '\r' {
                    assert(strip_cr(sub) =~= content@.subrange(pos as int, j - 1));
                } else {
                    assert(strip_cr(sub) =~= sub);
                }
            }
            assert(line@ == cur);
            let ls = lines_from(content@, pos as int);
            if j == n {
                assert(ls =~= seq![cur]);
                assert(ls.drop_first() =~= Seq::<Seq<char>>::empty());
            } else {
                assert(ls =~= seq![cur] + lines_from(content@, j + 1));
                assert(ls.drop_first() =~= lines_from(content@, j + 1));
            }
            assert(ls[0] == cur);
        }
        let res = parse_line(line);
        match res {
            Err(e) => {
                return Err(e);
            },
            Ok(opt) => {
                let ghost old_views = raw_views(v@);
                match opt {
                    Some(f) => {
                        let ghost fv = f@;
                        v.push(f);
                        proof {
                            assert(raw_views(v@) =~= old_views + seq![fv]);
                        }
                    },
                    None => {},
                }
                proof {
                    if j < n {
                        let rest_spec = parse_lines_spec(lines_from(content@, j + 1));
                        match rest_spec {
                            Ok(rest) => {
                                assert(old_views + (match opt {
                                    Some(f) => seq![f@] + rest,
                                    None => rest,
                                }) =~= raw_views(v@) + rest);
                            },
                            Err(_) => {},
                        }
                    } else {
                        assert(old_views + (match opt {
                            Some(f) => seq![f@] + Seq::<RawFlagV>::empty(),
                            None => Seq::<RawFlagV>::empty(),
                        }) =~= raw_views(v@) + Seq::<RawFlagV>::empty());
                        assert(lines_from(content@, n as int) =~= Seq::<Seq<char>>::empty());
                    }
                }
                if j == n {
                    pos = n;
                } else {
                    pos = j + 1;
                }
            },
        }
    }
}

} // verus!
