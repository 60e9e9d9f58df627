//! Filtering, ordering and emission: narrow a cache's flags to the
//! interesting ones in a deterministic order, write one declaration per
//! flag while rejecting duplicate identifiers, and extract the sorted
//! identifiers of the truthy boolean flags.

use vstd::prelude::*;

use crate::codegen::{GenerationErrorV, RustCodeGenerationError, generate_spec, valid_identifier, is_valid_rust_identifier};
use crate::model::{CMakeType, RawFlag, RawFlagV, SimpleFlag, SimpleFlagV, Key};
use crate::parse::{ParseError, parse_raw, parse_lines_spec, cache_lines, raw_views};
use crate::text::{has_prefix, lex_lt, lemma_lex_total, lemma_lex_trans, lemma_lex_irrefl, str_eq, str_lex_lt, str_has_prefix, push_char};

verus! {

broadcast use vstd::string::group_string_axioms;

/// What can go wrong on the way from cache text to emitted declarations.
#[derive(Clone, Debug, PartialEq, Eq)]
pub enum CMakeCodegenError {
    ParseError(ParseError),
    GenerationError(RustCodeGenerationError),
    DuplicateIdentifiers(String),
    WriteIoError,
}

/// Mathematical image of a [`CMakeCodegenError`].
pub enum CodegenErrorV {
    Parse(ParseError),
    Generation(GenerationErrorV),
    Duplicate(Seq<char>),
    WriteIo,
}

impl View for CMakeCodegenError {
    type V = CodegenErrorV;

    open spec fn view(&self) -> CodegenErrorV {
        match self {
            CMakeCodegenError::ParseError(p) => CodegenErrorV::Parse(*p),
            CMakeCodegenError::GenerationError(g) => CodegenErrorV::Generation(g@),
            CMakeCodegenError::DuplicateIdentifiers(s) => CodegenErrorV::Duplicate(s@),
            CMakeCodegenError::WriteIoError => CodegenErrorV::WriteIo,
        }
    }
}

/// The rank a type tag sorts by, following the declaration order of the
/// closed tag set.
pub open spec fn type_rank(t: CMakeType) -> int {
    match t {
        CMakeType::Bool => 0,
        CMakeType::Path => 1,
        CMakeType::FilePath => 2,
        CMakeType::String => 3,
        CMakeType::Internal => 4,
        CMakeType::Static => 5,
        CMakeType::Uninitialized => 6,
    }
}

/// Rank of a type tag, usable from executable code.
fn type_rank_exec(t: CMakeType) -> (r: u8)
    ensures
        r as int == type_rank(t),
{
    match t {
        CMakeType::Bool => 0,
        CMakeType::Path => 1,
        CMakeType::FilePath => 2,
        CMakeType::String => 3,
        CMakeType::Internal => 4,
        CMakeType::Static => 5,
        CMakeType::Uninitialized => 6,
    }
}

/// The deterministic total order on raw flags: by key, then type tag,
/// then value, ascending.
pub open spec fn flag_le(a: RawFlagV, b: RawFlagV) -> bool {
    if a.key != b.key {
        lex_lt(a.key, b.key)
    } else if a.cmake_type != b.cmake_type {
        type_rank(a.cmake_type) < type_rank(b.cmake_type)
    } else {
        a.value == b.value || lex_lt(a.value, b.value)
    }
}

/// The flag order relates every pair of flags one way or the other.
pub proof fn lemma_flag_le_total(a: RawFlagV, b: RawFlagV)
    ensures
        flag_le(a, b) || flag_le(b, a),
{
    lemma_lex_total(a.key, b.key);
    lemma_lex_total(a.value, b.value);
}

/// The flag order is transitive.
pub proof fn lemma_flag_le_trans(a: RawFlagV, b: RawFlagV, c: RawFlagV)
    requires
        flag_le(a, b),
        flag_le(b, c),
    ensures
        flag_le(a, c),
{
    if a.key != b.key && b.key != c.key {
        lemma_lex_trans(a.key, b.key, c.key);
        if a.key == c.key {
            lemma_lex_irrefl(a.key);
        }
    } else if a.key == b.key && b.key == c.key {
        if a.cmake_type == b.cmake_type && b.cmake_type == c.cmake_type {
            if a.value != b.value && b.value != c.value && a.value != c.value {
                lemma_lex_trans(a.value, b.value, c.value);
            } else if a.value != b.value && b.value != c.value && a.value == c.value {
                lemma_lex_trans(a.value, b.value, c.value);
                lemma_lex_irrefl(a.value);
            }
        }
    } else if a.key != b.key && b.key == c.key {
        assert(a.key != c.key);
    } else {
        assert(b.key != c.key && a.key == b.key);
        assert(a.key != c.key);
    }
}

/// Order test on two flags.
fn flag_le_exec(a: &RawFlag, b: &RawFlag) -> (r: bool)
    ensures
        r == flag_le(a@, b@),
{
    if !str_eq(a.key.as_str(), b.key.as_str()) {
        str_lex_lt(a.key.as_str(), b.key.as_str())
    } else {
        let ra = type_rank_exec(a.cmake_type);
        let rb = type_rank_exec(b.cmake_type);
        if ra != rb {
            ra < rb
        } else {
            proof {
                assert(a@.cmake_type == b@.cmake_type);
            }
            if str_eq(a.value.as_str(), b.value.as_str()) {
                true
            } else {
                str_lex_lt(a.value.as_str(), b.value.as_str())
            }
        }
    }
}

/// The sequence is sorted under the flag order.
pub open spec fn sorted_flags(s: Seq<RawFlagV>) -> bool {
    forall|i: int, j: int| 0 <= i < j < s.len() ==> flag_le(s[i], s[j])
}

/// Sort flags into the deterministic flag order. The result is a sorted
/// rearrangement of the input.
fn sort_flags(flags: Vec<RawFlag>) -> (r: Vec<RawFlag>)
    ensures
        sorted_flags(raw_views(r@)),
        raw_views(r@).to_multiset() == raw_views(flags@).to_multiset(),
{
    broadcast use vstd::seq_lib::to_multiset_build, vstd::seq_lib::to_multiset_insert;

    let n = flags.len();
    let mut out: Vec<RawFlag> = Vec::new();
    proof {
        assert(raw_views(out@) =~= raw_views(flags@.subrange(0, 0)));
    }
    let mut i: usize = 0;
    while i < n
        invariant
            0 <= i <= n,
            n == flags@.len(),
            sorted_flags(raw_views(out@)),
            raw_views(out@).to_multiset() == raw_views(flags@.subrange(0, i as int)).to_multiset(),
        decreases n - i,
    {
        let x = flags[i].clone();
        proof {
            assert(x@ == flags@[i as int]@);
        }
        let m = out.len();
        let mut idx: usize = 0;
        while idx < m && flag_le_exec(&out[idx], &x)
            invariant
                0 <= idx <= m,
                m == out@.len(),
                forall|k: int| 0 <= k < idx ==> flag_le(raw_views(out@)[k], x@),
            decreases m - idx,
        {
            idx = idx + 1;
        }
        proof {
            if idx < m {
                assert(!flag_le(raw_views(out@)[idx as int], x@));
                lemma_flag_le_total(raw_views(out@)[idx as int], x@);
            }
        }
        let ghost old_out = out@;
        let ghost old_prefix = raw_views(flags@.subrange(0, i as int));
        out.insert(idx, x);
        proof {
            assert(raw_views(out@) =~= raw_views(old_out).insert(idx as int, x@));
            assert forall|p: int, q: int| 0 <= p < q < raw_views(out@).len() implies flag_le(
                raw_views(out@)[p],
                raw_views(out@)[q],
            ) by {
                let s = raw_views(old_out);
                let t = raw_views(out@);
                if p < idx && q < idx {
                    assert(t[p] == s[p] && t[q] == s[q]);
                } else if p < idx && q == idx {
                    assert(t[p] == s[p] && t[q] == x@);
                } else if p < idx && q > idx {
                    assert(t[p] == s[p] && t[q] == s[q - 1]);
                } else if p == idx && q > idx {
                    assert(t[p] == x@ && t[q] == s[q - 1]);
                    assert(!flag_le(s[idx as int], x@));
                    lemma_flag_le_total(s[idx as int], x@);
                    if q - 1 > idx {
                        lemma_flag_le_trans(x@, s[idx as int], s[q - 1]);
                    }
                } else {
                    assert(p > idx && q > idx);
                    assert(t[p] == s[p - 1] && t[q] == s[q - 1]);
                }
            }
            vstd::seq_lib::to_multiset_insert(raw_views(old_out), idx as int, x@);
            vstd::seq_lib::to_multiset_build(old_prefix, x@);
            let ins = raw_views(old_out).insert(idx as int, x@);
            assert(ins.to_multiset() == raw_views(old_out).to_multiset().insert(x@));
            assert(raw_views(out@).to_multiset() == raw_views(old_out).to_multiset().insert(x@));
            assert(raw_views(flags@.subrange(0, i + 1)) =~= old_prefix.push(flags@[i as int]@));
            assert(old_prefix.push(x@).to_multiset() =~= old_prefix.to_multiset().insert(x@));
            assert(raw_views(out@).to_multiset() == raw_views(flags@.subrange(0, i + 1)).to_multiset());
        }
        i = i + 1;
    }
    proof {
        assert(flags@.subrange(0, n as int) =~= flags@);
    }
    out
}

/// A flag worth exposing: its type is `Bool` or `String` and its key does
/// not start with the reserved `CMAKE_` prefix.
pub open spec fn keep_flag(f: RawFlagV) -> bool {
    (f.cmake_type == CMakeType::String || f.cmake_type == CMakeType::Bool) && !has_prefix(
        f.key,
        "CMAKE_"@,
    )
}

/// The subsequence of flags worth exposing, in input order.
pub open spec fn interesting_of(s: Seq<RawFlagV>) -> Seq<RawFlagV>
    decreases s.len(),
{
    if s.len() == 0 {
        Seq::empty()
    } else {
        interesting_of(s.drop_last()) + (if keep_flag(s.last()) {
            seq![s.last()]
        } else {
            Seq::empty()
        })
    }
}

/// Every flag selected by [`interesting_of`] satisfies [`keep_flag`].
pub proof fn lemma_interesting_all_kept(s: Seq<RawFlagV>)
    ensures
        forall|i: int| 0 <= i < interesting_of(s).len() ==> keep_flag(#[trigger] interesting_of(s)[i]),
    decreases s.len(),
{
    if s.len() > 0 {
        lemma_interesting_all_kept(s.drop_last());
        let pre = interesting_of(s.drop_last());
        assert forall|i: int| 0 <= i < interesting_of(s).len() implies keep_flag(
            #[trigger] interesting_of(s)[i],
        ) by {
            if i < pre.len() {
                assert(interesting_of(s)[i] == pre[i]);
            } else {
                assert(keep_flag(s.last()));
                assert(interesting_of(s)[i] == s.last());
            }
        }
    }
}

/// Narrow a cache's flags to the `Bool`- and `String`-typed ones outside
/// the reserved `CMAKE_` namespace, sorted into the deterministic flag
/// order. No returned flag has a reserved key or another type.
pub fn filter_to_interesting_flags(flags: Vec<RawFlag>) -> (r: Vec<RawFlag>)
    ensures
        sorted_flags(raw_views(r@)),
        raw_views(r@).to_multiset() == interesting_of(raw_views(flags@)).to_multiset(),
        forall|i: int| 0 <= i < r@.len() ==> keep_flag(#[trigger] raw_views(r@)[i]),
{
    broadcast use vstd::seq_lib::to_multiset_build;

    let n = flags.len();
    let mut kept: Vec<RawFlag> = Vec::new();
    proof {
        assert(raw_views(kept@) =~= interesting_of(raw_views(flags@.subrange(0, 0))));
    }
    let mut i: usize = 0;
    while i < n
        invariant
            0 <= i <= n,
            n == flags@.len(),
            raw_views(kept@) == interesting_of(raw_views(flags@.subrange(0, i as int))),
        decreases n - i,
    {
        let f = &flags[i];
        let keep = (f.cmake_type == CMakeType::String || f.cmake_type == CMakeType::Bool)
            && !str_has_prefix(f.key.as_str(), "CMAKE_");
        let ghost old_views = raw_views(kept@);
        if keep {
            let copy = f.clone();
            proof {
                assert(copy@ == flags@[i as int]@);
            }
            kept.push(copy);
        }
        proof {
            let pv = raw_views(flags@.subrange(0, i + 1));
            assert(raw_views(flags@.subrange(0, i + 1)).drop_last() =~= raw_views(
                flags@.subrange(0, i as int),
            ));
            assert(pv.last() == flags@[i as int]@);
            if keep {
                assert(raw_views(kept@) =~= old_views + seq![flags@[i as int]@]);
            } else {
                assert(raw_views(kept@) =~= old_views + Seq::<RawFlagV>::empty());
            }
            assert(raw_views(kept@) == interesting_of(raw_views(flags@.subrange(0, i + 1))));
        }
        i = i + 1;
    }
    proof {
        assert(flags@.subrange(0, n as int) =~= flags@);
        lemma_interesting_all_kept(raw_views(flags@));
    }
    let r = sort_flags(kept);
    proof {
        broadcast use vstd::seq_lib::to_multiset_contains;

        assert forall|i: int| 0 <= i < r@.len() implies keep_flag(#[trigger] raw_views(r@)[i]) by {
            let views = raw_views(r@);
            assert(views.to_multiset().contains(views[i]));
            assert(interesting_of(raw_views(flags@)).contains(views[i]));
        }
    }
    r
}

/// The executable outcome of reducing a whole cache text agrees with the
/// specified parse outcome: a parse failure carries over unchanged, and a
/// successful parse yields the interesting flags sorted into the flag
/// order.
pub open spec fn interesting_result_matches(
    r: Result<Vec<RawFlag>, CMakeCodegenError>,
    parsed: Result<Seq<RawFlagV>, ParseError>,
) -> bool {
    match (r, parsed) {
        (Ok(v), Ok(fs)) => {
            &&& sorted_flags(raw_views(v@))
            &&& raw_views(v@).to_multiset() == interesting_of(fs).to_multiset()
            &&& forall|i: int| 0 <= i < v@.len() ==> keep_flag(#[trigger] raw_views(v@)[i])
        },
        (Err(e), Err(p)) => e@ matches CodegenErrorV::Parse(q) && q == p,
        _ => false,
    }
}

/// Reduce a whole cache text to its interesting flags, sorted into the
/// deterministic flag order; fail on the first unparsable line.
pub fn cache_to_interesting_flags(content: &str) -> (r: Result<Vec<RawFlag>, CMakeCodegenError>)
    ensures
        interesting_result_matches(r, parse_lines_spec(cache_lines(content@))),
{
    match parse_raw(content) {
        Err(e) => Err(CMakeCodegenError::ParseError(e)),
        Ok(all_flags) => Ok(filter_to_interesting_flags(all_flags)),
    }
}

/// The mathematical image of a summarized flag vector.
pub open spec fn simple_views(s: Seq<SimpleFlag>) -> Seq<SimpleFlagV> {
    Seq::new(s.len(), |i: int| s[i]@)
}

/// The mathematical image of a string vector.
pub open spec fn string_views(s: Seq<String>) -> Seq<Seq<char>> {
    Seq::new(s.len(), |i: int| s[i]@)
}

/// `n` spaces of indentation.
pub open spec fn indent_seq(n: nat) -> Seq<char> {
    Seq::new(n, |i: int| ' ')
}

/// Build `n` spaces of indentation.
fn spaces(n: usize) -> (r: String)
    ensures
        r@ == indent_seq(n as nat),
{
    let mut r = String::new();
    let mut k: usize = 0;
    while k < n
        invariant
            0 <= k <= n,
            r@ == indent_seq(k as nat),
        decreases n - k,
    {
        push_char(&mut r, ' ');
        proof {
            assert(r@ =~= indent_seq((k + 1) as nat));
        }
        k = k + 1;
    }
    r
}

/// Membership of a string among those seen so far.
fn contains_str(v: &Vec<String>, s: &str) -> (r: bool)
    ensures
        r == string_views(v@).contains(s@),
{
    let n = v.len();
    let mut i: usize = 0;
    while i < n
        invariant
            0 <= i <= n,
            n == v@.len(),
            forall|j: int| 0 <= j < i ==> string_views(v@)[j] != s@,
        decreases n - i,
    {
        if str_eq(v[i].as_str(), s) {
            proof {
                assert(string_views(v@)[i as int] == s@);
            }
            return true;
        }
        i = i + 1;
    }
    proof {
        assert(!string_views(v@).contains(s@));
    }
    false
}

/// What the writer leaves behind for a flag sequence, given the
/// identifiers already seen: on the first generation failure or repeated
/// identifier the error, together with the text of all lines written
/// before the failing flag; otherwise one indented declaration line per
/// flag.
pub open spec fn write_flags_spec(
    flags: Seq<SimpleFlagV>,
    seen: Seq<Seq<char>>,
    indent: nat,
) -> (Result<(), CodegenErrorV>, Seq<char>)
    decreases flags.len(),
{
    if flags.len() == 0 {
        (Ok(()), Seq::empty())
    } else {
        match generate_spec(flags[0]) {
            Err(e) => (Err(CodegenErrorV::Generation(e)), Seq::empty()),
            Ok(item) => if seen.contains(item.identifier) {
                (Err(CodegenErrorV::Duplicate(item.identifier)), Seq::empty())
            } else {
                let rest = write_flags_spec(
                    flags.drop_first(),
                    seen.push(item.identifier),
                    indent,
                );
                (rest.0, indent_seq(indent) + item.code + seq!['\n'] + rest.1)
            },
        }
    }
}

/// Equality of an executable error and a specified one.
pub open spec fn codegen_err_matches(e: CMakeCodegenError, v: CodegenErrorV) -> bool {
    match (e@, v) {
        (CodegenErrorV::Parse(a), CodegenErrorV::Parse(b)) => a == b,
        (CodegenErrorV::Generation(a), CodegenErrorV::Generation(b)) => match (a, b) {
            (
                GenerationErrorV::InvalidIdentifier(x),
                GenerationErrorV::InvalidIdentifier(y),
            ) => x == y,
            (
                GenerationErrorV::InvalidStringLiteral(x),
                GenerationErrorV::InvalidStringLiteral(y),
            ) => x == y,
            _ => false,
        },
        (CodegenErrorV::Duplicate(a), CodegenErrorV::Duplicate(b)) => a == b,
        (CodegenErrorV::WriteIo, CodegenErrorV::WriteIo) => true,
        _ => false,
    }
}

/// Generate each flag's declaration in order and append it to the sink,
/// each line prefixed by the given indentation; abort on the first
/// generation failure or the first repeated identifier, leaving exactly
/// the lines written before the failing flag in the sink.
pub fn simple_flags_to_rust_writer(
    flags: &[SimpleFlag],
    writer: &mut String,
    indent_spaces: usize,
) -> (r: Result<(), CMakeCodegenError>)
    ensures
        ({
            let out = write_flags_spec(simple_views(flags@), Seq::empty(), indent_spaces as nat);
            &&& final(writer)@ == old(writer)@ + out.1
            &&& match (r, out.0) {
                (Ok(u), Ok(w)) => true,
                (Err(e), Err(v)) => codegen_err_matches(e, v),
                _ => false,
            }
        }),
{
    let ghost all = simple_views(flags@);
    let ghost base = writer@;
    let ghost ind_n = indent_spaces as nat;
    let ind = spaces(indent_spaces);
    let mut seen: Vec<String> = Vec::new();
    let n = flags.len();
    proof {
        assert(all.subrange(0, n as int) =~= all);
        assert(string_views(seen@) =~= Seq::<Seq<char>>::empty());
        assert(base + Seq::<char>::empty() =~= base);
    }
    let ghost mut acc = Seq::<char>::empty();
    let mut i: usize = 0;
    while i < n
        invariant
            0 <= i <= n,
            n == all.len(),
            all == simple_views(flags@),
            ind@ == indent_seq(ind_n),
            ind_n == indent_spaces as nat,
            base == old(writer)@,
            writer@ == base + acc,
            ({
                let full = write_flags_spec(all, Seq::empty(), ind_n);
                let rest = write_flags_spec(
                    all.subrange(i as int, n as int),
                    string_views(seen@),
                    ind_n,
                );
                full.0 == rest.0 && full.1 == acc + rest.1
            }),
        decreases n - i,
    {
        let ghost suffix = all.subrange(i as int, n as int);
        proof {
            assert(suffix[0] == all[i as int]);
            assert(suffix.drop_first() =~= all.subrange(i + 1, n as int));
        }
        let item_result = flags[i].generate_rust_const_item();
        match item_result {
            Err(e) => {
                proof {
                    let rest = write_flags_spec(suffix, string_views(seen@), ind_n);
                    assert(rest.1 =~= Seq::<char>::empty());
                    assert(acc + Seq::<char>::empty() =~= acc);
                }
                return Err(CMakeCodegenError::GenerationError(e));
            },
            Ok(item) => {
                let is_dup = contains_str(&seen, item.identifier.as_str());
                if is_dup {
                    proof {
                        let rest = write_flags_spec(suffix, string_views(seen@), ind_n);
                        assert(rest.1 =~= Seq::<char>::empty());
                        assert(acc + Seq::<char>::empty() =~= acc);
                    }
                    return Err(CMakeCodegenError::DuplicateIdentifiers(item.identifier));
                }
                writer.append(ind.as_str());
                writer.append(item.code.as_str());
                push_char(writer, '\n');
                let ghost old_seen = string_views(seen@);
                let ghost idv = item.identifier@;
                let ghost codev = item.code@;
                seen.push(item.identifier);
                proof {
                    assert(string_views(seen@) =~= old_seen.push(idv));
                    let line = indent_seq(ind_n) + codev + seq!['\n'];
                    assert(writer@ =~= base + (acc + line));
                    let rest = write_flags_spec(suffix, old_seen, ind_n);
                    let rest2 = write_flags_spec(
                        all.subrange(i + 1, n as int),
                        old_seen.push(idv),
                        ind_n,
                    );
                    assert(rest.0 == rest2.0);
                    assert(rest.1 == line + rest2.1);
                    assert(acc + rest.1 =~= (acc + line) + rest2.1);
                    acc = acc + line;
                }
                i = i + 1;
            },
        }
    }
    proof {
        let rest = write_flags_spec(all.subrange(n as int, n as int), string_views(seen@), ind_n);
        assert(all.subrange(n as int, n as int).len() == 0);
        assert(rest.1 =~= Seq::<char>::empty());
        assert(acc + Seq::<char>::empty() =~= acc);
    }
    Ok(())
}

/// The key a flag declares.
pub open spec fn flag_key(f: SimpleFlagV) -> Seq<char> {
    match f {
        SimpleFlagV::Boolish(k, b) => k,
        SimpleFlagV::Stringish(k, v) => k,
    }
}

/// When a whole writer pass succeeds, the identifiers it declared are
/// pairwise distinct, and none of them was among those already seen.
pub proof fn lemma_written_identifiers_distinct(
    flags: Seq<SimpleFlagV>,
    seen: Seq<Seq<char>>,
    indent: nat,
)
    requires
        write_flags_spec(flags, seen, indent).0 matches Ok(u),
    ensures
        forall|i: int, j: int|
            0 <= i < j < flags.len() ==> flag_key(flags[i]) != flag_key(flags[j]),
        forall|i: int| 0 <= i < flags.len() ==> !seen.contains(#[trigger] flag_key(flags[i])),
    decreases flags.len(),
{
    if flags.len() > 0 {
        let head = flags[0];
        let item = generate_spec(head)->Ok_0;
        assert(item.identifier == flag_key(head));
        lemma_written_identifiers_distinct(flags.drop_first(), seen.push(item.identifier), indent);
        assert forall|i: int, j: int|
            0 <= i < j < flags.len() implies flag_key(flags[i]) != flag_key(flags[j]) by {
            if i == 0 {
                assert(flags.drop_first()[j - 1] == flags[j]);
                assert(seen.push(item.identifier)[seen.len() as int] == item.identifier);
                assert(seen.push(item.identifier).contains(item.identifier));
            } else {
                assert(flags.drop_first()[i - 1] == flags[i]);
                assert(flags.drop_first()[j - 1] == flags[j]);
            }
        }
        assert forall|i: int| 0 <= i < flags.len() implies !seen.contains(
            #[trigger] flag_key(flags[i]),
        ) by {
            if i > 0 {
                assert(flags.drop_first()[i - 1] == flags[i]);
                assert(!seen.push(item.identifier).contains(flag_key(flags[i])));
                if seen.contains(flag_key(flags[i])) {
                    let w = choose|w: int| 0 <= w < seen.len() && seen[w] == flag_key(flags[i]);
                    assert(seen.push(item.identifier)[w] == flag_key(flags[i]));
                }
            }
        }
    }
}

/// Non-strict lexicographic order on character sequences.
pub open spec fn str_le(a: Seq<char>, b: Seq<char>) -> bool {
    a == b || lex_lt(a, b)
}

/// The sequence of strings is sorted lexicographically.
pub open spec fn sorted_strings(s: Seq<Seq<char>>) -> bool {
    forall|i: int, j: int| 0 <= i < j < s.len() ==> str_le(s[i], s[j])
}

/// Sort strings lexicographically. The result is a sorted rearrangement
/// of the input.
fn sort_strings(items: Vec<String>) -> (r: Vec<String>)
    ensures
        sorted_strings(string_views(r@)),
        string_views(r@).to_multiset() == string_views(items@).to_multiset(),
{
    let n = items.len();
    let mut out: Vec<String> = Vec::new();
    proof {
        assert(string_views(out@) =~= string_views(items@.subrange(0, 0)));
    }
    let mut i: usize = 0;
    while i < n
        invariant
            0 <= i <= n,
            n == items@.len(),
            sorted_strings(string_views(out@)),
            string_views(out@).to_multiset() == string_views(
                items@.subrange(0, i as int),
            ).to_multiset(),
        decreases n - i,
    {
        let x = items[i].clone();
        proof {
            assert(x@ == items@[i as int]@);
        }
        let m = out.len();
        let mut idx: usize = 0;
        while idx < m && !str_lex_lt(&x, out[idx].as_str())
            invariant
                0 <= idx <= m,
                m == out@.len(),
                forall|k: int| 0 <= k < idx ==> str_le(string_views(out@)[k], x@),
            decreases m - idx,
        {
            proof {
                lemma_lex_total(string_views(out@)[idx as int], x@);
            }
            idx = idx + 1;
        }
        proof {
            if idx < m {
                assert(lex_lt(x@, string_views(out@)[idx as int]));
            }
        }
        let ghost old_out = out@;
        let ghost old_prefix = string_views(items@.subrange(0, i as int));
        out.insert(idx, x);
        proof {
            vstd::seq_lib::to_multiset_insert(string_views(old_out), idx as int, items@[i as int]@);
            vstd::seq_lib::to_multiset_build(old_prefix, items@[i as int]@);
            assert(string_views(out@) =~= string_views(old_out).insert(
                idx as int,
                items@[i as int]@,
            ));
            assert forall|p: int, q: int| 0 <= p < q < string_views(out@).len() implies str_le(
                string_views(out@)[p],
                string_views(out@)[q],
            ) by {
                let s = string_views(old_out);
                let t = string_views(out@);
                let xv = items@[i as int]@;
                if p < idx && q == idx {
                    assert(t[p] == s[p] && t[q] == xv);
                } else if p < idx && q > idx {
                    assert(t[p] == s[p] && t[q] == s[q - 1]);
                } else if p == idx && q > idx {
                    assert(t[p] == xv && t[q] == s[q - 1]);
                    if q - 1 > idx {
                        assert(str_le(s[idx as int], s[q - 1]));
                        if xv != s[q - 1] && s[idx as int] != s[q - 1] {
                            lemma_lex_trans(xv, s[idx as int], s[q - 1]);
                        }
                    }
                } else if p > idx && q > idx {
                    assert(t[p] == s[p - 1] && t[q] == s[q - 1]);
                } else {
                    assert(p < idx && q < idx);
                    assert(t[p] == s[p] && t[q] == s[q]);
                }
            }
            assert(string_views(items@.subrange(0, i + 1)) =~= old_prefix.push(
                items@[i as int]@,
            ));
            assert(string_views(out@).to_multiset() == string_views(
                items@.subrange(0, i + 1),
            ).to_multiset());
        }
        i = i + 1;
    }
    proof {
        assert(items@.subrange(0, n as int) =~= items@);
    }
    out
}

/// The keys of the truthy boolean flags in input order, or the first key
/// among them that is no valid identifier.
pub open spec fn truthy_keys_spec(flags: Seq<SimpleFlagV>) -> Result<
    Seq<Seq<char>>,
    GenerationErrorV,
>
    decreases flags.len(),
{
    if flags.len() == 0 {
        Ok(Seq::empty())
    } else {
        match flags[0] {
            SimpleFlagV::Stringish(k, v) => truthy_keys_spec(flags.drop_first()),
            SimpleFlagV::Boolish(k, b) => if !b {
                truthy_keys_spec(flags.drop_first())
            } else if !valid_identifier(k) {
                Err(GenerationErrorV::InvalidIdentifier(k))
            } else {
                match truthy_keys_spec(flags.drop_first()) {
                    Err(e) => Err(e),
                    Ok(rest) => Ok(seq![k] + rest),
                }
            },
        }
    }
}

/// Collect the keys of all boolean flags whose value is true, validated
/// against the identifier grammar and sorted lexicographically; fail on
/// the first truthy key that is no valid identifier.
pub fn truthy_boolean_flags_as_rust_identifiers(flags: &[SimpleFlag]) -> (r: Result<
    Vec<String>,
    CMakeCodegenError,
>)
    ensures
        ({
            match (r, truthy_keys_spec(simple_views(flags@))) {
                (Ok(ids), Ok(keys)) => sorted_strings(string_views(ids@)) && string_views(
                    ids@,
                ).to_multiset() == keys.to_multiset(),
                (Err(e), Err(v)) => codegen_err_matches(e, CodegenErrorV::Generation(v)),
                _ => false,
            }
        }),
{
    let ghost all = simple_views(flags@);
    let n = flags.len();
    let mut out: Vec<String> = Vec::new();
    proof {
        assert(all.subrange(0, n as int) =~= all);
        assert(string_views(out@) + Seq::<Seq<char>>::empty() =~= string_views(out@));
    }
    let mut i: usize = 0;
    while i < n
        invariant
            0 <= i <= n,
            n == all.len(),
            all == simple_views(flags@),
            ({
                match truthy_keys_spec(all.subrange(i as int, n as int)) {
                    Ok(rest) => truthy_keys_spec(all) == Ok::<Seq<Seq<char>>, GenerationErrorV>(
                        string_views(out@) + rest,
                    ),
                    Err(e) => truthy_keys_spec(all) == Err::<Seq<Seq<char>>, GenerationErrorV>(e),
                }
            }),
        decreases n - i,
    {
        let ghost suffix = all.subrange(i as int, n as int);
        proof {
            assert(suffix[0] == all[i as int]);
            assert(suffix.drop_first() =~= all.subrange(i + 1, n as int));
        }
        match &flags[i] {
            SimpleFlag::Stringish(k, v) => {},
            SimpleFlag::Boolish(k, b) => {
                if *b {
                    if !is_valid_rust_identifier(k.0.as_str()) {
                        return Err(
                            CMakeCodegenError::GenerationError(
                                RustCodeGenerationError::InvalidIdentifier(k.0.clone()),
                            ),
                        );
                    }
                    let ghost old_views = string_views(out@);
                    out.push(k.0.clone());
                    proof {
                        assert(string_views(out@) =~= old_views.push(all[i as int]->Boolish_0));
                        match truthy_keys_spec(all.subrange(i + 1, n as int)) {
                            Ok(rest) => {
                                assert(old_views + (seq![all[i as int]->Boolish_0] + rest)
                                    =~= string_views(out@) + rest);
                            },
                            Err(e) => {},
                        }
                    }
                }
            },
        }
        i = i + 1;
    }
    proof {
        assert(all.subrange(n as int, n as int).len() == 0);
        assert(string_views(out@) + Seq::<Seq<char>>::empty() =~= string_views(out@));
    }
    let sorted = sort_strings(out);
    Ok(sorted)
}

/// Equality of two summarized flags.
pub fn simple_flag_eq(a: &SimpleFlag, b: &SimpleFlag) -> (r: bool)
    ensures
        r == (a@ == b@),
{
    match (a, b) {
        (SimpleFlag::Stringish(k1, v1), SimpleFlag::Stringish(k2, v2)) => str_eq(
            k1.0.as_str(),
            k2.0.as_str(),
        ) && str_eq(v1.as_str(), v2.as_str()),
        (SimpleFlag::Boolish(k1, b1), SimpleFlag::Boolish(k2, b2)) => str_eq(
            k1.0.as_str(),
            k2.0.as_str(),
        ) && (*b1 == *b2),
        _ => false,
    }
}

/// Membership of a flag among a collection of flags.
fn contains_flag(v: &[SimpleFlag], f: &SimpleFlag) -> (r: bool)
    ensures
        r == simple_views(v@).contains(f@),
{
    let n = v.len();
    let mut i: usize = 0;
    while i < n
        invariant
            0 <= i <= n,
            n == v@.len(),
            forall|j: int| 0 <= j < i ==> simple_views(v@)[j] != f@,
        decreases n - i,
    {
        if simple_flag_eq(&v[i], f) {
            proof {
                assert(simple_views(v@)[i as int] == f@);
            }
            return true;
        }
        i = i + 1;
    }
    proof {
        assert(!simple_views(v@).contains(f@));
    }
    false
}

/// Every flag of `sub` occurs among the flags of `sup`.
pub open spec fn flags_subset_spec(sub: Seq<SimpleFlagV>, sup: Seq<SimpleFlagV>) -> bool {
    forall|i: int| 0 <= i < sub.len() ==> sup.contains(#[trigger] sub[i])
}

/// Decide whether every flag of `sub` also occurs in `sup`, useful for
/// cross-checking declared configuration values against what the native
/// build system actually resolved.
pub fn simple_flags_subset(sub: &[SimpleFlag], sup: &[SimpleFlag]) -> (r: bool)
    ensures
        r == flags_subset_spec(simple_views(sub@), simple_views(sup@)),
{
    let n = sub.len();
    let mut i: usize = 0;
    while i < n
        invariant
            0 <= i <= n,
            n == sub@.len(),
            forall|j: int| 0 <= j < i ==> simple_views(sup@).contains(#[trigger] simple_views(
                sub@,
            )[j]),
        decreases n - i,
    {
        if !contains_flag(sup, &sub[i]) {
            proof {
                assert(!simple_views(sup@).contains(simple_views(sub@)[i as int]));
            }
            return false;
        }
        i = i + 1;
    }
    true
}

/// The compiler arguments for a list of feature names: for each feature,
/// `--cfg feature="<name>" ` with a trailing space.
pub open spec fn feature_args(fs: Seq<Seq<char>>) -> Seq<char>
    decreases fs.len(),
{
    if fs.len() == 0 {
        Seq::empty()
    } else {
        feature_args(fs.drop_last()) + "--cfg feature=\""@ + fs.last() + "\" "@
    }
}

/// The merged flags string: the existing flags value (followed by one
/// separating space when it is not empty) and then one `--cfg` argument
/// pair per feature.
pub open spec fn merged_rustflags(existing: Seq<char>, fs: Seq<Seq<char>>) -> Seq<char> {
    (if existing.len() == 0 {
        Seq::empty()
    } else {
        existing + seq![' ']
    }) + feature_args(fs)
}

/// Merge feature names into an existing compiler-flags string, producing
/// one `--cfg feature="<name>"` argument pair per feature.
pub fn merge_feature_flags_with_rustflags_env_var(
    existing_rustflags: &str,
    feature_flags: &[String],
) -> (r: String)
    ensures
        r@ == merged_rustflags(existing_rustflags@, string_views(feature_flags@)),
{
    let ghost fs = string_views(feature_flags@);
    let mut out = String::new();
    if existing_rustflags.unicode_len() > 0 {
        out.append(existing_rustflags);
        push_char(&mut out, ' ');
    }
    let ghost base = out@;
    proof {
        assert(feature_args(fs.subrange(0, 0)) =~= Seq::<char>::empty());
        assert(base + Seq::<char>::empty() =~= base);
    }
    let n = feature_flags.len();
    let mut i: usize = 0;
    while i < n
        invariant
            0 <= i <= n,
            n == fs.len(),
            fs == string_views(feature_flags@),
            out@ == base + feature_args(fs.subrange(0, i as int)),
        decreases n - i,
    {
        out.append("--cfg feature=\"");
        out.append(feature_flags[i].as_str());
        out.append("\" ");
        proof {
            let pre = fs.subrange(0, i + 1);
            assert(pre.drop_last() =~= fs.subrange(0, i as int));
            assert(pre.last() == fs[i as int]);
            assert(out@ =~= base + feature_args(pre));
        }
        i = i + 1;
    }
    proof {
        assert(fs.subrange(0, n as int) =~= fs);
    }
    out
}

} // verus!
