//! The identifier and constant code generator: validates a flag's key as
//! a declaration name, renders one Rust `const` declaration per flag, and
//! rejects invalid identifiers and invalid string literals.
//!
//! The identifier policy is strict validation: a key is accepted
//! unchanged when it matches the identifier grammar and rejected
//! otherwise; no rewriting is attempted. Rendered string literals are
//! likewise not escaped: a value whose quoted form fails to parse back
//! as a string literal is rejected.

use vstd::prelude::*;

use crate::model::{SimpleFlag, SimpleFlagV, Key};
use crate::text::push_char;

verus! {

broadcast use vstd::string::group_string_axioms;

/// An ASCII letter.
pub open spec fn is_letter(c: char) -> bool {
    ('a' <= c && c <= 'z') || ('A' <= c && c <= 'Z')
}

/// An ASCII decimal digit.
pub open spec fn is_digit(c: char) -> bool {
    '0' <= c && c <= '9'
}

/// A character allowed after the first position of an identifier.
pub open spec fn is_ident_char(c: char) -> bool {
    is_letter(c) || is_digit(c) || c == '_'
}

/// The identifier grammar: a letter followed by letters, digits or
/// underscores, or one underscore followed by at least one such
/// character.
pub open spec fn valid_identifier(s: Seq<char>) -> bool {
    (s.len() >= 1 && is_letter(s[0]) && (forall|i: int| 1 <= i < s.len() ==> is_ident_char(s[i])))
        || (s.len() >= 2 && s[0] == '_' && (forall|i: int|
            1 <= i < s.len() ==> is_ident_char(s[i])))
}

/// Convenience function determining if a string is usable without
/// alteration as a Rust identifier for an item.
pub fn is_valid_rust_identifier(s: &str) -> (r: bool)
    ensures
        r == valid_identifier(s@),
{
    let n = s.unicode_len();
    if n == 0 {
        return false;
    }
    let c0 = s.get_char(0);
    let letter0 = ('a' <= c0 && c0 <= 'z') || ('A' <= c0 && c0 <= 'Z');
    if !letter0 && !(c0 == '_' && n >= 2) {
        return false;
    }
    let mut i: usize = 1;
    while i < n
        invariant
            1 <= i <= n,
            n == s@.len(),
            forall|j: int| 1 <= j < i ==> is_ident_char(s@[j]),
        decreases n - i,
    {
        let c = s.get_char(i);
        if !(('a' <= c && c <= 'z') || ('A' <= c && c <= 'Z') || ('0' <= c && c <= '9') || c
            == '_') {
            return false;
        }
        i = i + 1;
    }
    true
}

/// What can go wrong turning a flag into Rust source text.
#[derive(Clone, Debug, PartialEq, Eq)]
pub enum RustCodeGenerationError {
    InvalidIdentifier(String),
    InvalidStringLiteral(String),
}

/// A rendered `const` declaration and the identifier it declares.
#[derive(Clone, Debug, PartialEq, Eq)]
pub struct RustConstItem {
    pub code: String,
    pub identifier: String,
}

/// Mathematical image of a [`RustConstItem`].
pub struct RustConstItemV {
    pub code: Seq<char>,
    pub identifier: Seq<char>,
}

impl View for RustConstItem {
    type V = RustConstItemV;

    open spec fn view(&self) -> RustConstItemV {
        RustConstItemV { code: self.code@, identifier: self.identifier@ }
    }
}

/// Mathematical image of a [`RustCodeGenerationError`].
pub enum GenerationErrorV {
    InvalidIdentifier(Seq<char>),
    InvalidStringLiteral(Seq<char>),
}

impl View for RustCodeGenerationError {
    type V = GenerationErrorV;

    open spec fn view(&self) -> GenerationErrorV {
        match self {
            RustCodeGenerationError::InvalidIdentifier(s) => GenerationErrorV::InvalidIdentifier(
                s@,
            ),
            RustCodeGenerationError::InvalidStringLiteral(
                s,
            ) => GenerationErrorV::InvalidStringLiteral(s@),
        }
    }
}

/// Whether a piece of text parses as a Rust expression that is a plain
/// string literal. The grammar of string literals (escape sequences
/// included) is the target language's own; the text below names its
/// outcome without restating it.
pub uninterp spec fn parses_as_str_literal(s: Seq<char>) -> bool;

/// Relies on `syn::parse_str::<syn::Expr>`: whether the text parses as an
/// expression that is a plain string literal is a function of the text
/// alone.
#[verifier::external_body]
fn is_str_literal_expr(s: &str) -> (r: bool)
    ensures
        r == parses_as_str_literal(s@),
{
    match syn::parse_str::<syn::Expr>(s) {
        Ok(syn::Expr::Lit(syn::ExprLit { lit: syn::Lit::Str(_), .. })) => true,
        _ => false,
    }
}

/// The raw value wrapped in double quotes, with no escaping applied.
pub open spec fn quoted(v: Seq<char>) -> Seq<char> {
    seq!['"'] + v + seq!['"']
}

/// The declaration rendered for one flag, or the failure rendering it:
/// a key that is no valid identifier fails; a string value whose quoted
/// form is no valid string literal fails; otherwise the flag becomes one
/// `pub const` line declaring its key.
pub open spec fn generate_spec(f: SimpleFlagV) -> Result<RustConstItemV, GenerationErrorV> {
    match f {
        SimpleFlagV::Boolish(k, b) => if !valid_identifier(k) {
            Err(GenerationErrorV::InvalidIdentifier(k))
        } else {
            Ok(
                RustConstItemV {
                    code: "pub const "@ + k + ":bool = "@ + (if b {
                        "true"@
                    } else {
                        "false"@
                    }) + ";"@,
                    identifier: k,
                },
            )
        },
        SimpleFlagV::Stringish(k, v) => if !valid_identifier(k) {
            Err(GenerationErrorV::InvalidIdentifier(k))
        } else if !parses_as_str_literal(quoted(v)) {
            Err(GenerationErrorV::InvalidStringLiteral(v))
        } else {
            Ok(
                RustConstItemV {
                    code: "pub const "@ + k + ":&'static str = "@ + quoted(v) + ";"@,
                    identifier: k,
                },
            )
        },
    }
}

/// The executable outcome of generation agrees with the specified
/// outcome.
pub open spec fn generate_result_matches(
    r: Result<RustConstItem, RustCodeGenerationError>,
    s: Result<RustConstItemV, GenerationErrorV>,
) -> bool {
    match (r, s) {
        (Ok(item), Ok(itemv)) => item@.code == itemv.code && item@.identifier == itemv.identifier,
        (Err(e1), Err(e2)) => match (e1@, e2) {
            (GenerationErrorV::InvalidIdentifier(a), GenerationErrorV::InvalidIdentifier(b)) => a
                == b,
            (
                GenerationErrorV::InvalidStringLiteral(a),
                GenerationErrorV::InvalidStringLiteral(b),
            ) => a == b,
            _ => false,
        },
        _ => false,
    }
}

impl SimpleFlag {
    /// Produce code that could be used in a Rust language file to
    /// represent the flag as a `const` item.
    pub fn generate_rust_const_item(&self) -> (r: Result<
        RustConstItem,
        RustCodeGenerationError,
    >)
        ensures
            generate_result_matches(r, generate_spec(self@)),
    {
        match self {
            SimpleFlag::Stringish(Key(k), v) => {
                if !is_valid_rust_identifier(k.as_str()) {
                    return Err(RustCodeGenerationError::InvalidIdentifier(k.clone()));
                }
                let mut literal = String::new();
                push_char(&mut literal, '"');
                literal.append(v.as_str());
                push_char(&mut literal, '"');
                proof {
                    assert(literal@ =~= quoted(v@));
                }
                if !is_str_literal_expr(literal.as_str()) {
                    return Err(RustCodeGenerationError::InvalidStringLiteral(v.clone()));
                }
                let mut code = String::new();
                code.append("pub const ");
                code.append(k.as_str());
                code.append(":&'static str = ");
                code.append(literal.as_str());
                code.append(";");
                Ok(RustConstItem { code, identifier: k.clone() })
            },
            SimpleFlag::Boolish(Key(k), b) => {
                if !is_valid_rust_identifier(k.as_str()) {
                    return Err(RustCodeGenerationError::InvalidIdentifier(k.clone()));
                }
                let mut code = String::new();
                code.append("pub const ");
                code.append(k.as_str());
                code.append(":bool = ");
                code.append(if *b {
                    "true"
                } else {
                    "false"
                });
                code.append(";");
                Ok(RustConstItem { code, identifier: k.clone() })
            },
        }
    }
}

/// Every identifier emitted by the generator satisfies the identifier
/// grammar: generation never succeeds with an invalid name.
pub proof fn lemma_generated_identifier_valid(f: SimpleFlagV)
    ensures
        generate_spec(f) matches Ok(item) ==> valid_identifier(item.identifier),
{
}

} // verus!
