//! The typed model of CMake cache flags: the closed set of type tags, the
//! raw per-line record, and the interpreted two-shape summary.

use vstd::prelude::*;

use crate::text::{trim_seq, upper_of, has_suffix, trim_str, to_uppercase_str, str_eq, str_has_suffix};

verus! {

broadcast use vstd::string::group_string_axioms;

/// The type hint associated with a CMake property.
#[derive(Clone, Copy, Debug, PartialEq, Eq, Structural)]
pub enum CMakeType {
    Bool,
    Path,
    FilePath,
    String,
    Internal,
    Static,
    Uninitialized,
}

/// Represents a single CMake property.
#[derive(Debug, PartialEq, Eq)]
pub struct RawFlag {
    pub key: String,
    pub cmake_type: CMakeType,
    pub value: String,
}

impl Clone for RawFlag {
    /// The copy carries the same key, tag and value.
    fn clone(&self) -> (r: Self)
        ensures
            r@ == self@,
    {
        RawFlag { key: self.key.clone(), cmake_type: self.cmake_type, value: self.value.clone() }
    }
}

/// Mathematical image of a [`RawFlag`]: both text fields as character
/// sequences.
pub struct RawFlagV {
    pub key: Seq<char>,
    pub cmake_type: CMakeType,
    pub value: Seq<char>,
}

impl View for RawFlag {
    type V = RawFlagV;

    open spec fn view(&self) -> RawFlagV {
        RawFlagV { key: self.key@, cmake_type: self.cmake_type, value: self.value@ }
    }
}

/// A newtype wrapper for the key / property-name of a CMake flag, kept
/// distinct from the similarly-shaped value of a string-valued flag.
#[derive(Debug, PartialEq, Eq)]
pub struct Key(pub String);

impl Clone for Key {
    /// The copy carries the same key text.
    fn clone(&self) -> (r: Self)
        ensures
            r@ == self@,
    {
        Key(self.0.clone())
    }
}

impl View for Key {
    type V = Seq<char>;

    open spec fn view(&self) -> Seq<char> {
        self.0@
    }
}

/// A pared-down and interpreted representation of a CMake flag.
#[derive(Debug, PartialEq, Eq)]
pub enum SimpleFlag {
    Stringish(Key, String),
    Boolish(Key, bool),
}

impl Clone for SimpleFlag {
    /// The copy carries the same shape, key and value.
    fn clone(&self) -> (r: Self)
        ensures
            r@ == self@,
    {
        match self {
            SimpleFlag::Stringish(k, v) => SimpleFlag::Stringish(k.clone(), v.clone()),
            SimpleFlag::Boolish(k, b) => SimpleFlag::Boolish(k.clone(), *b),
        }
    }
}

/// Mathematical image of a [`SimpleFlag`].
pub enum SimpleFlagV {
    Stringish(Seq<char>, Seq<char>),
    Boolish(Seq<char>, bool),
}

impl View for SimpleFlag {
    type V = SimpleFlagV;

    open spec fn view(&self) -> SimpleFlagV {
        match self {
            SimpleFlag::Stringish(k, v) => SimpleFlagV::Stringish(k@, v@),
            SimpleFlag::Boolish(k, b) => SimpleFlagV::Boolish(k@, *b),
        }
    }
}

impl CMakeType {
    /// The textual token this tag is written as in a cache file.
    pub open spec fn name_seq(self) -> Seq<char> {
        match self {
            CMakeType::Bool => "BOOL"@,
            CMakeType::Path => "PATH"@,
            CMakeType::FilePath => "FILEPATH"@,
            CMakeType::String => "STRING"@,
            CMakeType::Internal => "INTERNAL"@,
            CMakeType::Static => "STATIC"@,
            CMakeType::Uninitialized => "UNINITIALIZED"@,
        }
    }

    /// The tag whose token is `s`, if any.
    pub open spec fn parse_spec(s: Seq<char>) -> Option<CMakeType> {
        if s == "BOOL"@ {
            Some(CMakeType::Bool)
        } else if s == "PATH"@ {
            Some(CMakeType::Path)
        } else if s == "FILEPATH"@ {
            Some(CMakeType::FilePath)
        } else if s == "STRING"@ {
            Some(CMakeType::String)
        } else if s == "INTERNAL"@ {
            Some(CMakeType::Internal)
        } else if s == "STATIC"@ {
            Some(CMakeType::Static)
        } else if s == "UNINITIALIZED"@ {
            Some(CMakeType::Uninitialized)
        } else {
            None
        }
    }

    /// Look a textual token up in the fixed type-tag vocabulary.
    pub fn parse(s: &str) -> (r: Option<CMakeType>)
        ensures
            r == Self::parse_spec(s@),
    {
        if str_eq(s, "BOOL") {
            Some(CMakeType::Bool)
        } else if str_eq(s, "PATH") {
            Some(CMakeType::Path)
        } else if str_eq(s, "FILEPATH") {
            Some(CMakeType::FilePath)
        } else if str_eq(s, "STRING") {
            Some(CMakeType::String)
        } else if str_eq(s, "INTERNAL") {
            Some(CMakeType::Internal)
        } else if str_eq(s, "STATIC") {
            Some(CMakeType::Static)
        } else if str_eq(s, "UNINITIALIZED") {
            Some(CMakeType::Uninitialized)
        } else {
            None
        }
    }

    /// The textual token of this tag.
    pub fn cmake_name(&self) -> (r: &'static str)
        ensures
            r@ == self.name_seq(),
    {
        match *self {
            CMakeType::Bool => "BOOL",
            CMakeType::Path => "PATH",
            CMakeType::FilePath => "FILEPATH",
            CMakeType::String => "STRING",
            CMakeType::Internal => "INTERNAL",
            CMakeType::Static => "STATIC",
            CMakeType::Uninitialized => "UNINITIALIZED",
        }
    }
}

/// The tag round-trips: parsing the token of any tag gives that tag back.
pub proof fn lemma_type_tag_round_trip(t: CMakeType)
    ensures
        CMakeType::parse_spec(t.name_seq()) == Some(t),
{
    reveal_strlit("BOOL");
    reveal_strlit("PATH");
    reveal_strlit("FILEPATH");
    reveal_strlit("STRING");
    reveal_strlit("INTERNAL");
    reveal_strlit("STATIC");
    reveal_strlit("UNINITIALIZED");
    assert("BOOL"@.len() == 4);
    assert("PATH"@.len() == 4);
    assert("FILEPATH"@.len() == 8);
    assert("STRING"@.len() == 6);
    assert("INTERNAL"@.len() == 8);
    assert("STATIC"@.len() == 6);
    assert("UNINITIALIZED"@.len() == 13);
    assert("BOOL"@[0] == 'B');
    assert("PATH"@[0] == 'P');
    assert("FILEPATH"@[0] == 'F');
    assert("INTERNAL"@[0] == 'I');
    assert("STRING"@[2] == 'R');
    assert("STATIC"@[2] == 'A');
}

/// The boolean reading of a raw value: after trimming and Unicode
/// upper-casing, the tokens `OFF`, `FALSE`, `NO`, `N`, `NOTFOUND` and `0`
/// mean false, as do the empty string and any value ending in
/// `-NOTFOUND`; everything else means true.
pub open spec fn boolish_spec(v: Seq<char>) -> bool {
    let u = upper_of(trim_seq(v));
    !(u == "OFF"@ || u == "FALSE"@ || u == "NO"@ || u == "N"@ || u == "NOTFOUND"@ || u == "0"@
        || u.len() == 0 || has_suffix(u, "-NOTFOUND"@))
}

/// Interpret a raw flag value as a boolean.
pub fn interpret_value_as_boolish(s: &str) -> (r: bool)
    ensures
        r == boolish_spec(s@),
{
    let trimmed = trim_str(s);
    let upper = to_uppercase_str(trimmed.as_str());
    let u = upper.as_str();
    if str_eq(u, "OFF") || str_eq(u, "FALSE") || str_eq(u, "NO") || str_eq(u, "N")
        || str_eq(u, "NOTFOUND") || str_eq(u, "0") {
        return false;
    }
    if u.unicode_len() == 0 {
        return false;
    }
    if str_has_suffix(u, "-NOTFOUND") {
        return false;
    }
    true
}

/// The interpreted image of a raw flag: a `Bool`-typed flag becomes
/// boolean-valued under [`boolish_spec`]; every other tag carries its
/// value through verbatim as a string-valued flag.
pub open spec fn simplify_spec(f: RawFlagV) -> SimpleFlagV {
    if f.cmake_type == CMakeType::Bool {
        SimpleFlagV::Boolish(f.key, boolish_spec(f.value))
    } else {
        SimpleFlagV::Stringish(f.key, f.value)
    }
}

/// The shape of the interpreted flag is fully determined by the type
/// tag: exactly the `Bool`-tagged flags become boolean-valued.
pub proof fn lemma_flag_shape_determined(f: RawFlagV)
    ensures
        (simplify_spec(f) matches SimpleFlagV::Boolish(k, b)) <==> f.cmake_type == CMakeType::Bool,
{
}

impl SimpleFlag {
    /// Summarize a raw flag into its interpreted two-shape form.
    pub fn from_raw(raw: &RawFlag) -> (r: SimpleFlag)
        ensures
            r@ == simplify_spec(raw@),
    {
        match raw.cmake_type {
            CMakeType::Bool => SimpleFlag::Boolish(
                Key(raw.key.clone()),
                interpret_value_as_boolish(raw.value.as_str()),
            ),
            CMakeType::Path
            | CMakeType::FilePath
            | CMakeType::String
            | CMakeType::Internal
            | CMakeType::Static
            | CMakeType::Uninitialized => {
                SimpleFlag::Stringish(Key(raw.key.clone()), raw.value.clone())
            },
        }
    }
}

} // verus!
