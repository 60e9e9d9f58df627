use cargo_fel4::model::{CMakeType, Key, RawFlag, SimpleFlag};
use cargo_fel4::parse::{parse_line, parse_raw, ParseError};

#[test]
fn parse_line_empty_edge_cases() {
    assert_eq!(Ok(None), parse_line(""));
    assert_eq!(Ok(None), parse_line("# Comment"));
    assert_eq!(Ok(None), parse_line("// Comment"));
    assert_eq!(Ok(None), parse_line("#key:BOOL=TRUE"));
    assert_eq!(Ok(None), parse_line("//key:BOOL=TRUE"));
}

#[test]
fn parse_line_missing_content() {
    assert_eq!(
        Err(ParseError::PropertyMissingKeyTypeValueTriple),
        parse_line("=")
    );
    assert_eq!(
        Err(ParseError::PropertyMissingKeyTypeValueTriple),
        parse_line(":")
    );
    assert_eq!(Err(ParseError::InvalidTypeHint), parse_line(":="));
    assert_eq!(Err(ParseError::InvalidTypeHint), parse_line("=:"));
}

#[test]
fn sanity_check_direct_from_string() {
    let s = "FOO:BOOL=ON\n    BAR:STRING=BAZ";

    let v: Vec<SimpleFlag> = parse_raw(s)
        .expect("Could not parse content")
        .iter()
        .map(SimpleFlag::from_raw)
        .collect();

    assert_eq!(
        vec![
            SimpleFlag::Boolish(Key("FOO".to_string()), true),
            SimpleFlag::Stringish(Key("BAR".to_string()), "BAZ".to_string()),
        ],
        v
    );
}

#[test]
fn parse_line_well_formed_triple() {
    assert_eq!(
        Ok(Some(RawFlag {
            key: "MY_KEY".to_string(),
            cmake_type: CMakeType::Path,
            value: "some/dir".to_string(),
        })),
        parse_line("MY_KEY:PATH=some/dir")
    );
    assert_eq!(
        Ok(Some(RawFlag {
            key: "K".to_string(),
            cmake_type: CMakeType::String,
            value: "".to_string(),
        })),
        parse_line("K:STRING=")
    );
}

#[test]
fn parse_line_trims_whitespace() {
    assert_eq!(
        Ok(Some(RawFlag {
            key: "A".to_string(),
            cmake_type: CMakeType::Bool,
            value: "ON".to_string(),
        })),
        parse_line("  A : BOOL = ON  ")
    );
}

#[test]
fn parse_line_trims_unicode_whitespace() {
    // No-break space and vertical tab carry the Unicode White_Space
    // property, so they pad like ASCII spaces.
    assert_eq!(
        Ok(Some(RawFlag {
            key: "A".to_string(),
            cmake_type: CMakeType::Bool,
            value: "ON".to_string(),
        })),
        parse_line("\u{a0}A\u{b}:BOOL=\u{2003}ON\u{a0}")
    );
    assert_eq!(Ok(None), parse_line("\u{a0}\u{2028}\u{3000}"));
    assert_eq!(Ok(None), parse_line("\u{a0}# padded comment"));
}

#[test]
fn parse_line_truncates_value_at_second_delimiter() {
    // The line is split at every delimiter occurrence, so a value that
    // itself contains `:` or `=` keeps only its first token.
    assert_eq!(
        Ok(Some(RawFlag {
            key: "K".to_string(),
            cmake_type: CMakeType::String,
            value: "a".to_string(),
        })),
        parse_line("K:STRING=a=b")
    );
    assert_eq!(
        Ok(Some(RawFlag {
            key: "K".to_string(),
            cmake_type: CMakeType::String,
            value: "left".to_string(),
        })),
        parse_line("K:STRING=left:right")
    );
}

#[test]
fn parse_line_rejects_unknown_type_token() {
    assert_eq!(Err(ParseError::InvalidTypeHint), parse_line("K:BOGUS=V"));
    assert_eq!(Err(ParseError::InvalidTypeHint), parse_line("K:bool=V"));
}

#[test]
fn round_trip_cmake_type() {
    let tags = [
        CMakeType::Bool,
        CMakeType::Path,
        CMakeType::FilePath,
        CMakeType::String,
        CMakeType::Internal,
        CMakeType::Static,
        CMakeType::Uninitialized,
    ];
    for t in &tags {
        assert_eq!(Some(*t), CMakeType::parse(t.cmake_name()));
    }
}

#[test]
fn cmake_type_names_are_exact() {
    assert_eq!("BOOL", CMakeType::Bool.cmake_name());
    assert_eq!("PATH", CMakeType::Path.cmake_name());
    assert_eq!("FILEPATH", CMakeType::FilePath.cmake_name());
    assert_eq!("STRING", CMakeType::String.cmake_name());
    assert_eq!("INTERNAL", CMakeType::Internal.cmake_name());
    assert_eq!("STATIC", CMakeType::Static.cmake_name());
    assert_eq!("UNINITIALIZED", CMakeType::Uninitialized.cmake_name());
}

#[test]
fn parse_raw_fails_fast_on_first_bad_line() {
    assert_eq!(
        Err(ParseError::InvalidTypeHint),
        parse_raw("GOOD:BOOL=ON\nBAD:NOPE=1\nALSO:BOOL=OFF")
    );
    assert_eq!(
        Err(ParseError::PropertyMissingKeyTypeValueTriple),
        parse_raw("GOOD:BOOL=ON\njust some text")
    );
}

#[test]
fn parse_raw_handles_crlf_lines() {
    assert_eq!(
        Ok(vec![
            RawFlag {
                key: "A".to_string(),
                cmake_type: CMakeType::Bool,
                value: "ON".to_string(),
            },
            RawFlag {
                key: "B".to_string(),
                cmake_type: CMakeType::String,
                value: "x".to_string(),
            },
        ]),
        parse_raw("A:BOOL=ON\r\nB:STRING=x\r\n")
    );
}
