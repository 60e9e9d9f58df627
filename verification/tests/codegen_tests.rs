use cargo_fel4::codegen::{is_valid_rust_identifier, RustCodeGenerationError, RustConstItem};
use cargo_fel4::model::{Key, SimpleFlag};

#[test]
fn sanity_check_bool_const_ok() {
    assert_eq!(
        Ok(RustConstItem {
            code: "pub const HELLO_WORLD:bool = false;".to_string(),
            identifier: "HELLO_WORLD".to_string(),
        }),
        SimpleFlag::Boolish(Key("HELLO_WORLD".to_string()), false).generate_rust_const_item()
    );
    assert_eq!(
        Ok(RustConstItem {
            code: "pub const helloWorld:bool = false;".to_string(),
            identifier: "helloWorld".to_string(),
        }),
        SimpleFlag::Boolish(Key("helloWorld".to_string()), false).generate_rust_const_item()
    );
    assert_eq!(
        Ok(RustConstItem {
            code: "pub const hello_world:bool = false;".to_string(),
            identifier: "hello_world".to_string(),
        }),
        SimpleFlag::Boolish(Key("hello_world".to_string()), false).generate_rust_const_item()
    );
}

#[test]
fn sanity_check_bool_const_error() {
    assert_eq!(
        Err(RustCodeGenerationError::InvalidIdentifier("_".into())),
        SimpleFlag::Boolish(Key("_".to_string()), false).generate_rust_const_item()
    );
    assert_eq!(
        Err(RustCodeGenerationError::InvalidIdentifier("0".into())),
        SimpleFlag::Boolish(Key("0".to_string()), false).generate_rust_const_item()
    );
    assert_eq!(
        Err(RustCodeGenerationError::InvalidIdentifier("0ABC".into())),
        SimpleFlag::Boolish(Key("0ABC".to_string()), false).generate_rust_const_item()
    );
}

#[test]
fn sanity_check_str_const() {
    assert_eq!(
        Ok(RustConstItem {
            code: "pub const HELLO_WORLD:&'static str = \"whatever\";".to_string(),
            identifier: "HELLO_WORLD".to_string(),
        }),
        SimpleFlag::Stringish(Key("HELLO_WORLD".to_string()), "whatever".to_string())
            .generate_rust_const_item()
    );
    assert_eq!(
        Ok(RustConstItem {
            code: "pub const helloWorld:&'static str = \"whatever\";".to_string(),
            identifier: "helloWorld".to_string(),
        }),
        SimpleFlag::Stringish(Key("helloWorld".to_string()), "whatever".to_string())
            .generate_rust_const_item()
    );
    assert_eq!(
        Ok(RustConstItem {
            code: "pub const hello_world:&'static str = \"whatever\";".to_string(),
            identifier: "hello_world".to_string(),
        }),
        SimpleFlag::Stringish(Key("hello_world".to_string()), "whatever".to_string())
            .generate_rust_const_item()
    );
}

#[test]
fn sanity_check_str_const_id_error() {
    assert_eq!(
        Err(RustCodeGenerationError::InvalidIdentifier("_".into())),
        SimpleFlag::Stringish(Key("_".to_string()), "a".into()).generate_rust_const_item()
    );
    assert_eq!(
        Err(RustCodeGenerationError::InvalidIdentifier("0".into())),
        SimpleFlag::Stringish(Key("0".to_string()), "a".into()).generate_rust_const_item()
    );
    assert_eq!(
        Err(RustCodeGenerationError::InvalidIdentifier("0ABC".into())),
        SimpleFlag::Stringish(Key("0ABC".to_string()), "a".into()).generate_rust_const_item()
    );
}

#[test]
fn sanity_check_str_const_literal_error() {
    assert_eq!(
        Err(RustCodeGenerationError::InvalidStringLiteral("\\".into())),
        SimpleFlag::Stringish(Key("a".to_string()), "\\".into()).generate_rust_const_item()
    );
    assert_eq!(
        Err(RustCodeGenerationError::InvalidStringLiteral("\"".into())),
        SimpleFlag::Stringish(Key("a".to_string()), "\"".into()).generate_rust_const_item()
    );
}

#[test]
fn unescaped_quote_value_fails_generation() {
    assert_eq!(
        Err(RustCodeGenerationError::InvalidStringLiteral("\"".into())),
        SimpleFlag::Stringish(Key("A".to_string()), "\"".into()).generate_rust_const_item()
    );
}

#[test]
fn identifier_grammar_accepts_and_rejects() {
    assert!(is_valid_rust_identifier("A"));
    assert!(is_valid_rust_identifier("a_b_c"));
    assert!(is_valid_rust_identifier("_x"));
    assert!(is_valid_rust_identifier("_0"));
    assert!(is_valid_rust_identifier("Z9_"));
    assert!(!is_valid_rust_identifier(""));
    assert!(!is_valid_rust_identifier("_"));
    assert!(!is_valid_rust_identifier("0"));
    assert!(!is_valid_rust_identifier("0ABC"));
    assert!(!is_valid_rust_identifier("has space"));
    assert!(!is_valid_rust_identifier("has-dash"));
}

#[test]
fn generated_identifiers_satisfy_the_grammar() {
    let flags = [
        SimpleFlag::Boolish(Key("SOME_FLAG".to_string()), true),
        SimpleFlag::Stringish(Key("other_flag".to_string()), "v".to_string()),
        SimpleFlag::Boolish(Key("_private9".to_string()), false),
    ];
    for f in &flags {
        let item = f.generate_rust_const_item().expect("should generate");
        assert!(is_valid_rust_identifier(&item.identifier));
    }
}
