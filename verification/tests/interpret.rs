use cargo_fel4::model::{interpret_value_as_boolish, CMakeType, Key, RawFlag, SimpleFlag};

#[test]
fn boolean_interpretation_false_tokens() {
    assert_eq!(false, interpret_value_as_boolish("OFF"));
    assert_eq!(false, interpret_value_as_boolish("off"));
    assert_eq!(false, interpret_value_as_boolish(" False "));
    assert_eq!(false, interpret_value_as_boolish("FALSE"));
    assert_eq!(false, interpret_value_as_boolish("NO"));
    assert_eq!(false, interpret_value_as_boolish("N"));
    assert_eq!(false, interpret_value_as_boolish("NOTFOUND"));
    assert_eq!(false, interpret_value_as_boolish("0"));
    assert_eq!(false, interpret_value_as_boolish(""));
    assert_eq!(false, interpret_value_as_boolish("   "));
    assert_eq!(false, interpret_value_as_boolish("X-NOTFOUND"));
    assert_eq!(false, interpret_value_as_boolish("lib-notfound"));
}

#[test]
fn boolean_interpretation_trims_unicode_whitespace() {
    // Vertical tab, next line, no-break space and ideographic space all
    // carry the Unicode White_Space property and are trimmed away.
    assert_eq!(false, interpret_value_as_boolish("\u{b}OFF"));
    assert_eq!(false, interpret_value_as_boolish("\u{a0}OFF\u{a0}"));
    assert_eq!(false, interpret_value_as_boolish("\u{85}no\u{3000}"));
    assert_eq!(true, interpret_value_as_boolish("\u{a0}ON\u{a0}"));
}

#[test]
fn boolean_interpretation_uses_unicode_uppercase() {
    // The ligature U+FB00 upper-cases to the two letters FF, so this
    // value reads as the token OFF.
    assert_eq!(false, interpret_value_as_boolish("o\u{fb00}"));
    // The long s U+017F upper-cases to S, so this value reads as FALSE.
    assert_eq!(false, interpret_value_as_boolish("fal\u{17f}e"));
}

#[test]
fn boolean_interpretation_true_values() {
    assert_eq!(true, interpret_value_as_boolish("ON"));
    assert_eq!(true, interpret_value_as_boolish("TRUE"));
    assert_eq!(true, interpret_value_as_boolish("1"));
    assert_eq!(true, interpret_value_as_boolish("anything-else"));
    assert_eq!(true, interpret_value_as_boolish("Y"));
    assert_eq!(true, interpret_value_as_boolish("NOTFOUND2"));
}

#[test]
fn bool_tagged_flags_become_boolish() {
    let raw = RawFlag {
        key: "FOO".to_string(),
        cmake_type: CMakeType::Bool,
        value: "ON".to_string(),
    };
    assert_eq!(
        SimpleFlag::Boolish(Key("FOO".to_string()), true),
        SimpleFlag::from_raw(&raw)
    );
    let raw_off = RawFlag {
        key: "BAR".to_string(),
        cmake_type: CMakeType::Bool,
        value: "OFF".to_string(),
    };
    assert_eq!(
        SimpleFlag::Boolish(Key("BAR".to_string()), false),
        SimpleFlag::from_raw(&raw_off)
    );
}

#[test]
fn non_bool_tags_carry_value_through_verbatim() {
    for t in [
        CMakeType::Path,
        CMakeType::FilePath,
        CMakeType::String,
        CMakeType::Internal,
        CMakeType::Static,
        CMakeType::Uninitialized,
    ] {
        let raw = RawFlag {
            key: "K".to_string(),
            cmake_type: t,
            value: "OFF".to_string(),
        };
        assert_eq!(
            SimpleFlag::Stringish(Key("K".to_string()), "OFF".to_string()),
            SimpleFlag::from_raw(&raw)
        );
    }
}
