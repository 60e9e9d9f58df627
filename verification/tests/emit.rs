use cargo_fel4::cmake_codegen::{
    cache_to_interesting_flags, filter_to_interesting_flags,
    merge_feature_flags_with_rustflags_env_var, simple_flags_subset, simple_flags_to_rust_writer,
    truthy_boolean_flags_as_rust_identifiers, CMakeCodegenError,
};
use cargo_fel4::codegen::RustCodeGenerationError;
use cargo_fel4::error::Error;
use cargo_fel4::model::{CMakeType, Key, RawFlag, SimpleFlag};
use cargo_fel4::parse::ParseError;
use cargo_fel4::profile::{
    build_flags_to_profile, fel4_manifest_path_from_cargo_manifest_path, Fel4BuildProfile,
};

fn raw(key: &str, t: CMakeType, value: &str) -> RawFlag {
    RawFlag {
        key: key.to_string(),
        cmake_type: t,
        value: value.to_string(),
    }
}

#[test]
fn indentation_control() {
    let f = SimpleFlag::Boolish(Key("A".to_string()), true);
    let mut a = String::new();
    simple_flags_to_rust_writer(&[f.clone()], &mut a, 0).expect("Oh no");
    assert_eq!("pub const A:bool = true;\n", a.as_str());

    let mut b = String::new();
    simple_flags_to_rust_writer(&[f.clone()], &mut b, 4).expect("Oh no");
    assert_eq!("    pub const A:bool = true;\n", b.as_str());
}

#[test]
fn writer_renders_string_constants_with_quotes() {
    let flags = [
        SimpleFlag::Stringish(Key("NAME".to_string()), "value".to_string()),
        SimpleFlag::Boolish(Key("SWITCH".to_string()), false),
    ];
    let mut out = String::new();
    simple_flags_to_rust_writer(&flags, &mut out, 0).expect("should render");
    assert_eq!(
        "pub const NAME:&'static str = \"value\";\npub const SWITCH:bool = false;\n",
        out.as_str()
    );
}

#[test]
fn cache_text_to_declarations_end_to_end() {
    let content = "PLAT:STRING=pc99\nKernelDebugBuild:BOOL=ON\nCMAKE_BUILD_TYPE:STRING=Debug";
    let raws = cache_to_interesting_flags(content).expect("should reduce");
    let simples: Vec<SimpleFlag> = raws.iter().map(SimpleFlag::from_raw).collect();
    let mut out = String::new();
    simple_flags_to_rust_writer(&simples, &mut out, 0).expect("should render");
    assert_eq!(
        "pub const KernelDebugBuild:bool = true;\npub const PLAT:&'static str = \"pc99\";\n",
        out.as_str()
    );
}

#[test]
fn duplicate_identifiers_abort_after_first_line() {
    let flags = [
        SimpleFlag::Boolish(Key("A".to_string()), true),
        SimpleFlag::Boolish(Key("A".to_string()), true),
    ];
    let mut out = String::new();
    let r = simple_flags_to_rust_writer(&flags, &mut out, 0);
    assert_eq!(
        Err(CMakeCodegenError::DuplicateIdentifiers("A".to_string())),
        r
    );
    assert_eq!("pub const A:bool = true;\n", out.as_str());
}

#[test]
fn writer_stops_at_first_generation_failure() {
    let flags = [
        SimpleFlag::Boolish(Key("GOOD".to_string()), false),
        SimpleFlag::Boolish(Key("0BAD".to_string()), true),
        SimpleFlag::Boolish(Key("NEVER".to_string()), true),
    ];
    let mut out = String::new();
    let r = simple_flags_to_rust_writer(&flags, &mut out, 0);
    assert_eq!(
        Err(CMakeCodegenError::GenerationError(
            RustCodeGenerationError::InvalidIdentifier("0BAD".to_string())
        )),
        r
    );
    assert_eq!("pub const GOOD:bool = false;\n", out.as_str());
}

#[test]
fn feature_extraction_is_sorted_true_only_bools_only() {
    let flags = [
        SimpleFlag::Boolish(Key("B".to_string()), true),
        SimpleFlag::Boolish(Key("A".to_string()), true),
        SimpleFlag::Stringish(Key("C".to_string()), "x".to_string()),
        SimpleFlag::Boolish(Key("D".to_string()), false),
    ];
    assert_eq!(
        Ok(vec!["A".to_string(), "B".to_string()]),
        truthy_boolean_flags_as_rust_identifiers(&flags)
    );
}

#[test]
fn feature_extraction_rejects_invalid_truthy_key() {
    let flags = [
        SimpleFlag::Boolish(Key("OK".to_string()), true),
        SimpleFlag::Boolish(Key("0BAD".to_string()), true),
    ];
    assert_eq!(
        Err(CMakeCodegenError::GenerationError(
            RustCodeGenerationError::InvalidIdentifier("0BAD".to_string())
        )),
        truthy_boolean_flags_as_rust_identifiers(&flags)
    );
    // An invalid key on a false-valued or string-valued flag is ignored.
    let harmless = [
        SimpleFlag::Boolish(Key("0SKIPPED".to_string()), false),
        SimpleFlag::Stringish(Key("0ALSO".to_string()), "v".to_string()),
    ];
    assert_eq!(
        Ok(Vec::<String>::new()),
        truthy_boolean_flags_as_rust_identifiers(&harmless)
    );
}

#[test]
fn filter_drops_reserved_keys_and_other_types() {
    let flags = vec![
        raw("CMAKE_VERBOSE", CMakeType::Bool, "ON"),
        raw("KEEP_ME", CMakeType::Bool, "ON"),
        raw("ALSO_KEEP", CMakeType::String, "v"),
        raw("A_PATH", CMakeType::Path, "/tmp/x"),
        raw("INTERNAL_THING", CMakeType::Internal, "z"),
        raw("CMAKE_INSTALL_PREFIX", CMakeType::String, "/usr"),
    ];
    let kept = filter_to_interesting_flags(flags);
    assert_eq!(
        vec![
            raw("ALSO_KEEP", CMakeType::String, "v"),
            raw("KEEP_ME", CMakeType::Bool, "ON"),
        ],
        kept
    );
    for f in &kept {
        assert!(!f.key.starts_with("CMAKE_"));
        assert!(f.cmake_type == CMakeType::Bool || f.cmake_type == CMakeType::String);
    }
}

#[test]
fn filter_orders_by_key_then_type_then_value() {
    let flags = vec![
        raw("K", CMakeType::String, "b"),
        raw("K", CMakeType::Bool, "ON"),
        raw("K", CMakeType::String, "a"),
        raw("J", CMakeType::String, "z"),
    ];
    assert_eq!(
        vec![
            raw("J", CMakeType::String, "z"),
            raw("K", CMakeType::Bool, "ON"),
            raw("K", CMakeType::String, "a"),
            raw("K", CMakeType::String, "b"),
        ],
        filter_to_interesting_flags(flags)
    );
}

#[test]
fn cache_text_reduces_to_sorted_interesting_flags() {
    let content = "B_KEY:BOOL=ON\n# a comment\nCMAKE_NOISE:STRING=x\nA_KEY:STRING=hello\nP:PATH=/nope";
    assert_eq!(
        Ok(vec![
            raw("A_KEY", CMakeType::String, "hello"),
            raw("B_KEY", CMakeType::Bool, "ON"),
        ]),
        cache_to_interesting_flags(content)
    );
    assert_eq!(
        Err(CMakeCodegenError::ParseError(ParseError::InvalidTypeHint)),
        cache_to_interesting_flags("A:BOOL=ON\nB:WHAT=1")
    );
}

#[test]
fn flag_subset_check() {
    let sub = [
        SimpleFlag::Boolish(Key("A".to_string()), true),
        SimpleFlag::Stringish(Key("B".to_string()), "x".to_string()),
    ];
    let sup = [
        SimpleFlag::Stringish(Key("B".to_string()), "x".to_string()),
        SimpleFlag::Boolish(Key("A".to_string()), true),
        SimpleFlag::Boolish(Key("C".to_string()), false),
    ];
    assert!(simple_flags_subset(&sub, &sup));
    assert!(!simple_flags_subset(&sup, &sub));
    let mismatched = [SimpleFlag::Boolish(Key("A".to_string()), false)];
    assert!(!simple_flags_subset(&mismatched, &sup));
}

#[test]
fn merging_feature_flags_into_rustflags() {
    assert_eq!(
        "--cfg feature=\"A\" --cfg feature=\"B\" ",
        merge_feature_flags_with_rustflags_env_var("", &["A".to_string(), "B".to_string()])
    );
    assert_eq!(
        "-C opt-level=2 --cfg feature=\"T\" ",
        merge_feature_flags_with_rustflags_env_var("-C opt-level=2", &["T".to_string()])
    );
    assert_eq!(
        "-C opt-level=2 ",
        merge_feature_flags_with_rustflags_env_var("-C opt-level=2", &[])
    );
    assert_eq!("", merge_feature_flags_with_rustflags_env_var("", &[]));
}

#[test]
fn codegen_errors_map_to_command_errors() {
    assert_eq!(
        Error::ExitStatusError("Invalid type hint in CMakeCache.txt file".to_string()),
        Error::from_codegen_error(&CMakeCodegenError::ParseError(ParseError::InvalidTypeHint))
    );
    assert_eq!(
        Error::ExitStatusError(
            "Duplicate identifiers generated in rust config from CMakeCache.txt: A".to_string()
        ),
        Error::from_codegen_error(&CMakeCodegenError::DuplicateIdentifiers("A".to_string()))
    );
    assert_eq!(
        Error::ExitStatusError(
            "Invalid identifier interpreted from CMakeCache.txt: 0X".to_string()
        ),
        Error::from_codegen_error(&CMakeCodegenError::GenerationError(
            RustCodeGenerationError::InvalidIdentifier("0X".to_string())
        ))
    );
    assert_eq!(
        "[command error] Failed to read CMakeCache.txt file",
        Error::from_codegen_error(&CMakeCodegenError::ParseError(ParseError::IoFailure))
            .message()
            .as_str()
    );
    assert_eq!(
        "[config error] bad fel4.toml\n\nCheck your project's toml files for invalid syntax",
        Error::ConfigError("bad fel4.toml".to_string()).message().as_str()
    );
}

#[test]
fn profile_selection_and_artifact_paths() {
    assert_eq!(Fel4BuildProfile::Debug, build_flags_to_profile(false, false));
    assert_eq!(Fel4BuildProfile::Release, build_flags_to_profile(true, false));
    assert_eq!(
        Fel4BuildProfile::TestDebug,
        build_flags_to_profile(false, true)
    );
    assert_eq!(
        Fel4BuildProfile::TestRelease,
        build_flags_to_profile(true, true)
    );
    assert_eq!("debug", Fel4BuildProfile::Debug.artifact_subdir_path());
    assert_eq!("release", Fel4BuildProfile::Release.artifact_subdir_path());
    assert_eq!(
        "test/debug",
        Fel4BuildProfile::TestDebug.artifact_subdir_path()
    );
    assert_eq!(
        "test/release",
        Fel4BuildProfile::TestRelease.artifact_subdir_path()
    );
}

#[test]
fn fel4_manifest_sits_beside_the_cargo_manifest() {
    assert_eq!(
        "a/b/fel4.toml",
        fel4_manifest_path_from_cargo_manifest_path("a/b/Cargo.toml")
    );
    assert_eq!(
        "./fel4.toml",
        fel4_manifest_path_from_cargo_manifest_path("./Cargo.toml")
    );
    assert_eq!(
        "/fel4.toml",
        fel4_manifest_path_from_cargo_manifest_path("/Cargo.toml")
    );
    assert_eq!(
        "fel4.toml",
        fel4_manifest_path_from_cargo_manifest_path("Cargo.toml")
    );
}
