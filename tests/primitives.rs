use desynt::{parse_path, HasRaw, StripRaw};

#[test]
fn std_primitive_types() {
    let path = parse_path("::std::num::f64").unwrap();
    let stripped = path.strip_raw();

    let segments: Vec<String> = stripped.segments.iter().map(|seg| seg.ident.to_string()).collect();

    assert_eq!(segments, vec!["std", "num", "f64"]);
    assert!(!path.has_raw());
}

#[test]
fn core_primitive_types() {
    let path = parse_path("::core::num::f64").unwrap();
    let stripped = path.strip_raw();

    let segments: Vec<String> = stripped.segments.iter().map(|seg| seg.ident.to_string()).collect();

    assert_eq!(segments, vec!["core", "num", "f64"]);
    assert!(!path.has_raw());
}

#[test]
fn std_with_raw_in_middle() {
    let path = parse_path("::std::r#num::f64").unwrap();
    let stripped = path.strip_raw();

    let segments: Vec<String> = stripped.segments.iter().map(|seg| seg.ident.to_string()).collect();

    assert_eq!(segments, vec!["std", "num", "f64"]);
    assert!(path.has_raw());
}

#[test]
fn core_with_raw_in_middle() {
    let path = parse_path("::core::r#num::f64").unwrap();
    let stripped = path.strip_raw();

    let segments: Vec<String> = stripped.segments.iter().map(|seg| seg.ident.to_string()).collect();

    assert_eq!(segments, vec!["core", "num", "f64"]);
    assert!(path.has_raw());
}

#[test]
fn raw_at_beginning() {
    let path = parse_path("::r#std::num::f64").unwrap();
    let stripped = path.strip_raw();

    let segments: Vec<String> = stripped.segments.iter().map(|seg| seg.ident.to_string()).collect();

    assert_eq!(segments, vec!["std", "num", "f64"]);
    assert!(path.has_raw());
}

#[test]
fn raw_at_end() {
    let path = parse_path("::std::num::r#f64").unwrap();
    let stripped = path.strip_raw();

    let segments: Vec<String> = stripped.segments.iter().map(|seg| seg.ident.to_string()).collect();

    assert_eq!(segments, vec!["std", "num", "f64"]);
    assert!(path.has_raw());
}

#[test]
fn multiple_raw_identifiers() {
    let path = parse_path("::r#std::r#num::r#f64").unwrap();
    let stripped = path.strip_raw();

    let segments: Vec<String> = stripped.segments.iter().map(|seg| seg.ident.to_string()).collect();

    assert_eq!(segments, vec!["std", "num", "f64"]);
    assert!(path.has_raw());
}

#[test]
fn complex_primitive_path_with_raw() {
    let path = parse_path("::std::r#primitive::r#types::i32").unwrap();
    let stripped = path.strip_raw();

    let segments: Vec<String> = stripped.segments.iter().map(|seg| seg.ident.to_string()).collect();

    assert_eq!(segments, vec!["std", "primitive", "types", "i32"]);
    assert!(path.has_raw());
}

#[test]
fn various_primitive_types() {
    let primitives = vec![
        "::std::num::i8",
        "::std::num::i16",
        "::std::num::i32",
        "::std::num::i64",
        "::std::num::i128",
        "::std::num::u8",
        "::std::num::u16",
        "::std::num::u32",
        "::std::num::u64",
        "::std::num::u128",
        "::std::num::f32",
        "::std::num::f64",
        "::core::str",
        "::std::string::String",
    ];

    for primitive in primitives {
        let path = parse_path(primitive).unwrap();
        let stripped = path.strip_raw();

        assert!(!path.has_raw());

        let written_segments: Vec<String> =
            path.segments.iter().map(|seg| seg.ident.to_string()).collect();
        let stripped_segments: Vec<String> =
            stripped.segments.iter().map(|seg| seg.ident.to_string()).collect();

        assert_eq!(written_segments, stripped_segments);
    }
}

#[test]
fn mixed_raw_and_normal_segments() {
    let mixed_path = parse_path("normal::r#raw::normal::r#another").unwrap();
    let stripped = mixed_path.strip_raw();

    let segments: Vec<String> = stripped.segments.iter().map(|seg| seg.ident.to_string()).collect();

    assert_eq!(segments, vec!["normal", "raw", "normal", "another"]);
    assert!(mixed_path.has_raw());
}
