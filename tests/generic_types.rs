use desynt::{parse_path, DynamicPathResolver};

#[test]
fn test_generic_type_resolution() {
    let mut resolver = DynamicPathResolver::with_primitives();

    resolver.add_mapping("std::option::Option", "Option");
    resolver.add_mapping("Option", "Option");

    let path_str = "Option<butane::ForeignKey<Foo>>";
    let path = parse_path(path_str).unwrap();

    println!("Input path: {}", path_str);
    println!(
        "Parsed path segments: {:?}",
        path.segments.iter().map(|s| s.ident.to_string()).collect::<Vec<_>>()
    );

    let result = resolver.resolve(&path);
    println!("Resolver result: {:?}", result);

    assert_eq!(result, Some("Option"));
}

#[test]
fn test_complex_generic_types() {
    let mut resolver = DynamicPathResolver::with_primitives();

    resolver.add_mapping("Vec", "Vec");
    resolver.add_mapping("HashMap", "HashMap");
    resolver.add_mapping("Option", "Option");

    let test_cases = vec![
        ("Vec<String>", Some("Vec")),
        ("HashMap<String, i32>", Some("HashMap")),
        ("Option<Vec<HashMap<String, i32>>>", Some("Option")),
        ("std::option::Option<std::vec::Vec<String>>", Some("Option")),
    ];

    for (case, expected) in test_cases {
        let path = parse_path(case).unwrap();
        let result = resolver.resolve(&path);
        println!("Testing: {} -> {:?}", case, result);
        assert_eq!(result, expected, "Failed for case: {}", case);
    }
}

#[test]
fn test_generic_resolution_strategies() {
    let mut resolver = DynamicPathResolver::with_primitives();

    resolver.add_mapping("std::option::Option", "Option");

    let path1 = parse_path("std::option::Option").unwrap();
    assert_eq!(resolver.resolve(&path1), Some("Option"));

    let path2 = parse_path("std::option::Option<String>").unwrap();
    assert_eq!(resolver.resolve(&path2), Some("Option"));

    resolver.add_mapping("Result", "Result");
    let path3 = parse_path("Result<String, Error>").unwrap();
    assert_eq!(resolver.resolve(&path3), Some("Result"));

    let path4 = parse_path("UnknownType<T>").unwrap();
    assert_eq!(resolver.resolve(&path4), None);
}
