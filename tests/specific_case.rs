use desynt::{parse_path, DynamicPathResolver};

#[test]
fn test_specific_requested_case() {
    let mut resolver = DynamicPathResolver::with_primitives();

    resolver.add_mapping("Option", "Option");

    let path_str = "Option<butane::ForeignKey<Foo>>";
    let path = parse_path(path_str).unwrap();

    let result = resolver.resolve(&path);

    assert_eq!(result, Some("Option"));
    println!("✓ {} resolves to {:?}", path_str, result);
}

#[test]
fn test_more_realistic_cases() {
    let mut resolver = DynamicPathResolver::with_primitives();

    resolver.add_mapping("std::option::Option", "Option");
    resolver.add_mapping("std::vec::Vec", "Vec");
    resolver.add_mapping("std::collections::HashMap", "HashMap");

    resolver.add_mapping("Option", "Option");
    resolver.add_mapping("Vec", "Vec");
    resolver.add_mapping("HashMap", "HashMap");

    let test_cases = vec![
        ("Option<String>", "Option"),
        ("Vec<i32>", "Vec"),
        ("HashMap<String, i32>", "HashMap"),
        ("Option<Vec<String>>", "Option"),
        ("Vec<Option<i32>>", "Vec"),
        ("Option<butane::ForeignKey<User>>", "Option"),
        ("Vec<diesel::result::QueryResult<User>>", "Vec"),
        ("std::option::Option<String>", "Option"),
        ("std::vec::Vec<User>", "Vec"),
        ("std::collections::HashMap<String, Value>", "HashMap"),
    ];

    for (input, expected) in test_cases {
        let path = parse_path(input).unwrap();
        let result = resolver.resolve(&path);
        assert_eq!(result, Some(expected), "Failed for: {}", input);
        println!("✓ {} -> {}", input, expected);
    }
}
