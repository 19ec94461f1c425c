use desynt::{parse_path, DynamicPathResolver};

#[test]
fn test_equal_treatment_of_stdlib_and_custom_types() {
    let mut resolver = DynamicPathResolver::with_primitives();

    resolver.add_mapping("std::option::Option", "StdOption");
    resolver.add_mapping("butane::AutoPk", "AutoPk");
    resolver.add_mapping("my::custom::Type", "CustomType");

    let test_cases = vec![
        ("std::option::Option", Some("StdOption")),
        ("Option<T>", Some("StdOption")),
        ("std::option::Option<T>", Some("StdOption")),
        ("butane::AutoPk", Some("AutoPk")),
        ("AutoPk<i64>", Some("AutoPk")),
        ("butane::AutoPk<i64>", Some("AutoPk")),
        ("my::custom::Type", Some("CustomType")),
        ("Type<String>", Some("CustomType")),
        ("my::custom::Type<String>", Some("CustomType")),
    ];

    for (input, expected) in test_cases {
        let path = parse_path(input).unwrap();
        let result = resolver.resolve(&path);
        assert_eq!(result, expected, "Failed for: {}", input);
        println!("✓ {} -> {:?}", input, result);
    }

    println!("\n✓ All types (stdlib and custom) are treated equally!");
}
