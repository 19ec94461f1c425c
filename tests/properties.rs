use desynt::definitions::{builtin_type_names, get_builtin_mapping};
use desynt::{parse_path, DynamicPathResolver, EmptyStorage, PathResolver, TypeGroups};

#[test]
fn resolution_is_deterministic() {
    let mut resolver = DynamicPathResolver::with_all_groups();
    resolver.add_mapping("my::custom::Type", "CustomType");
    for text in ["Type<String>", "other::Option", "Option<T>", "std::primitive::u8", "x::y::Z"] {
        let path = parse_path(text).unwrap();
        let first = resolver.resolve(&path);
        let second = resolver.resolve(&path);
        assert_eq!(first, second, "{}", text);
    }
}

#[test]
fn normalizing_twice_is_normalizing_once() {
    let resolver = DynamicPathResolver::default();
    let once = resolver.normalize_path_string("::r#std::r#string::String");
    assert_eq!(once, "std::string::String");
    assert_eq!(resolver.normalize_path_string(&once), once);
    assert_eq!(resolver.normalize_path_string("plain"), "plain");
    assert_eq!(resolver.normalize_path_string(""), "");
    assert_eq!(resolver.normalize_path_string("a::r#"), "a::");
}

#[test]
fn structured_and_text_keys_agree() {
    let resolver = DynamicPathResolver::default();
    let path = parse_path("::r#std::r#option::Option<T>").unwrap();
    assert_eq!(resolver.normalize_path(&path), "std::option::Option");
    assert_eq!(
        resolver.normalize_path_string("::r#std::r#option::Option"),
        resolver.normalize_path(&path)
    );
}

#[test]
fn escaped_and_qualified_paths_resolve_like_clean_ones() {
    let mut resolver = DynamicPathResolver::with_prelude();
    resolver.add_mapping("my::r#type::Thing", "Thing");
    let clean = parse_path("my::type_::Thing").unwrap();
    assert_eq!(resolver.resolve(&clean), None);
    for text in ["my::r#type::Thing", "::my::r#type::Thing", "r#my::r#type::r#Thing"] {
        let path = parse_path(text).unwrap();
        assert_eq!(resolver.resolve(&path), Some("Thing"), "{}", text);
    }
}

#[test]
fn exact_match_wins_over_suffix_matching() {
    let mut resolver = DynamicPathResolver::with_all_groups();
    resolver.add_mapping("std::option::Option", "FromStd");
    resolver.add_mapping("Option", "Bare");
    let path = parse_path("Option<T>").unwrap();
    assert_eq!(resolver.resolve(&path), Some("Bare"));
}

#[test]
fn generic_arguments_and_module_prefixes_are_transparent() {
    let mut resolver = DynamicPathResolver::default();
    resolver.add_mapping("std::option::Option", "Opt");
    for text in ["std::option::Option", "std::option::Option<T>", "Option<T>", "option::Option<T>"] {
        let path = parse_path(text).unwrap();
        assert_eq!(resolver.resolve(&path), Some("Opt"), "{}", text);
    }
}

#[test]
fn same_final_name_elsewhere_does_not_resolve() {
    let mut resolver = DynamicPathResolver::default();
    resolver.add_mapping("std::option::Option", "Option");
    let other = parse_path("other::Option").unwrap();
    assert_eq!(resolver.resolve(&other), None);
    let other_generic = parse_path("unknown::Option<T>").unwrap();
    assert_eq!(resolver.resolve(&other_generic), None);
}

#[test]
fn std_rooted_candidate_is_preferred() {
    let mut resolver = DynamicPathResolver::default();
    resolver.add_mapping("my::mod::Option", "B");
    resolver.add_mapping("std::option::Option", "A");
    let path = parse_path("Option<T>").unwrap();
    assert_eq!(resolver.resolve(&path), Some("A"));
}

#[test]
fn shorter_then_lexicographic_candidate_is_preferred() {
    let mut resolver = DynamicPathResolver::default();
    resolver.add_mapping("x::y::Item", "Long");
    resolver.add_mapping("b::Item", "B");
    resolver.add_mapping("a::Item", "A");
    let path = parse_path("Item<T>").unwrap();
    assert_eq!(resolver.resolve(&path), Some("A"));

    let mut resolver = DynamicPathResolver::default();
    resolver.add_mapping("x::y::Item", "Long");
    resolver.add_mapping("z::Item", "Short");
    assert_eq!(resolver.resolve(&path), Some("Short"));
}

#[test]
fn count_is_distinct_normalized_keys() {
    let mut resolver = DynamicPathResolver::default();
    resolver.add_mapping("a::B", "One");
    resolver.add_mapping("::a::B", "Two");
    resolver.add_mapping("r#a::r#B", "Three");
    resolver.add_mapping("c::D", "Four");
    assert_eq!(resolver.len(), 2);
    resolver.set_groups(TypeGroups::all());
    assert_eq!(resolver.len(), 2);
    assert!(!resolver.is_empty());

    resolver.clear();
    assert_eq!(resolver.len(), 0);
    assert!(!resolver.is_empty());
    resolver.set_groups(TypeGroups::none());
    assert!(resolver.is_empty());
}

#[test]
fn empty_backend_without_groups() {
    let resolver: PathResolver<EmptyStorage> = PathResolver::empty();
    let path = parse_path("anything::Type").unwrap();
    assert_eq!(resolver.resolve(&path), None);
    assert_eq!(resolver.len(), 0);
    assert!(resolver.is_empty());
}

#[test]
fn primitives_group_only() {
    let resolver = DynamicPathResolver::with_primitives();
    for text in ["i32", "std::primitive::i32", "core::i32"] {
        let path = parse_path(text).unwrap();
        assert_eq!(resolver.resolve(&path), Some("i32"), "{}", text);
    }
    let string = parse_path("String").unwrap();
    assert_eq!(resolver.resolve(&string), None);
    let std_string = parse_path("std::string::String").unwrap();
    assert_eq!(resolver.resolve(&std_string), None);
}

#[test]
fn custom_mapping_with_all_groups() {
    let mut resolver = DynamicPathResolver::with_all_groups();
    resolver.add_mapping("my_app::models::User", "UserModel");
    let user = parse_path("my_app::models::User").unwrap();
    assert_eq!(resolver.resolve(&user), Some("UserModel"));
    let wrapped = parse_path("Vec<my_app::models::User>").unwrap();
    assert_eq!(resolver.resolve(&wrapped), Some("Vec"));
}

#[test]
fn built_in_groups_are_consulted_in_order() {
    let all = TypeGroups::all();
    assert_eq!(get_builtin_mapping("core::primitive::u16", all), Some("u16"));
    assert_eq!(get_builtin_mapping("alloc::vec::Vec", all), Some("Vec"));
    assert_eq!(get_builtin_mapping("std::collections::hash_map::HashMap", all), Some("HashMap"));
    assert_eq!(get_builtin_mapping("alloc::rc::Rc", TypeGroups::with_prelude()), None);
    assert_eq!(get_builtin_mapping("std::vec::Vec", TypeGroups::none()), None);
    assert_eq!(get_builtin_mapping("std::Vec", all), None);
}

#[test]
fn conventional_paths_reach_common_std_types() {
    let resolver: PathResolver<EmptyStorage> = PathResolver::all_groups();
    for (text, expected) in [
        ("HashMap<K, V>", "HashMap"),
        ("collections::HashMap<K, V>", "HashMap"),
        ("Rc<T>", "Rc"),
        ("Cow<'a, str>", "Cow"),
        ("LinkedList<T>", "LinkedList"),
    ] {
        let path = parse_path(text).unwrap();
        assert_eq!(resolver.resolve(&path), Some(expected), "{}", text);
    }
    let prelude = PathResolver::<EmptyStorage>::with_prelude();
    let path = parse_path("HashMap<K, V>").unwrap();
    assert_eq!(prelude.resolve(&path), None);
}

#[test]
fn has_mapping_needs_an_exact_key() {
    let resolver: PathResolver<EmptyStorage> = PathResolver::all_groups();
    assert!(resolver.has_mapping(&parse_path("std::vec::Vec<T>").unwrap()));
    assert!(!resolver.has_mapping(&parse_path("Vec<T>").unwrap()));
}

#[test]
fn canonical_types_lists_custom_then_group_names() {
    let mut resolver = DynamicPathResolver::with_prelude();
    resolver.add_mapping("a::B", "Bee");
    let names = resolver.canonical_types();
    assert_eq!(names.len(), 1 + 17 + 5);
    assert_eq!(names[0], "Bee");
    assert_eq!(names[1], "i8");
    assert_eq!(names[18], "String");
    assert_eq!(names[22], "Box");
    assert_eq!(resolver.path_patterns(), vec!["a::B"]);
    assert_eq!(builtin_type_names(TypeGroups::none()).len(), 0);
    assert_eq!(builtin_type_names(TypeGroups::all()).len(), 31);
}

#[test]
fn group_queries() {
    let mut resolver = DynamicPathResolver::with_prelude();
    assert!(resolver.uses_groups());
    assert!(resolver.uses_primitives());
    assert!(resolver.uses_prelude());
    assert!(!resolver.uses_common_std());
    assert_eq!(resolver.groups(), TypeGroups::with_prelude());
    resolver.set_groups(TypeGroups::default());
    assert!(!resolver.uses_groups());
    assert!(TypeGroups::none().is_empty());
    assert!(!TypeGroups::primitives_only().is_empty());
}

#[test]
fn parsed_paths_keep_argument_markers() {
    let path = parse_path("::a::b<T>::C<U>").unwrap();
    assert!(path.leading_colon);
    let marks: Vec<bool> = path.segments.iter().map(|s| s.has_arguments).collect();
    assert_eq!(marks, vec![false, true, true]);
    assert!(parse_path("a::").is_none());
}
