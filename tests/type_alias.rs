use desynt::{parse_path, MappingTable, PathResolver, TypeGroups};

#[test]
fn definitions_with_raw_identifiers() {
    let alias1: syn::ItemType = syn::parse_str("type r#MyOption<T> = Option<T>;").unwrap();
    let alias2: syn::ItemType = syn::parse_str("type r#MyVec<T> = Vec<T>;").unwrap();
    let alias3: syn::ItemType =
        syn::parse_str("type r#MyHashMap<K, V> = std::collections::HashMap<K, V>;").unwrap();

    assert_eq!(alias1.ident.to_string(), "r#MyOption");
    assert_eq!(alias2.ident.to_string(), "r#MyVec");
    assert_eq!(alias3.ident.to_string(), "r#MyHashMap");

    let mut mappings = MappingTable::new();
    mappings.insert("MyOption".to_string(), "Option".to_string());
    mappings.insert("MyVec".to_string(), "Vec".to_string());
    mappings.insert("MyHashMap".to_string(), "HashMap".to_string());

    let resolver = PathResolver::new(mappings, TypeGroups::all());

    let usage1 = parse_path("r#MyOption<String>").unwrap();
    let usage2 = parse_path("r#MyVec<i32>").unwrap();
    let usage3 = parse_path("r#MyHashMap<String, bool>").unwrap();

    assert_eq!(resolver.resolve(&usage1), Some("Option"));
    assert_eq!(resolver.resolve(&usage2), Some("Vec"));
    assert_eq!(resolver.resolve(&usage3), Some("HashMap"));
}
