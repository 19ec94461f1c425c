use desynt::{parse_path, MappingTable, PathResolver, TypeGroups};
use quote::ToTokens;
use syn::{DeriveInput, Type};

fn alias_resolver() -> PathResolver<MappingTable> {
    let mut mappings = MappingTable::new();
    mappings.insert("MyOption".to_string(), "Option".to_string());
    mappings.insert("MyVec".to_string(), "Vec".to_string());
    mappings.insert("MyHashMap".to_string(), "HashMap".to_string());
    PathResolver::new(mappings, TypeGroups::all())
}

fn field_path(path: &syn::Path) -> desynt::Path {
    parse_path(&path.to_token_stream().to_string()).unwrap()
}

#[test]
fn simple_struct() {
    let resolver = alias_resolver();

    let input: DeriveInput = syn::parse_str(
        r#"
        struct GenericTestStruct {
            optional_field: r#MyOption<String>,
            list_field: r#MyVec<i32>,
            map_field: r#MyHashMap<String, bool>,
            normal_option: Option<String>,
        }
    "#,
    )
    .unwrap();

    let mut seen = 0;
    if let syn::Data::Struct(data) = input.data {
        if let syn::Fields::Named(fields) = data.fields {
            for field in fields.named {
                let field_name = field.ident.unwrap().to_string();

                if let Type::Path(type_path) = field.ty {
                    let path = field_path(&type_path.path);
                    let resolved = resolver.resolve(&path);
                    seen += 1;

                    match field_name.as_str() {
                        "optional_field" => {
                            assert_eq!(
                                resolved,
                                Some("Option"),
                                "r#MyOption<String> should resolve to Option"
                            );
                        }
                        "list_field" => {
                            assert_eq!(resolved, Some("Vec"), "r#MyVec<i32> should resolve to Vec");
                        }
                        "map_field" => {
                            assert_eq!(
                                resolved,
                                Some("HashMap"),
                                "r#MyHashMap<String, bool> should resolve to HashMap"
                            );
                        }
                        "normal_option" => {
                            assert_eq!(
                                resolved,
                                Some("Option"),
                                "Option<String> should resolve to Option"
                            );
                        }
                        _ => panic!("Unexpected field: {}", field_name),
                    }
                }
            }
        }
    }
    assert_eq!(seen, 4);
}

#[test]
fn with_macro() {
    let code = r#"
        #[derive(ToSchema)]
        struct GenericTestStruct {
            optional_field: r#MyOption<String>,
            list_field: r#MyVec<i32>,
            map_field: r#MyHashMap<String, bool>,
            normal_option: Option<String>,
        }
    "#;

    let input: DeriveInput = syn::parse_str(code).unwrap();
    let resolver = alias_resolver();

    if let syn::Data::Struct(data_struct) = input.data {
        if let syn::Fields::Named(fields_named) = data_struct.fields {
            let field_types: Vec<_> = fields_named
                .named
                .iter()
                .filter_map(|field| {
                    if let Type::Path(type_path) = &field.ty {
                        let path = field_path(&type_path.path);
                        Some((
                            field.ident.as_ref().unwrap().to_string(),
                            resolver.resolve(&path).map(|s| s.to_string()),
                        ))
                    } else {
                        None
                    }
                })
                .collect();

            assert_eq!(field_types.len(), 4);

            for (name, resolved) in &field_types {
                match name.as_str() {
                    "optional_field" => assert_eq!(resolved.as_deref(), Some("Option")),
                    "list_field" => assert_eq!(resolved.as_deref(), Some("Vec")),
                    "map_field" => assert_eq!(resolved.as_deref(), Some("HashMap")),
                    "normal_option" => assert_eq!(resolved.as_deref(), Some("Option")),
                    _ => panic!("Unexpected field: {}", name),
                }
            }
        } else {
            panic!("expected named fields");
        }
    } else {
        panic!("expected a struct");
    }
}
