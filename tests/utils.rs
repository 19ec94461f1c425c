use desynt::utils;

#[test]
fn ident_from_string() {
    let raw_ident = utils::ident_from_string("r#type").unwrap();
    let normal_ident = utils::ident_from_string("normal").unwrap();

    assert_eq!(raw_ident.to_string(), "r#type");
    assert_eq!(normal_ident.to_string(), "normal");
}

#[test]
fn is_raw_ident_cases() {
    assert_eq!(utils::is_raw_ident("r#type"), true);
    assert_eq!(utils::is_raw_ident("type"), false);
    assert_eq!(utils::is_raw_ident("r"), false);
    assert_eq!(utils::is_raw_ident("#type"), false);
}

#[test]
fn strip_raw_prefix_cases() {
    assert_eq!(utils::strip_raw_prefix("r#type"), "type");
    assert_eq!(utils::strip_raw_prefix("type"), "type");
    assert_eq!(utils::strip_raw_prefix("r#"), "");
}

#[test]
fn ident_from_string_rejects_non_identifiers() {
    assert!(utils::ident_from_string("type").is_none());
    assert!(utils::ident_from_string("a::b").is_none());
    assert!(utils::ident_from_string("").is_none());
}
