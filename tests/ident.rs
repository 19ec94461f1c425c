use desynt::utils::ident_from_string;
use desynt::{HasRaw, Ident, StripRaw};

#[test]
fn ident_strip_raw() {
    let raw_ident: Ident = ident_from_string("r#type").unwrap();
    let stripped = raw_ident.strip_raw();
    assert_eq!(stripped.to_string(), "type");
    assert!(!stripped.to_string().starts_with("r#"));
}

#[test]
fn strip_raw_no_prefix() {
    let normal_ident: Ident = ident_from_string("normal").unwrap();
    let stripped = normal_ident.strip_raw();
    assert_eq!(stripped.to_string(), "normal");
}

#[test]
fn ident_has_raw() {
    let raw_ident: Ident = ident_from_string("r#type").unwrap();
    let normal_ident: Ident = ident_from_string("normal").unwrap();

    assert!(raw_ident.has_raw());
    assert!(!normal_ident.has_raw());
}
