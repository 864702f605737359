use mcp_authorization::derive::{
    attr_model, derive_auth_schema, extract_enum_requirements, extract_struct_requirements, find_requires_attr, AttrModel,
    DataModel, DeriveError, FieldModel, FieldsModel, VariantModel,
};

fn requires_attr(cap: &str) -> AttrModel {
    AttrModel::Requires(Some(cap.to_string()))
}

fn field(name: &str, attrs: Vec<AttrModel>) -> FieldModel {
    FieldModel { ident: Some(name.to_string()), attrs }
}

fn variant(name: &str, attrs: Vec<AttrModel>) -> VariantModel {
    VariantModel { ident: name.to_string(), attrs }
}

fn pairs(p: &[(&str, &str)]) -> Vec<(String, String)> {
    p.iter().map(|(a, b)| (a.to_string(), b.to_string())).collect()
}

#[test]
fn find_requires_attr_takes_first_string_literal() {
    let attrs = vec![AttrModel::Other, AttrModel::Requires(None), requires_attr("admin"), requires_attr("ops")];
    assert_eq!(find_requires_attr(&attrs), Some("admin".to_string()));
    assert_eq!(find_requires_attr(&vec![AttrModel::Other, AttrModel::Requires(None)]), None);
    assert_eq!(find_requires_attr(&vec![]), None);
}

#[test]
fn struct_requirements_come_from_named_fields() {
    let fields = FieldsModel::Named(vec![
        field("applicant_id", vec![]),
        field("stage_id", vec![requires_attr("backward_routing")]),
        field("reason", vec![AttrModel::Other, requires_attr("backward_routing")]),
        FieldModel { ident: None, attrs: vec![requires_attr("ignored")] },
    ]);
    assert_eq!(
        extract_struct_requirements(&fields),
        pairs(&[("stage_id", "backward_routing"), ("reason", "backward_routing")])
    );
    assert!(extract_struct_requirements(&FieldsModel::Unnamed).is_empty());
    assert!(extract_struct_requirements(&FieldsModel::Unit).is_empty());
}

#[test]
fn enum_requirements_come_from_variants() {
    let variants = vec![
        variant("Success", vec![]),
        variant("ReroutedSuccess", vec![requires_attr("backward_routing")]),
        variant("Error", vec![AttrModel::Requires(None)]),
    ];
    assert_eq!(extract_enum_requirements(&variants), pairs(&[("ReroutedSuccess", "backward_routing")]));
}

#[test]
fn derive_refuses_unions() {
    assert_eq!(derive_auth_schema(&DataModel::Union).unwrap_err(), DeriveError::Union);
    let data = DataModel::Enum(vec![variant("A", vec![requires_attr("x")])]);
    assert_eq!(derive_auth_schema(&data).unwrap(), pairs(&[("A", "x")]));
    let data = DataModel::Struct(FieldsModel::Named(vec![field("f", vec![requires_attr("y")])]));
    assert_eq!(derive_auth_schema(&data).unwrap(), pairs(&[("f", "y")]));
}

#[test]
fn attr_model_recognizes_requires_by_single_name() {
    assert!(matches!(attr_model(Some("requires"), Some("admin".to_string())), AttrModel::Requires(Some(c)) if c == "admin"));
    assert!(matches!(attr_model(Some("requires"), None), AttrModel::Requires(None)));
    assert!(matches!(attr_model(Some("serde"), Some("x".to_string())), AttrModel::Other));
    assert!(matches!(attr_model(None, Some("x".to_string())), AttrModel::Other));
}
