use surfer::schema::{Control, Controls, FieldKind, IntOptions, TextOptions};
use surfer::utils::{as_schema_builder, classify_value, field_names, resolve_number_option, resolve_text_option, to_schema};
use surfer::value::Value;

#[test]
fn validate_resolve_text_option() {
    let key = "dummy";
    let mut control = Controls::new();
    let text_options = TextOptions::text();
    control.insert(key.to_string(), Control::ControlTextOptions(text_options));
    let options = resolve_text_option(key, Some(&control));
    assert_eq!(options.is_stored(), false);
}

#[test]
fn validate_resolve_default_text_option() {
    let key = "dummy";
    let options = resolve_text_option(key, None);
    assert_eq!(options.is_stored(), true);
}

#[test]
fn validate_resolve_number_option() {
    let key = "dummy";
    let mut control = Controls::new();
    let int_options = IntOptions::default();
    control.insert(key.to_string(), Control::ControlIntOptions(int_options));
    let options = resolve_number_option(key, Some(&control));
    assert_eq!(options.is_stored(), false);
}

#[test]
fn validate_resolve_default_number_option() {
    let key = "dummy";
    let options = resolve_number_option(key, None);
    assert_eq!(options.is_stored(), true);
}

#[test]
fn invalid_resolve_text_option() {
    let key = "dummy";
    let mut control = Controls::new();
    let int_options = IntOptions::default();
    control.insert(key.to_string(), Control::ControlIntOptions(int_options));
    let options = resolve_text_option(key, Some(&control));
    assert_eq!(options.is_stored(), true);
}

#[test]
fn default_resolve_text_option() {
    let key = "dummy";
    let mut control = Controls::new();
    control.insert(key.to_string(), Control::ControlTextOptions(TextOptions::default()));
    let options = resolve_text_option(key, Some(&control));
    assert_eq!(options.is_stored(), false);
}

#[test]
fn default_resolve_number_option() {
    let key = "dummy";
    let mut control = Controls::new();
    control.insert(key.to_string(), Control::ControlIntOptions(IntOptions::default()));
    let options = resolve_number_option(key, Some(&control));
    assert_eq!(options.is_stored(), false);
}

#[test]
fn invalid_resolve_number_option() {
    let key = "dummy";
    let mut control = Controls::new();
    let text_options = TextOptions::text();
    control.insert(key.to_string(), Control::ControlTextOptions(text_options));
    let options = resolve_number_option(key, Some(&control));
    assert_eq!(options.is_stored(), true);
}

#[test]
fn invalid_field_names() {
    // a unit struct converts to the null value, which has no fields
    let value = Value::Null;
    let result = field_names(&value);
    assert!(result.is_none());
}

#[test]
fn validate_error_on_empty_struct() {
    // a field-less struct converts to the null value, not to a mapping
    let value = Value::Null;
    let result = as_schema_builder(&value, None);
    assert!(result.is_err());
}

#[test]
fn validate_schema_builder_for_emptish() {
    // an absent option converts to the null value, which has no field kind
    let value = Value::Mapping(vec![(
        Value::Text("value".to_string()),
        Value::Null,
    )]);
    let result = as_schema_builder(&value, None);
    assert!(result.is_err());
}

#[test]
fn field_names_of_a_mapping() {
    let value = Value::Mapping(vec![
        (Value::Text("title".to_string()), Value::Text("".to_string())),
        (Value::Text("year".to_string()), Value::U16(1952)),
    ]);
    let names = field_names(&value).unwrap();
    assert_eq!(names, vec!["title".to_string(), "year".to_string()]);
}

#[test]
fn schema_kinds_follow_the_classification_table() {
    let value = Value::Mapping(vec![
        (Value::Text("title".to_string()), Value::Text("x".to_string())),
        (Value::Text("flag".to_string()), Value::Bool(true)),
        (Value::Text("count".to_string()), Value::U8(3)),
        (Value::Text("delta".to_string()), Value::I32(-4)),
        (Value::Text("ratio".to_string()), Value::F64Bits(0)),
        (Value::Text("blob".to_string()), Value::Sequence(vec![Value::U8(1)])),
    ]);
    let schema = to_schema(&value, None).unwrap();
    let kinds: Vec<FieldKind> = schema.fields.iter().map(|f| f.kind).collect();
    assert_eq!(
        kinds,
        vec![
            FieldKind::Text,
            FieldKind::Text,
            FieldKind::U64,
            FieldKind::I64,
            FieldKind::F64,
            FieldKind::Bytes,
        ]
    );
    // defaults: stored and indexed for text and numeric fields
    assert!(schema.fields[0].stored && schema.fields[0].indexed);
    assert!(schema.fields[2].stored && schema.fields[2].indexed);
}

#[test]
fn classification_rejects_null_and_nested_mappings() {
    assert_eq!(classify_value(&Value::Null), None);
    assert_eq!(classify_value(&Value::Mapping(vec![])), None);
    assert_eq!(classify_value(&Value::Sequence(vec![])), Some(FieldKind::Bytes));
}

#[test]
fn non_string_key_is_rejected() {
    let value = Value::Mapping(vec![(Value::U8(1), Value::Text("x".to_string()))]);
    let result = to_schema(&value, None);
    assert_eq!(result.unwrap_err(), surfer::error::IndexError::NonStringKey);
}

#[test]
fn empty_mapping_infers_an_empty_schema() {
    // a deliberate design choice: an empty mapping yields a zero-field
    // schema rather than an error
    let value = Value::Mapping(vec![]);
    let schema = to_schema(&value, None).unwrap();
    assert_eq!(schema.num_fields(), 0);
}

#[test]
fn override_applies_only_to_its_own_field() {
    let mut control = Controls::new();
    control.insert(
        "title".to_string(),
        Control::ControlTextOptions(TextOptions::text()),
    );
    let value = Value::Mapping(vec![
        (Value::Text("title".to_string()), Value::Text("x".to_string())),
        (Value::Text("body".to_string()), Value::Text("y".to_string())),
    ]);
    let schema = to_schema(&value, Some(&control)).unwrap();
    assert_eq!(schema.fields[0].stored, false);
    assert_eq!(schema.fields[0].indexed, true);
    assert_eq!(schema.fields[1].stored, true);
    assert_eq!(schema.fields[1].indexed, true);
}

#[test]
fn options_compose_stepwise() {
    let options = TextOptions::text();
    assert!(options.is_indexed() && !options.is_stored());
    let options = options.set_stored();
    assert!(options.is_indexed() && options.is_stored());
    let options = TextOptions::default().set_indexed();
    assert!(options.is_indexed() && !options.is_stored());
    let number = IntOptions::default();
    assert!(!number.is_indexed() && !number.is_stored());
    let number = number.set_indexed().set_stored();
    assert!(number.is_indexed() && number.is_stored());
}
