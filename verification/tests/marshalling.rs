use surfer::error::IndexError;
use surfer::marshal::{marshal_document, reconstruct_document, FieldValue};
use surfer::utils::to_schema;
use surfer::value::Value;

fn book_record() -> Value {
    Value::Mapping(vec![
        (
            Value::Text("title".to_string()),
            Value::Text("The Old Man and the Sea".to_string()),
        ),
        (Value::Text("year".to_string()), Value::U16(1952)),
        (Value::Text("rating".to_string()), Value::I8(-3)),
        (Value::Text("score".to_string()), Value::F64Bits(4621256167635550208)),
    ])
}

#[test]
fn validate_schema_builder_for_vec_does_not_work() {
    let identity = "Hello".to_string();
    let buffer: Vec<Value> = "World".as_bytes().iter().map(|b| Value::U8(*b)).collect();
    let data = Value::Mapping(vec![
        (Value::Text("buffer".to_string()), Value::Sequence(buffer)),
        (Value::Text("identity".to_string()), Value::Text(identity)),
    ]);
    let schema = to_schema(&data, None).unwrap();
    let document = marshal_document(&schema, &data);
    assert!(document.is_err());
}

#[test]
fn marshalling_widens_integers_and_keeps_text() {
    let record = book_record();
    let schema = to_schema(&record, None).unwrap();
    let document = marshal_document(&schema, &record).unwrap();
    assert_eq!(document.entries.len(), 4);
    assert_eq!(
        document.entries[0],
        (
            "title".to_string(),
            FieldValue::Text("The Old Man and the Sea".to_string())
        )
    );
    assert_eq!(document.entries[1], ("year".to_string(), FieldValue::U64(1952)));
    assert_eq!(document.entries[2], ("rating".to_string(), FieldValue::I64(-3)));
    assert_eq!(
        document.entries[3],
        ("score".to_string(), FieldValue::F64Bits(4621256167635550208))
    );
}

#[test]
fn round_trip_returns_the_record_in_canonical_form() {
    let record = book_record();
    let schema = to_schema(&record, None).unwrap();
    let document = marshal_document(&schema, &record).unwrap();
    // a fully stored document comes back with one value per field
    let retrieved: Vec<(String, Vec<FieldValue>)> = document
        .entries
        .iter()
        .map(|(name, value)| (name.clone(), vec![value.clone()]))
        .collect();
    let rebuilt = reconstruct_document("books", &retrieved).unwrap();
    let expected = Value::Mapping(vec![
        (
            Value::Text("title".to_string()),
            Value::Text("The Old Man and the Sea".to_string()),
        ),
        (Value::Text("year".to_string()), Value::U64(1952)),
        (Value::Text("rating".to_string()), Value::I64(-3)),
        (Value::Text("score".to_string()), Value::F64Bits(4621256167635550208)),
    ]);
    assert_eq!(rebuilt, expected);
}

#[test]
fn non_record_values_cannot_be_marshalled() {
    let record = book_record();
    let schema = to_schema(&record, None).unwrap();
    let result = marshal_document(&schema, &Value::Text("plain".to_string()));
    assert_eq!(result.unwrap_err(), IndexError::DocParseNotRecord);
}

#[test]
fn unknown_fields_are_rejected() {
    let record = book_record();
    let schema = to_schema(&record, None).unwrap();
    let stray = Value::Mapping(vec![(
        Value::Text("publisher".to_string()),
        Value::Text("x".to_string()),
    )]);
    let result = marshal_document(&schema, &stray);
    assert_eq!(
        result.unwrap_err(),
        IndexError::DocParseUnknownField { field: "publisher".to_string() }
    );
}

#[test]
fn booleans_do_not_fit_their_own_text_field() {
    // Bool classifies as Text at inference time, but the textual parse
    // path stores no boolean under a text field: inserting such a record
    // into its own inferred schema fails
    let record = Value::Mapping(vec![(Value::Text("flag".to_string()), Value::Bool(true))]);
    let schema = to_schema(&record, None).unwrap();
    let result = marshal_document(&schema, &record);
    assert_eq!(
        result.unwrap_err(),
        IndexError::DocParseKindMismatch { field: "flag".to_string() }
    );
}

#[test]
fn duplicate_keys_are_rejected() {
    let record = Value::Mapping(vec![
        (Value::Text("title".to_string()), Value::Text("a".to_string())),
        (Value::Text("title".to_string()), Value::Text("b".to_string())),
    ]);
    let schema = to_schema(
        &Value::Mapping(vec![(
            Value::Text("title".to_string()),
            Value::Text("".to_string()),
        )]),
        None,
    )
    .unwrap();
    let result = marshal_document(&schema, &record);
    assert_eq!(
        result.unwrap_err(),
        IndexError::DocParseDuplicateField { field: "title".to_string() }
    );
}

#[test]
fn marshalling_rejects_non_text_record_keys() {
    let record = book_record();
    let schema = to_schema(&record, None).unwrap();
    let bad = Value::Mapping(vec![(Value::U8(7), Value::Text("x".to_string()))]);
    let result = marshal_document(&schema, &bad);
    assert_eq!(result.unwrap_err(), IndexError::DocParseNonStringKey);
}

#[test]
fn a_field_without_stored_values_fails_reconstruction() {
    let retrieved: Vec<(String, Vec<FieldValue>)> = vec![
        ("title".to_string(), vec![FieldValue::Text("x".to_string())]),
        ("body".to_string(), vec![]),
    ];
    let result = reconstruct_document("books", &retrieved);
    assert_eq!(
        result.unwrap_err(),
        IndexError::MissingFieldValue {
            collection: "books".to_string(),
            field: "body".to_string(),
        }
    );
}

#[test]
fn errors_carry_a_two_part_diagnostic() {
    let error = IndexError::MissingFieldValue {
        collection: "books".to_string(),
        field: "body".to_string(),
    };
    assert_eq!(error.message(), "Unable to jsonify: books");
    assert_eq!(error.reason(), "Field: body does not have any value");
    let error = IndexError::NonStringKey;
    assert_eq!(error.message(), "Unable to create schema");
    assert_eq!(error.reason(), "keys were not string");
}
