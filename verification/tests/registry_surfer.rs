use surfer::registry::{effective_limit, Surfer, SurferBuilder};
use surfer::utils::{join, random_string, to_schema};
use surfer::value::Value;

fn old_man_record() -> Value {
    Value::Mapping(vec![
        (
            Value::Text("title".to_string()),
            Value::Text("The Old Man and the Sea".to_string()),
        ),
        (
            Value::Text("body".to_string()),
            Value::Text("He was an old man who fished alone in a skiff.".to_string()),
        ),
    ])
}

fn registered_surfer(name: &str) -> Surfer {
    let mut builder = SurferBuilder::default();
    builder.set_home("tmp");
    builder.add_serde(name.to_string(), &old_man_record());
    Surfer::new(builder)
}

#[test]
fn default_home_is_indexes() {
    let builder = SurferBuilder::default();
    let surfer = Surfer::new(builder);
    assert_eq!(surfer.home().as_str(), "indexes");
}

#[test]
fn set_home_overrides_the_default() {
    let surfer = registered_surfer("books");
    assert_eq!(surfer.home().as_str(), "tmp");
}

#[test]
fn which_index_prefixes_home() {
    let surfer = registered_surfer("books");
    assert_eq!(surfer.which_index("books"), Some("tmp/books".to_string()));
    assert_eq!(surfer.which_index("missing"), None);
}

#[test]
fn which_index_keeps_a_home_prefixed_name() {
    let surfer = registered_surfer("tmpdata");
    // the name already starts with the home prefix and stays as it is
    assert_eq!(surfer.which_index("tmpdata"), Some("tmpdata".to_string()));
}

#[test]
fn join_inserts_one_separator() {
    assert_eq!(join("tmp", "books"), Some("tmp/books".to_string()));
    assert_eq!(join("tmp/", "books"), Some("tmp/books".to_string()));
    assert_eq!(join("", "books"), Some("books".to_string()));
    assert_eq!(join("tmp", "/abs"), Some("/abs".to_string()));
}

#[test]
fn unknown_collection_write_is_a_silent_no_op() {
    let mut surfer = registered_surfer("books");
    let before = surfer.clone();
    let result = surfer.insert_struct("nonexistent", &old_man_record());
    assert_eq!(result, Ok(None));
    assert_eq!(surfer.clone(), before);
    let batch = vec![old_man_record()];
    let result = surfer.insert_structs("nonexistent", &batch);
    assert_eq!(result, Ok(None));
    assert_eq!(surfer.clone(), before);
}

#[test]
fn unknown_collection_read_returns_nothing() {
    let mut surfer = registered_surfer("books");
    assert!(surfer.prepare_read("nonexistent", None).is_none());
    assert!(surfer.prepare_read("Non-existent", None).is_none());
}

#[test]
fn known_collection_insert_yields_a_document_and_opens_the_writer() {
    let mut surfer = registered_surfer("books");
    let result = surfer.insert_struct("books", &old_man_record()).unwrap();
    let document = result.expect("a registered collection accepts inserts");
    assert_eq!(document.entries.len(), 2);
    assert_eq!(document.entries[0].0, "title");
    assert_eq!(document.entries[1].0, "body");
}

#[test]
fn batch_insert_marshals_every_record() {
    let mut surfer = registered_surfer("books");
    let batch = vec![old_man_record(), old_man_record(), old_man_record()];
    let documents = surfer.insert_structs("books", &batch).unwrap().unwrap();
    assert_eq!(documents.len(), 3);
}

#[test]
fn read_plan_defaults_to_ten_results() {
    let mut surfer = registered_surfer("books");
    let plan = surfer.prepare_read("books", None).unwrap();
    assert_eq!(plan.limit, 10);
    let plan = surfer.prepare_read("books", Some(20)).unwrap();
    assert_eq!(plan.limit, 20);
}

#[test]
fn read_plan_honors_an_explicit_limit() {
    let mut surfer = registered_surfer("books");
    let plan = surfer.prepare_read("books", Some(1)).unwrap();
    assert_eq!(plan.limit, 1);
}

#[test]
fn limit_resolution_is_exact() {
    assert_eq!(effective_limit(None), 10);
    assert_eq!(effective_limit(Some(1)), 1);
    assert_eq!(effective_limit(Some(20)), 20);
}

#[test]
fn repeated_reads_see_the_same_plan_and_state() {
    let mut surfer = registered_surfer("books");
    let first = surfer.prepare_read("books", None).unwrap();
    let state = surfer.clone();
    let second = surfer.prepare_read("books", None).unwrap();
    assert_eq!(first, second);
    assert_eq!(surfer.clone(), state);
}

#[test]
fn read_plan_targets_every_schema_field() {
    let mut surfer = registered_surfer("books");
    let plan = surfer.prepare_read("books", None).unwrap();
    assert_eq!(plan.fields, vec!["title".to_string(), "body".to_string()]);
}

#[test]
fn registering_a_name_again_shadows_the_first_schema() {
    let mut builder = SurferBuilder::default();
    builder.add_serde("books".to_string(), &old_man_record());
    let slim = Value::Mapping(vec![(
        Value::Text("title".to_string()),
        Value::Text("".to_string()),
    )]);
    builder.add_schema("books".to_string(), to_schema(&slim, None).unwrap());
    let mut surfer = Surfer::new(builder);
    let plan = surfer.prepare_read("books", None).unwrap();
    assert_eq!(plan.fields, vec!["title".to_string()]);
}

#[test]
fn random_string_has_the_requested_size() {
    assert_eq!(random_string(None).len(), 10);
    assert_eq!(random_string(Some(5)).len(), 5);
    // two draws of ten alphanumeric characters virtually never collide,
    // and the call must not hand back a constant
    assert_ne!(random_string(Some(32)), random_string(Some(32)));
}

#[test]
fn handles_open_lazily_and_stay_open() {
    let mut surfer = registered_surfer("books");
    assert!(!surfer.collections[0].writer_open && !surfer.collections[0].reader_open);
    let _ = surfer.insert_struct("books", &old_man_record()).unwrap();
    assert!(surfer.collections[0].writer_open && !surfer.collections[0].reader_open);
    let _ = surfer.prepare_read("books", None).unwrap();
    assert!(surfer.collections[0].writer_open && surfer.collections[0].reader_open);
    let _ = surfer.prepare_read("books", None).unwrap();
    assert!(surfer.collections[0].writer_open && surfer.collections[0].reader_open);
}
