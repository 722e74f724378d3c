use bead::meta::{BeadMeta, BeadName, ContentId, InputName, InputSpec, META_VERSION};

#[test]
fn test_bead_name_validation() {
    // Valid names
    assert!(BeadName::new("valid-name").is_ok());
    assert!(BeadName::new("test_bead").is_ok());
    assert!(BeadName::new("bead123").is_ok());
    assert!(BeadName::new("my.bead.v2").is_ok());

    // Invalid names
    assert!(BeadName::new("").is_err());
    assert!(BeadName::new(".").is_err());
    assert!(BeadName::new("..").is_err());
    assert!(BeadName::new("path/to/bead").is_err());
    assert!(BeadName::new("bead__private").is_err());
}

#[test]
fn test_input_name_validation() {
    // Valid input names
    assert!(InputName::new("input1").is_ok());
    assert!(InputName::new("my-input").is_ok());

    // Invalid input names
    assert!(InputName::new("").is_err());
    assert!(InputName::new("../parent").is_err());
}

#[test]
fn test_content_id_creation() {
    let id = ContentId::new("abc123def456");
    assert_eq!(id.as_str(), "abc123def456");
}

#[test]
fn test_input_spec_creation() {
    let spec = InputSpec::new(
        "some-kind".to_string(),
        "content123".to_string(),
        "20240115T120000000000+0000".to_string(),
    );
    assert_eq!(spec.kind, "some-kind");
    assert_eq!(spec.content_id, "content123");
    assert_eq!(spec.freeze_time, "20240115T120000000000+0000");
}

#[test]
fn test_bead_meta_workspace() {
    let meta = BeadMeta::new_workspace("test-kind".to_string());
    assert_eq!(meta.meta_version, META_VERSION);
    assert_eq!(meta.kind, "test-kind");
    assert!(meta.inputs.is_empty());
    assert!(meta.freeze_time.is_none());
    assert!(meta.freeze_name.is_none());
}

#[test]
fn test_bead_meta_frozen() {
    let name = BeadName::new("test-bead").unwrap();
    let freeze_time = "20240115T120000000000+0000".to_string();
    let meta = BeadMeta::new_frozen("test-kind".to_string(), name, freeze_time.clone());

    assert_eq!(meta.meta_version, META_VERSION);
    assert_eq!(meta.kind, "test-kind");
    assert_eq!(meta.freeze_time, Some(freeze_time));
    assert_eq!(meta.freeze_name, Some("test-bead".to_string()));
}

#[test]
fn test_bead_meta_inputs() {
    let mut meta = BeadMeta::new_workspace("test-kind".to_string());

    let spec = InputSpec::new(
        "input-kind".to_string(),
        "content456".to_string(),
        "20240115T120000000000+0000".to_string(),
    );

    // Add input
    meta.add_input("input1".to_string(), spec.clone());
    assert!(meta.has_input("input1"));
    assert_eq!(meta.inputs.len(), 1);

    // Remove input
    let removed = meta.remove_input("input1");
    assert!(removed.is_some());
    assert_eq!(removed.unwrap(), spec);
    assert!(!meta.has_input("input1"));
    assert!(meta.inputs.is_empty());
}

#[test]
fn bead_name_keeps_the_text_it_was_given() {
    let name = BeadName::new("my.bead.v2").unwrap();
    assert_eq!(name.as_str(), "my.bead.v2");
    assert_eq!(name.to_string(), "my.bead.v2");
    assert_eq!(name.clone(), name);
}

#[test]
fn refused_bead_name_is_the_message_of_the_error() {
    let err = BeadName::new("a__b").unwrap_err();
    assert!(matches!(err, bead::error::BeadError::InvalidBeadName(_)));
    assert_eq!(err.message(), "a__b");
    assert_eq!(err.to_string(), "Invalid bead name: a__b");
}

#[test]
fn input_name_refuses_both_separators() {
    assert!(InputName::new("a\\b").is_err());
    assert!(InputName::new("a/b").is_err());
    assert!(InputName::new("a__b").is_err());
    assert!(InputName::new("..").is_err());
    assert_eq!(InputName::new("a_b").unwrap().as_str(), "a_b");
    let err = InputName::new("a\\b").unwrap_err();
    assert_eq!(err.to_string(), "Invalid input: Invalid input name: a\\b");
}

#[test]
fn adding_an_input_twice_replaces_the_specification() {
    let mut meta = BeadMeta::new_workspace("k".to_string());
    let first = InputSpec::new("a".to_string(), "1".to_string(), "t1".to_string());
    let second = InputSpec::new("b".to_string(), "2".to_string(), "t2".to_string());
    meta.add_input("x".to_string(), first);
    meta.add_input("y".to_string(), second.clone());
    meta.add_input("x".to_string(), second.clone());
    assert_eq!(meta.inputs.len(), 2);
    assert_eq!(meta.inputs.key_at(0), "x");
    assert_eq!(meta.inputs.get("x"), Some(&second));
    assert_eq!(meta.remove_input("missing"), None);
    let copy = meta.clone();
    assert_eq!(copy.inputs.len(), 2);
    assert_eq!(copy.inputs.get("y"), Some(&second));
}
