use autostart::error::AppError;
use autostart::profile_file::import_document;

#[test]
fn an_imported_profile_is_handed_over_as_json() {
    let document = import_document(r#"{"name": "MSFS Online", "items": [], "enabled": true}"#).expect("json");
    assert_eq!(document["name"], serde_json::Value::String("MSFS Online".into()));
    assert_eq!(document["items"], serde_json::Value::Array(Vec::new()));
    assert_eq!(document["enabled"], serde_json::Value::Bool(true));
}

#[test]
fn any_json_document_is_accepted_for_the_window_to_check() {
    assert_eq!(import_document("42").expect("json"), serde_json::Value::from(42));
    assert_eq!(import_document(" null ").expect("json"), serde_json::Value::Null);
}

#[test]
fn text_that_is_not_json_is_a_json_error_with_the_parser_message() {
    let expected = serde_json::from_str::<serde_json::Value>("{\"name\": ").unwrap_err().to_string();
    assert!(matches!(import_document("{\"name\": "), Err(AppError::Json(message)) if message == expected));
    assert!(matches!(import_document(""), Err(AppError::Json(_))));
    assert!(matches!(import_document("{} {}"), Err(AppError::Json(_))));
}
