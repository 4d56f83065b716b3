use property_photos::errors::AppError;
use property_photos::paths::PathError;

#[test]
fn kind_is_stable() {
    let e = AppError::NotFound("property 42".into());
    assert_eq!(e.kind(), "not_found");
}

#[test]
fn from_io_error_works() {
    let io = std::io::Error::new(std::io::ErrorKind::NotFound, "nope");
    let e: AppError = io.into();
    assert_eq!(e.kind(), "io");
}

#[test]
fn from_path_error_works() {
    let pe = PathError::UnsafeSegment("..".into());
    let e: AppError = pe.into();
    assert_eq!(e.kind(), "path");
}

#[test]
fn legacy_string_bridge_preserves_message() {
    let e = AppError::Other("boom".into());
    let s: String = e.into();
    assert_eq!(s, "boom");
}

#[test]
fn messages_carry_the_kind_prefix() {
    assert_eq!(AppError::InvalidInput("missing name".into()).message(), "invalid input: missing name");
    assert_eq!(AppError::Config("x".into()).message(), "configuration error: x");
    assert_eq!(AppError::Database("locked".into()).message(), "database error: locked");
    assert_eq!(AppError::Io("nope".into()).message(), "filesystem error: nope");
    assert_eq!(AppError::NotFound("p".into()).message(), "not found: p");
    let e: AppError = PathError::UnsafeSegment("../x".into()).into();
    assert_eq!(e.message(), "invalid path: unsafe path segment: \"../x\"");
}

#[test]
fn every_kind_has_its_name() {
    assert_eq!(AppError::Config(String::new()).kind(), "config");
    assert_eq!(AppError::Database(String::new()).kind(), "database");
    assert_eq!(AppError::Image(String::new()).kind(), "image");
    assert_eq!(AppError::Serde(String::new()).kind(), "serde");
    assert_eq!(AppError::InvalidInput(String::new()).kind(), "invalid_input");
    assert_eq!(AppError::Other(String::new()).kind(), "other");
}

#[test]
fn serializes_as_tagged_object() {
    let e = AppError::InvalidInput("missing name".into());
    let json: serde_json::Value = serde_json::from_str(&e.to_tagged_json()).unwrap();
    assert_eq!(json["kind"], "invalid_input");
    assert_eq!(json["message"], "invalid input: missing name");
}

#[test]
fn tagged_json_is_written_field_by_field() {
    let e = AppError::Other("a \"quoted\"\nline".into());
    assert_eq!(e.to_tagged_json(), r#"{"kind":"other","message":"a \"quoted\"\nline"}"#);
}

#[test]
fn io_error_text_is_kept() {
    let e: AppError = std::io::Error::new(std::io::ErrorKind::Other, "disk full").into();
    assert_eq!(e.message(), "filesystem error: disk full");
    let s: String = AppError::NotFound("p".into()).into();
    assert_eq!(s, "not found: p");
}
