use noggin::header_parser::{Error, FieldValue};
use noggin::schema::{Cardinality, FieldDescriptor, HeaderSchema, Necessity};
use noggin::value::{TypeTag, Value};

fn content_length_schema() -> HeaderSchema {
    let fields = vec![FieldDescriptor::new(
        b"Content-Length",
        Cardinality::Single,
        Necessity::Required,
        TypeTag::Usize,
    )];
    HeaderSchema::new(fields).unwrap()
}

#[test]
fn parse_valid_head() {
    let input_head = b"Content-Length: 5\r\nAnother-Header: value\r\n\r\nBodyHere";
    let schema = content_length_schema();
    let (headers, body) = schema.parse_headers(input_head).unwrap();

    assert_eq!(headers.fields.len(), 1);
    assert_eq!(headers.fields[0], FieldValue::Single(Value::Usize(5)));
    assert_eq!(body, b"BodyHere");
}

#[test]
fn error_on_non_ascii_head() {
    let input_head = b"Content-Length: 5\r\nNon-Ascii: \x80\x81\x82\r\n\r\nBodyHere";
    let schema = content_length_schema();
    let result = schema.parse_headers(input_head);

    assert_eq!(result.err(), Some(Error::NonAscii));
}

#[test]
fn error_on_incomplete_head() {
    let input_head = b"Content-Length: 5\r\nAnother-Header: value\r\nBodyWithoutHeadDelimiter";
    let schema = content_length_schema();
    let result = schema.parse_headers(input_head);

    assert_eq!(result.err(), Some(Error::IncompleteHead));
}

#[test]
fn error_on_missing_header() {
    let input_head = b"Wrong-Header: 5\r\nAnother-Header: value\r\n\r\nBodyHere";
    let schema = content_length_schema();
    let result = schema.parse_headers(input_head);

    assert_eq!(
        result.err(),
        Some(Error::MissingHeader(b"content-length".to_vec()))
    );
}

#[test]
fn error_on_invalid_header_value() {
    let input_head = b"Content-Length: invalid_value\r\nAnother-Header: value\r\n\r\nBodyHere";
    let schema = content_length_schema();
    let result = schema.parse_headers(input_head);

    assert_eq!(
        result.err(),
        Some(Error::InvalidHeaderValue(b"content-length".to_vec()))
    );
}

#[test]
fn error_on_malformed_line() {
    let input_head = b"Content-Length: 5\r\nNoColonHere\r\n\r\nBodyHere";
    let schema = content_length_schema();
    let result = schema.parse_headers(input_head);

    assert_eq!(result.err(), Some(Error::MalformedHeader));
}

#[test]
fn empty_head_all_optional_fields_absent() {
    let fields = vec![
        FieldDescriptor::new(
            b"connection",
            Cardinality::Single,
            Necessity::Optional,
            TypeTag::Str,
        ),
        FieldDescriptor::new(
            b"pragma",
            Cardinality::Repeated,
            Necessity::Optional,
            TypeTag::Str,
        ),
    ];
    let schema = HeaderSchema::new(fields).unwrap();
    let (headers, body) = schema.parse_headers(b"\r\n\r\nBodyHere").unwrap();

    assert_eq!(headers.fields[0], FieldValue::OptSingle(None));
    assert_eq!(headers.fields[1], FieldValue::OptRepeated(None));
    assert_eq!(body, b"BodyHere");
}

#[test]
fn empty_head_missing_required_field() {
    let schema = content_length_schema();
    let result = schema.parse_headers(b"\r\n\r\nBodyHere");

    assert_eq!(
        result.err(),
        Some(Error::MissingHeader(b"content-length".to_vec()))
    );
}

#[test]
fn duplicate_schema_keys_refused() {
    let fields = vec![
        FieldDescriptor::new(
            b"content_type",
            Cardinality::Single,
            Necessity::Required,
            TypeTag::Str,
        ),
        FieldDescriptor::new(
            b"Content-Type",
            Cardinality::Single,
            Necessity::Optional,
            TypeTag::Str,
        ),
    ];
    assert!(HeaderSchema::new(fields).is_none());
}

#[test]
fn body_split_at_first_delimiter() {
    let schema = HeaderSchema::new(vec![]).unwrap();
    let (_, body) = schema.parse_headers(b"A: b\r\n\r\nfirst\r\n\r\nsecond").unwrap();
    assert_eq!(body, b"first\r\n\r\nsecond");
}
