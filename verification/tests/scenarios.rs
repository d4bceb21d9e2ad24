use noggin::header_parser::{Error, FieldValue, ParsedRecord};
use noggin::schema::{Cardinality, FieldDescriptor, HeaderSchema, Necessity};
use noggin::value::{TypeTag, Value};

fn test_schema() -> HeaderSchema {
    let fields = vec![
        FieldDescriptor::new(
            b"content_type",
            Cardinality::Single,
            Necessity::Required,
            TypeTag::Str,
        ),
        FieldDescriptor::new(
            b"content_length",
            Cardinality::Single,
            Necessity::Required,
            TypeTag::U32,
        ),
        FieldDescriptor::new(
            b"accept",
            Cardinality::Repeated,
            Necessity::Required,
            TypeTag::Str,
        ),
        FieldDescriptor::new(
            b"connection",
            Cardinality::Single,
            Necessity::Optional,
            TypeTag::Str,
        ),
        FieldDescriptor::new(
            b"pragma",
            Cardinality::Repeated,
            Necessity::Optional,
            TypeTag::Str,
        ),
    ];
    HeaderSchema::new(fields).unwrap()
}

fn str_value(s: &str) -> Value {
    Value::Str(s.as_bytes().to_vec())
}

fn str_values(ss: &[&str]) -> Vec<Value> {
    ss.iter().map(|s| str_value(s)).collect()
}

fn parse(head: &str) -> Result<ParsedRecord, Error> {
    test_schema().parse_head_section(head.as_bytes())
}

#[test]
fn scenario_success_with_optional_single() {
    let rec = parse(
        "Content-Type: application/json\r\nContent-Length: 42\r\nAccept: application/json\r\nConnection: keep-alive",
    )
    .unwrap();
    assert_eq!(rec.fields[0], FieldValue::Single(str_value("application/json")));
    assert_eq!(rec.fields[1], FieldValue::Single(Value::U32(42)));
    assert_eq!(
        rec.fields[2],
        FieldValue::Repeated(str_values(&["application/json"]))
    );
    assert_eq!(
        rec.fields[3],
        FieldValue::OptSingle(Some(str_value("keep-alive")))
    );
    assert_eq!(rec.fields[4], FieldValue::OptRepeated(None));
}

#[test]
fn scenario_comma_split_repeated() {
    let rec = parse(
        "Content-Type: application/json\r\nContent-Length: 42\r\nAccept: application/json,text/plain\r\nPragma: no-cache, max-age=0",
    )
    .unwrap();
    assert_eq!(
        rec.fields[2],
        FieldValue::Repeated(str_values(&["application/json", "text/plain"]))
    );
    assert_eq!(
        rec.fields[4],
        FieldValue::OptRepeated(Some(str_values(&["no-cache", "max-age=0"])))
    );
    assert_eq!(rec.fields[3], FieldValue::OptSingle(None));
}

#[test]
fn scenario_repeated_lines_accumulate() {
    let rec = parse(
        "Content-Type: application/json\r\nContent-Length: 42\r\nAccept: application/json\r\nConnection: keep-alive\r\nAccept:text/plain",
    )
    .unwrap();
    assert_eq!(
        rec.fields[2],
        FieldValue::Repeated(str_values(&["application/json", "text/plain"]))
    );
    assert_eq!(
        rec.fields[3],
        FieldValue::OptSingle(Some(str_value("keep-alive")))
    );
}

#[test]
fn scenario_missing_required_single() {
    let result = parse("Content-Length: 42\r\nAccept: application/json,text/plain");
    assert_eq!(
        result.err(),
        Some(Error::MissingHeader(b"content-type".to_vec()))
    );
}

#[test]
fn scenario_missing_required_repeated() {
    let result = parse("Content-Type: application/json\r\nContent-Length: 42");
    assert_eq!(result.err(), Some(Error::MissingHeader(b"accept".to_vec())));
}

#[test]
fn scenario_invalid_header_value() {
    let result = parse(
        "Content-Type: application/json\r\nContent-Length: invalid\r\nAccept: application/json",
    );
    assert_eq!(
        result.err(),
        Some(Error::InvalidHeaderValue(b"content-length".to_vec()))
    );
}

#[test]
fn scenario_malformed_header() {
    let result = parse("Content-Type: application/json\r\nContent-Length: 42\r\nAccept");
    assert_eq!(result.err(), Some(Error::MalformedHeader));
}

#[test]
fn first_single_valued_line_wins() {
    let rec = parse(
        "Content-Type: text/html\r\nContent-Type: application/json\r\nContent-Length: 42\r\nAccept: a",
    )
    .unwrap();
    assert_eq!(rec.fields[0], FieldValue::Single(str_value("text/html")));
}

#[test]
fn later_invalid_duplicate_of_bound_single_is_ignored() {
    let rec = parse(
        "Content-Length: 42\r\nContent-Length: nonsense\r\nContent-Type: a\r\nAccept: b",
    )
    .unwrap();
    assert_eq!(rec.fields[1], FieldValue::Single(Value::U32(42)));
}

#[test]
fn parsing_twice_yields_identical_records() {
    let head =
        "Content-Type: application/json\r\nContent-Length: 42\r\nAccept: a,b\r\nPragma: x";
    let first = parse(head).unwrap();
    let second = parse(head).unwrap();
    assert_eq!(first, second);
}

#[test]
fn unknown_keys_are_ignored() {
    let rec = parse(
        "Content-Type: a\r\nContent-Length: 1\r\nAccept: b\r\nX-Custom: whatever",
    )
    .unwrap();
    assert_eq!(rec.fields.len(), 5);
    assert_eq!(rec.fields[0], FieldValue::Single(str_value("a")));
}

#[test]
fn empty_repeated_value_succeeds_for_strings() {
    let rec = parse("Content-Type: a\r\nContent-Length: 1\r\nAccept:").unwrap();
    assert_eq!(rec.fields[2], FieldValue::Repeated(str_values(&[""])));
}
