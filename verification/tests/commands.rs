use nu_plugin_from_sse::commands::{
    event_to_record_value, process_error, process_string, process_value,
};
use nu_plugin_from_sse::event::Event;
use nu_plugin_from_sse::parser::Parser;
use nu_protocol::{Record, ShellError, Span, Value};

/// The record value that the host is to see for an event with the given fields.
fn record(id: Option<&str>, name: Option<&str>, data: &str, span: Span) -> Value {
    let mut expected = Record::new();
    expected.push("id", id.map_or(Value::nothing(span), |s| Value::string(s, span)));
    expected.push("name", name.map_or(Value::nothing(span), |s| Value::string(s, span)));
    expected.push("data", Value::string(data, span));
    Value::record(expected, span)
}

fn assert_type_mismatch(value: &Value, span: Span) {
    assert_eq!(value.span(), span);
    match value {
        Value::Error { error, .. } => match &**error {
            ShellError::TypeMismatch { err_message, span: at } => {
                assert_eq!(err_message, "Value is not a String");
                assert_eq!(*at, span);
            }
            other => panic!("another error: {:?}", other),
        },
        other => panic!("not an error: {:?}", other),
    }
}

#[test]
fn event_becomes_a_record_value() {
    let span = Span::new(2, 9);
    let event = Event::with_fields(Some("1".to_string()), Some("creatureAlert".to_string()), "d\n".to_string());
    let value = event_to_record_value(&event, span);
    assert!(matches!(value, Value::Record { .. }));
    assert_eq!(value, record(Some("1"), Some("creatureAlert"), "d\n", span));
    assert_eq!(value.span(), span);
    let inner = value.as_record().unwrap();
    assert_eq!(*inner, event.to_record(span));
    for (_, field) in inner.iter() {
        assert_eq!(field.span(), span);
    }
}

#[test]
fn string_chunk_gives_one_record_per_event() {
    let span = Span::new(1, 4);
    let mut parser = Parser::new();
    let values = process_string("id: 1\ndata: a\n\nevent: e\n\ndata: open\n", span, &mut parser);
    assert_eq!(
        values,
        vec![record(Some("1"), None, "a\n", span), record(None, Some("e"), "", span)]
    );
    for value in &values {
        assert_eq!(value.span(), span);
    }
    // The open event is still with the parser.
    let rest = process_string("\n", span, &mut parser);
    assert_eq!(rest, vec![record(None, None, "open\n", span)]);
}

#[test]
fn string_chunk_without_boundary_gives_nothing() {
    let mut parser = Parser::new();
    assert!(process_string("data: a\n", Span::unknown(), &mut parser).is_empty());
    assert!(process_string("", Span::unknown(), &mut parser).is_empty());
}

#[test]
fn error_is_one_type_mismatch() {
    let span = Span::new(5, 6);
    let values = process_error(span);
    assert_eq!(values.len(), 1);
    assert_type_mismatch(&values[0], span);
}

#[test]
fn string_value_is_parsed() {
    let span = Span::new(10, 20);
    let mut parser = Parser::new();
    let input = Value::string("id: 1\nevent: creatureAlert\ndata: {\"id\":\"dra789\"}\n\n", span);
    let values = process_value(input, &mut parser);
    assert_eq!(values, vec![record(Some("1"), Some("creatureAlert"), "{\"id\":\"dra789\"}\n", span)]);
    assert_eq!(values[0].span(), span);
}

#[test]
fn value_of_another_kind_is_a_type_mismatch() {
    let span = Span::new(3, 7);
    let mut parser = Parser::new();
    for input in [
        Value::int(5, span),
        Value::bool(true, span),
        Value::nothing(span),
        Value::binary(b"data: a\n\n".to_vec(), span),
        Value::list(vec![Value::string("data: a\n\n", span)], span),
        Value::glob("data: a\n\n", false, span),
    ] {
        let values = process_value(input, &mut parser);
        assert_eq!(values.len(), 1);
        assert_type_mismatch(&values[0], span);
    }
}

#[test]
fn type_mismatch_leaves_the_parser_as_it_was() {
    let first = Span::new(0, 1);
    let bad = Span::new(1, 2);
    let last = Span::new(2, 3);
    let mut parser = Parser::new();
    assert!(process_value(Value::string("id: 1\ndata: hel", first), &mut parser).is_empty());
    let values = process_value(Value::int(0, bad), &mut parser);
    assert_eq!(values.len(), 1);
    assert_type_mismatch(&values[0], bad);
    let values = process_value(Value::string("lo\n\n", last), &mut parser);
    assert_eq!(values, vec![record(Some("1"), None, "hello\n", last)]);
    assert_eq!(values[0].span(), last);
}

#[test]
fn records_carry_the_span_of_the_chunk_that_closed_them() {
    let first = Span::new(0, 8);
    let second = Span::new(8, 9);
    let mut parser = Parser::new();
    assert!(process_value(Value::string("data: a\n", first), &mut parser).is_empty());
    let values = process_value(Value::string("\n", second), &mut parser);
    assert_eq!(values.len(), 1);
    assert_eq!(values[0].span(), second);
    for (_, field) in values[0].as_record().unwrap().iter() {
        assert_eq!(field.span(), second);
    }
}
