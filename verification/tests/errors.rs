//! The errors that are told, and how they print.

use fluent_bundle::concurrent::FluentBundle;
use fluent_bundle::resolver::ResolverError;
use fluent_bundle::{FluentError, FluentResource};
use fluent_syntax::parser::{ErrorKind, ParserError};
use rustfluent::errors::{FormatError, ParseErrorDetail, ValidationError};
use rustfluent::store::ErrorClass;
use rustfluent::translations::describe_failure;

fn detail(filename: Option<&str>) -> ParseErrorDetail {
    ParseErrorDetail {
        message: "Expected \"x\"".to_owned(),
        line: 2,
        column: 30,
        byte_start: 44,
        byte_end: 45,
        filename: filename.map(|name| name.to_owned()),
    }
}

#[test]
fn parse_error_details_print() {
    assert_eq!(
        detail(Some("a.ftl")).__repr__(),
        "ParseErrorDetail(message=\"Expected \\\"x\\\"\", line=2, column=30, byte_start=44, byte_end=45)"
    );
    assert_eq!(detail(Some("a.ftl")).__str__(), "a.ftl:2:30: Expected \"x\"");
    assert_eq!(detail(None).__str__(), "2:30: Expected \"x\"");
}

#[test]
fn validation_errors_print() {
    let mut error = ValidationError {
        error_type: "UnknownMessage".to_owned(),
        message: "Unknown message: b".to_owned(),
        message_id: Some("a".to_owned()),
        reference: Some("b".to_owned()),
    };
    assert_eq!(
        error.__repr__(),
        "ValidationError(type=\"UnknownMessage\", message=\"Unknown message: b\", message_id=Some(\"a\"))"
    );
    assert_eq!(error.__str__(), "UnknownMessage in 'a': Unknown message: b");
    assert_eq!(error.clone(), error);
    error.message_id = None;
    assert_eq!(
        error.__repr__(),
        "ValidationError(type=\"UnknownMessage\", message=\"Unknown message: b\", message_id=None)"
    );
    assert_eq!(error.__str__(), "UnknownMessage: Unknown message: b");
}

#[test]
fn format_errors_print() {
    let error = FormatError {
        error_type: "ResolverError".to_owned(),
        message: "tab\there".to_owned(),
    };
    assert_eq!(
        error.__repr__(),
        "FormatError(type=\"ResolverError\", message=\"tab\\there\")"
    );
    assert_eq!(error.__str__(), "ResolverError: tab\there");
}

#[test]
fn literals_are_put_into_the_forms_of_developers() {
    assert_eq!(
        detail(None).repr_with("'m'"),
        "ParseErrorDetail(message='m', line=2, column=30, byte_start=44, byte_end=45)"
    );
    assert_eq!(
        ValidationError::repr_with("'t'", "'m'", "'i'"),
        "ValidationError(type='t', message='m', message_id='i')"
    );
    assert_eq!(FormatError::repr_with("'t'", "'m'"), "FormatError(type='t', message='m')");
}

#[test]
fn parser_errors_are_located() {
    let error = ParserError { pos: 9..11, slice: None, kind: ErrorKind::MissingValue };
    let located = ParseErrorDetail::from_parser_error(&error, "a = 1\nbcd =\n", Some("f".to_owned()));
    assert_eq!(
        located,
        ParseErrorDetail {
            message: "Expected a value".to_owned(),
            line: 2,
            column: 4,
            byte_start: 9,
            byte_end: 11,
            filename: Some("f".to_owned()),
        }
    );
}

#[test]
fn every_kind_of_parser_error_has_its_sentence() {
    let name = || "n".to_owned();
    let sentences = vec![
        (ErrorKind::ExpectedToken('='), "Expected a token starting with \"=\""),
        (ErrorKind::ExpectedCharRange { range: name() }, "Expected one of \"n\""),
        (
            ErrorKind::ExpectedMessageField { entry_id: name() },
            "Expected a message field for \"n\"",
        ),
        (ErrorKind::ExpectedTermField { entry_id: name() }, "Expected a term field for \"n\""),
        (ErrorKind::ForbiddenCallee, "Callee is not allowed here"),
        (
            ErrorKind::MissingDefaultVariant,
            "The select expression must have a default variant",
        ),
        (ErrorKind::MissingValue, "Expected a value"),
        (
            ErrorKind::MultipleDefaultVariants,
            "A select expression can only have one default variant",
        ),
        (
            ErrorKind::MessageReferenceAsSelector,
            "Message references can't be used as a selector",
        ),
        (ErrorKind::TermReferenceAsSelector, "Term references can't be used as a selector"),
        (
            ErrorKind::MessageAttributeAsSelector,
            "Message attributes can't be used as a selector",
        ),
        (ErrorKind::TermAttributeAsPlaceable, "Term attributes can't be used as a selector"),
        (ErrorKind::UnterminatedStringLiteral, "Unterminated string literal"),
        (
            ErrorKind::PositionalArgumentFollowsNamed,
            "Positional arguments must come before named arguments",
        ),
        (ErrorKind::DuplicatedNamedArgument(name()), "The \"n\" argument appears twice"),
        (ErrorKind::UnknownEscapeSequence(name()), "Unknown escape sequence"),
        (
            ErrorKind::InvalidUnicodeEscapeSequence(name()),
            "Invalid unicode escape sequence, \"n\"",
        ),
        (ErrorKind::UnbalancedClosingBrace, "Unbalanced closing brace"),
        (ErrorKind::ExpectedInlineExpression, "Expected an inline expression"),
        (
            ErrorKind::ExpectedSimpleExpressionAsSelector,
            "Expected a simple expression as selector",
        ),
        (ErrorKind::ExpectedLiteral, "Expected a string or number literal"),
    ];
    for (kind, sentence) in sentences {
        let error = ParserError { pos: 0..1, slice: None, kind };
        let failure = describe_failure("p", "x", &vec![error]);
        assert_eq!(failure.labels[0].text, sentence);
        assert_eq!(failure.details[0].message, sentence);
    }
}

#[test]
fn failures_to_parse_are_described() {
    let first = ParserError { pos: 0..1, slice: Some(0..2), kind: ErrorKind::MissingValue };
    let second = ParserError { pos: 3..4, slice: None, kind: ErrorKind::ForbiddenCallee };
    let failure = describe_failure("dir/f.ftl", "a\nbc", &vec![first, second]);
    assert_eq!(failure.title, "Error when parsing dir/f.ftl");
    assert_eq!(failure.source, "a\nbc");
    assert_eq!(failure.labels.len(), 2);
    assert_eq!((failure.labels[1].start, failure.labels[1].end), (3, 4));
    assert_eq!(failure.details.len(), 2);
    assert_eq!((failure.details[0].line, failure.details[0].column), (1, 1));
    assert_eq!((failure.details[1].line, failure.details[1].column), (2, 2));
    assert_eq!(failure.details[1].filename, Some("dir/f.ftl".to_owned()));
}

#[test]
fn errors_of_each_class_are_named() {
    let named = |class| FormatError::of_class(class, "m".to_owned());
    assert_eq!(named(ErrorClass::Overriding).error_type, "Overriding");
    assert_eq!(named(ErrorClass::ParserError).error_type, "ParserError");
    assert_eq!(named(ErrorClass::ResolverError).error_type, "ResolverError");
    assert_eq!(named(ErrorClass::Overriding).message, "m");
}

#[test]
fn fluent_errors_become_format_errors() {
    let resolver = FluentError::ResolverError(ResolverError::Cyclic);
    assert_eq!(
        FormatError::from_fluent_error(&resolver),
        FormatError {
            error_type: "ResolverError".to_owned(),
            message: "Resolver error: Cyclical dependency detected".to_owned(),
        }
    );
    let parser = FluentError::ParserError(ParserError {
        pos: 0..1,
        slice: None,
        kind: ErrorKind::MissingValue,
    });
    assert_eq!(
        FormatError::from_fluent_error(&parser),
        FormatError {
            error_type: "ParserError".to_owned(),
            message: "Parser error: Expected a value".to_owned(),
        }
    );
    let language = "en".parse().unwrap();
    let mut bundle: FluentBundle<FluentResource> = FluentBundle::new_concurrent(vec![language]);
    let resource = FluentResource::try_new("a = 1\na = 2\n".to_owned()).unwrap();
    let overriding = bundle.add_resource(resource).unwrap_err();
    assert_eq!(
        FormatError::from_fluent_error(&overriding[0]),
        FormatError {
            error_type: "Overriding".to_owned(),
            message: "Attempt to override an existing message: \"a\".".to_owned(),
        }
    );
}
