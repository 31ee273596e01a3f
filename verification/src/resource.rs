//! Fluent resources: parsed source texts and what went wrong in parsing them.

use crate::escapes;
use crate::position;
use crate::syntax;
use fluent_bundle::FluentResource;
use fluent_syntax::ast;
use fluent_syntax::parser::ErrorKind;
use fluent_syntax::parser::ParserError;
use vstd::prelude::*;

verus! {

/// Declares `fluent_bundle::FluentResource`, a source text together with its syntax tree.
#[verifier::external_type_specification]
#[verifier::external_body]
pub struct ExFluentResource(FluentResource);

/// Declares `fluent_syntax::parser::ParserError`.
#[verifier::external_type_specification]
pub struct ExParserError(ParserError);

/// Declares `fluent_syntax::parser::ErrorKind`.
#[verifier::external_type_specification]
pub struct ExErrorKind(ErrorKind);

/// The view of a parser error: where it lies, in bytes, and what it says.
pub struct ParserErrorView {
    pub start: usize,
    pub end: usize,
    pub message: Seq<char>,
}

/// The view of what parsing a source text gives.
pub struct ParsedView {
    pub entries: Seq<syntax::EntryView>,
    pub errors: Seq<ParserErrorView>,
}

/// What parsing a source text gives.
pub uninterp spec fn parsed(source: Seq<char>) -> ParsedView;

/// The source text that a resource holds.
pub uninterp spec fn resource_source(resource: FluentResource) -> Seq<char>;

/// The entries of a resource.
pub open spec fn resource_entries(resource: FluentResource) -> Seq<syntax::EntryView> {
    parsed(resource_source(resource)).entries
}

/// What a kind of parser error says.
pub open spec fn kind_text(kind: ErrorKind) -> Seq<char> {
    match kind {
        ErrorKind::ExpectedToken(token) => "Expected a token starting with \""@ + seq![token]
            + "\""@,
        ErrorKind::ExpectedCharRange { range } => "Expected one of \""@ + range@ + "\""@,
        ErrorKind::ExpectedMessageField { entry_id } => "Expected a message field for \""@
            + entry_id@ + "\""@,
        ErrorKind::ExpectedTermField { entry_id } => "Expected a term field for \""@ + entry_id@
            + "\""@,
        ErrorKind::ForbiddenCallee => "Callee is not allowed here"@,
        ErrorKind::MissingDefaultVariant => "The select expression must have a default variant"@,
        ErrorKind::MissingValue => "Expected a value"@,
        ErrorKind::MultipleDefaultVariants =>
            "A select expression can only have one default variant"@,
        ErrorKind::MessageReferenceAsSelector =>
            "Message references can't be used as a selector"@,
        ErrorKind::TermReferenceAsSelector => "Term references can't be used as a selector"@,
        ErrorKind::MessageAttributeAsSelector =>
            "Message attributes can't be used as a selector"@,
        ErrorKind::TermAttributeAsPlaceable => "Term attributes can't be used as a selector"@,
        ErrorKind::UnterminatedStringLiteral => "Unterminated string literal"@,
        ErrorKind::PositionalArgumentFollowsNamed =>
            "Positional arguments must come before named arguments"@,
        ErrorKind::DuplicatedNamedArgument(name) => "The \""@ + name@
            + "\" argument appears twice"@,
        ErrorKind::UnknownEscapeSequence(_) => "Unknown escape sequence"@,
        ErrorKind::InvalidUnicodeEscapeSequence(sequence) =>
            "Invalid unicode escape sequence, \""@ + sequence@ + "\""@,
        ErrorKind::UnbalancedClosingBrace => "Unbalanced closing brace"@,
        ErrorKind::ExpectedInlineExpression => "Expected an inline expression"@,
        ErrorKind::ExpectedSimpleExpressionAsSelector =>
            "Expected a simple expression as selector"@,
        ErrorKind::ExpectedLiteral => "Expected a string or number literal"@,
    }
}

/// The `Display` formatting of `fluent_syntax::parser::ErrorKind`: one fixed sentence for each
/// kind, with the text that the kind carries in its place.
#[verifier::external_body]
pub(crate) fn error_kind_text(kind: &ErrorKind) -> (text: String)
    ensures
        text@ == kind_text(*kind),
{
    kind.to_string()
}

/// The view of a parser error.
pub open spec fn parser_error_view(error: ParserError) -> ParserErrorView {
    ParserErrorView {
        start: error.pos.start,
        end: error.pos.end,
        message: kind_text(error.kind),
    }
}

/// The view of a list of parser errors.
pub open spec fn parser_errors_view(errors: Seq<ParserError>) -> Seq<ParserErrorView> {
    errors.map_values(|e: ParserError| parser_error_view(e))
}

/// `FluentResource::try_new`: parses a source text. The resource holds the text in any case. An
/// error starts at the end of the text or in front of one of its characters. The texts on which
/// the parser may panic are ruled out.
#[verifier::external_body]
pub(crate) fn parse_resource(source: String) -> (parse: Result<
    FluentResource,
    (FluentResource, Vec<ParserError>),
>)
    requires
        escapes::is_parsable(source@),
    ensures
        match parse {
            Ok(resource) => {
                &&& resource_source(resource) == source@
                &&& parsed(source@).errors.len() == 0
            },
            Err((resource, errors)) => {
                &&& resource_source(resource) == source@
                &&& parsed(source@).errors == parser_errors_view(errors@)
                &&& errors@.len() > 0
                &&& forall|i: int|
                    0 <= i < errors@.len() ==> position::is_text_position(
                        vstd::utf8::encode_utf8(source@),
                        (#[trigger] errors@[i]).pos.start as int,
                    )
            },
        },
{
    FluentResource::try_new(source)
}

/// Whether a character is a letter of ASCII.
pub open spec fn is_letter(c: char) -> bool {
    'a' <= c <= 'z' || 'A' <= c <= 'Z'
}

/// Whether a name is an identifier: a letter, followed by letters, digits, hyphens and underscores.
pub open spec fn is_identifier(name: Seq<char>) -> bool {
    &&& name.len() > 0
    &&& is_letter(name[0])
    &&& forall|i: int|
        0 <= i < name.len() ==> {
            let c = #[trigger] name[i];
            is_letter(c) || '0' <= c <= '9' || c == '-' || c == '_'
        }
}

/// Whether the name of an entry is an identifier, where the entry has one.
pub open spec fn has_proper_id(entry: syntax::EntryView) -> bool {
    match entry {
        syntax::EntryView::Message(message) => is_identifier(message.id),
        syntax::EntryView::Term(term) => is_identifier(term.id),
        syntax::EntryView::Other => true,
    }
}

/// `FluentResource::entries`: the entries of a resource, in the order of the source text. The
/// parser takes a letter of ASCII, followed by letters, digits, hyphens and underscores, for the
/// name of a message or a term.
#[verifier::external_body]
pub(crate) fn entries_of<'r>(resource: &'r FluentResource) -> (entries: Vec<
    &'r ast::Entry<&'r str>,
>)
    ensures
        syntax::entries_view(entries@) == resource_entries(*resource),
        forall|i: int|
            0 <= i < entries@.len() ==> has_proper_id(syntax::entry_view(*#[trigger] entries@[i])),
{
    resource.entries().collect()
}

/// `FluentResource::source`: the source text of a resource.
#[verifier::external_body]
pub(crate) fn source_of(resource: &FluentResource) -> (source: &str)
    ensures
        source@ == resource_source(*resource),
{
    resource.source()
}

} // verus!
