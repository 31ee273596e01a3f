//! What the views hold: all of what they are views of.

use crate::cycles;
use crate::errors;
use crate::errors::FormatError;
use crate::errors::ParseErrorDetail;
use crate::errors::ValidationError;
use crate::graph;
use crate::lookup;
use crate::references;
use crate::references::Reference;
use crate::references::ReferenceView;
use crate::resource;
use crate::store;
use crate::store::StoredMessage;
use crate::syntax;
use crate::text;
use crate::translations;
use crate::translations::BundleError;
use crate::translations::BundleErrorView;
use crate::translations::Label;
use crate::translations::ParseFailure;
use crate::translations::SourceFile;
use crate::translations::Translation;
use crate::translations::TranslationError;
use crate::translations::TranslationErrorView;
use fluent_bundle::FluentError;
use fluent_bundle::FluentResource;
use fluent_syntax::ast;
use fluent_syntax::parser::ParserError;
use vstd::prelude::*;

verus! {

/// Whether a text is the optional text of a view.
pub open spec fn is_same(text: Option<String>, view: Option<Seq<char>>) -> bool {
    match text {
        Some(text) => view == Some(text@),
        None => view is None,
    }
}

/// The view of a text, and of a list of texts, holds the characters of each.
pub proof fn law_texts_are_seen(text: Option<String>, list: Seq<String>)
    ensures
        is_same(text, text::option_view(text)),
        text::texts(list).len() == list.len(),
        forall|i: int| 0 <= i < list.len() ==> #[trigger] text::texts(list)[i] == list[i]@,
{
}

/// The view of an error holds all of its fields, and that of a list of errors all of the errors, in
/// order.
pub proof fn law_errors_are_seen(
    details: Seq<ParseErrorDetail>,
    found: Seq<ValidationError>,
    told: Seq<FormatError>,
    i: int,
)
    ensures
        errors::validation_errors_view(found).len() == found.len(),
        errors::format_errors_view(told).len() == told.len(),
        0 <= i < found.len() ==> {
            let view = errors::validation_errors_view(found)[i];
            &&& view == found[i]@
            &&& view.error_type == found[i].error_type@
            &&& view.message == found[i].message@
            &&& is_same(found[i].message_id, view.message_id)
            &&& is_same(found[i].reference, view.reference)
        },
        0 <= i < told.len() ==> {
            let view = errors::format_errors_view(told)[i];
            &&& view == told[i]@
            &&& view.error_type == told[i].error_type@
            &&& view.message == told[i].message@
        },
        0 <= i < details.len() ==> {
            let view = details[i]@;
            &&& view.message == details[i].message@
            &&& view.line == details[i].line
            &&& view.column == details[i].column
            &&& view.byte_start == details[i].byte_start
            &&& view.byte_end == details[i].byte_end
            &&& is_same(details[i].filename, view.filename)
        },
{
}

/// The view of a file holds its path and its contents.
pub proof fn law_files_are_seen(files: Seq<SourceFile>, i: int)
    requires
        0 <= i < files.len(),
    ensures
        translations::files_view(files).len() == files.len(),
        translations::files_view(files)[i] == files[i]@,
        files[i]@.path == files[i].path@,
        is_same(files[i].contents, files[i]@.contents),
{
}

/// The view of a text that did not parse holds the title, the source, and each mark and each detail
/// in order.
pub proof fn law_failures_are_seen(failure: ParseFailure, label: Label)
    ensures
        failure@.title == failure.title@,
        failure@.source == failure.source@,
        failure@.labels.len() == failure.labels@.len(),
        failure@.details.len() == failure.details@.len(),
        forall|i: int|
            0 <= i < failure.labels@.len() ==> #[trigger] failure@.labels[i] == failure.labels@[i]@,
        forall|i: int|
            0 <= i < failure.details@.len() ==> #[trigger] failure@.details[i]
                == failure.details@[i]@,
        label@.start == label.start,
        label@.end == label.end,
        label@.text == label.text@,
{
}

/// The views of reasons hold which reason it is, and all that is said.
pub proof fn law_reasons_are_seen(reason: BundleError, outcome: Result<Translation, TranslationError>)
    ensures
        match reason {
            BundleError::InvalidLanguage(said) => reason@ == BundleErrorView::InvalidLanguage(said@),
            BundleError::FileNotFound(index) => reason@ == BundleErrorView::FileNotFound(
                index as int,
            ),
            BundleError::Parse(failure) => reason@ == BundleErrorView::Parse(failure@),
            BundleError::Invalid(said) => reason@ == BundleErrorView::Invalid(said@),
        },
        match outcome {
            Ok(translation) => {
                &&& translations::outcome_view(outcome) is Ok
                &&& translations::outcome_view(outcome)->Ok_0 == translation@
                &&& translation@.text == translation.text@
                &&& translation@.errors == errors::format_errors_view(translation.errors@)
            },
            Err(TranslationError::Value(said)) => translations::outcome_view(outcome) == Err::<
                translations::TranslationView,
                TranslationErrorView,
            >(TranslationErrorView::Value(said@)),
            Err(TranslationError::Type(said)) => translations::outcome_view(outcome) == Err::<
                translations::TranslationView,
                TranslationErrorView,
            >(TranslationErrorView::Type(said@)),
        },
{
}

/// The view of what comes of the findings in a file holds the errors that are kept, or the reason.
pub proof fn law_outcomes_are_seen(
    outcome: Result<Vec<ValidationError>, BundleError>,
    pattern: Result<&ast::Pattern<&str>, String>,
)
    ensures
        outcome matches Ok(kept) ==> translations::settled_view(outcome) == Ok::<
            Seq<errors::ValidationErrorView>,
            BundleErrorView,
        >(errors::validation_errors_view(kept@)),
        outcome matches Err(reason) ==> translations::settled_view(outcome) == Err::<
            Seq<errors::ValidationErrorView>,
            BundleErrorView,
        >(reason@),
        pattern matches Ok(found) ==> lookup::pattern_outcome(pattern) == Ok::<
            syntax::PatternView,
            Seq<char>,
        >(syntax::pattern_view(*found)),
        pattern matches Err(said) ==> lookup::pattern_outcome(pattern) == Err::<
            syntax::PatternView,
            Seq<char>,
        >(said@),
{
}

/// The view of a reference holds whether it is one to a term, the name, and the attribute. Its
/// target is the name, that of a term with a hyphen in front.
pub proof fn law_references_are_seen(list: Seq<Reference>, i: int)
    requires
        0 <= i < list.len(),
    ensures
        references::references_view(list).len() == list.len(),
        references::references_view(list)[i] == list[i]@,
        list[i]@.name() == list[i].id@,
        list[i].term ==> list[i]@.target() == seq!['-'] + list[i].id@,
        !list[i].term ==> list[i]@.target() == list[i].id@,
        match list[i]@ {
            ReferenceView::Term { id, attribute } => list[i].term && id == list[i].id@ && is_same(
                list[i].attribute,
                attribute,
            ),
            ReferenceView::Message { id, attribute } => !list[i].term && id == list[i].id@
                && is_same(list[i].attribute, attribute),
        },
        cycles::targets(references::references_view(list)).len() == list.len(),
        cycles::targets(references::references_view(list))[i] == list[i]@.target(),
{
    reveal_strlit("-");
    assert("-"@ =~= seq!['-']);
}

/// The view of a graph holds each identifier with all of its references, in order.
pub proof fn law_graphs_are_seen(message_refs: Map<Seq<char>, Vec<String>>, id: Seq<char>)
    ensures
        graph::graph_of(message_refs).contains_key(id) == message_refs.contains_key(id),
        message_refs.contains_key(id) ==> graph::graph_of(message_refs)[id] == text::texts(
            message_refs[id]@,
        ),
{
}

/// The view of a list of parser errors holds where each starts and ends, and what is said of its
/// kind. That of a list of errors of the store holds each of them.
pub proof fn law_outside_errors_are_seen(
    parser_errors: Seq<ParserError>,
    store_errors: Seq<FluentError>,
    i: int,
)
    ensures
        resource::parser_errors_view(parser_errors).len() == parser_errors.len(),
        store::fluent_errors_view(store_errors).len() == store_errors.len(),
        0 <= i < parser_errors.len() ==> {
            let view = resource::parser_errors_view(parser_errors)[i];
            &&& view == resource::parser_error_view(parser_errors[i])
            &&& view.start == parser_errors[i].pos.start
            &&& view.end == parser_errors[i].pos.end
            &&& view.message == resource::kind_text(parser_errors[i].kind)
        },
        0 <= i < store_errors.len() ==> store::fluent_errors_view(store_errors)[i]
            == store::fluent_error_view(store_errors[i]),
{
}

/// The view of a message that the store hands out holds its value and all of its attributes, in
/// order.
pub proof fn law_stored_messages_are_seen(message: Option<StoredMessage>)
    ensures
        message is None <==> store::stored_message_view(message) is None,
        message matches Some(stored) ==> {
            let view = store::stored_message_view(message)->0;
            &&& stored.value is None <==> view.value is None
            &&& stored.value matches Some(value) ==> view.value == Some(
                syntax::pattern_view(*value),
            )
            &&& view.attributes.len() == stored.attributes@.len()
            &&& forall|i: int|
                0 <= i < stored.attributes@.len() ==> {
                    &&& (#[trigger] view.attributes[i]).id == stored.attributes@[i].0@
                    &&& view.attributes[i].value == syntax::pattern_view(*stored.attributes@[i].1)
                }
        },
{
}

/// The entries of a resource are those that its source text parses to.
pub proof fn law_resources_are_seen(resource: FluentResource)
    ensures
        resource::resource_entries(resource) == resource::parsed(
            resource::resource_source(resource),
        ).entries,
{
}

/// The view of an entry holds what kind of entry it is, its identifier, its value, and all of its
/// attributes in order.
pub proof fn law_entries_are_seen(entries: Seq<&ast::Entry<&str>>, i: int)
    requires
        0 <= i < entries.len(),
    ensures
        syntax::entries_view(entries).len() == entries.len(),
        syntax::entries_view(entries)[i] == syntax::entry_view(*entries[i]),
        match *entries[i] {
            ast::Entry::Message(message) => {
                &&& syntax::entries_view(entries)[i] matches syntax::EntryView::Message(view)
                &&& view.id == message.id.name@
                &&& message.value is None <==> view.value is None
                &&& message.value matches Some(value) ==> view.value == Some(
                    syntax::pattern_view(value),
                )
                &&& view.attributes.len() == message.attributes@.len()
                &&& forall|k: int|
                    0 <= k < message.attributes@.len() ==> {
                        &&& (#[trigger] view.attributes[k]).id == message.attributes@[k].id.name@
                        &&& view.attributes[k].value == syntax::pattern_view(
                            message.attributes@[k].value,
                        )
                    }
            },
            ast::Entry::Term(term) => {
                &&& syntax::entries_view(entries)[i] matches syntax::EntryView::Term(view)
                &&& view.id == term.id.name@
                &&& view.value == syntax::pattern_view(term.value)
                &&& view.attributes.len() == term.attributes@.len()
                &&& forall|k: int|
                    0 <= k < term.attributes@.len() ==> {
                        &&& (#[trigger] view.attributes[k]).id == term.attributes@[k].id.name@
                        &&& view.attributes[k].value == syntax::pattern_view(
                            term.attributes@[k].value,
                        )
                    }
            },
            _ => syntax::entries_view(entries)[i] is Other,
        },
{
}

/// The view of a pattern holds all of its elements, in order: texts with their characters, and
/// placeables with their expressions.
pub proof fn law_patterns_are_seen(pattern: ast::Pattern<&str>)
    ensures
        syntax::pattern_view(pattern).elements.len() == pattern.elements@.len(),
        forall|i: int|
            0 <= i < pattern.elements@.len() ==> match pattern.elements@[i] {
                ast::PatternElement::TextElement { value } => #[trigger] syntax::pattern_view(
                    pattern,
                ).elements[i] == syntax::ElementView::Text(value@),
                ast::PatternElement::Placeable { expression } => syntax::pattern_view(
                    pattern,
                ).elements[i] == syntax::ElementView::Placeable(
                    syntax::expression_view(expression),
                ),
            },
{
    assert forall|i: int| 0 <= i < pattern.elements@.len() implies #[trigger] syntax::pattern_view(
        pattern,
    ).elements[i] == syntax::element_view(pattern.elements@[i]) by {}
}

/// The view of an expression holds its selector and all of its variants, in order, each with its
/// key and its value.
pub proof fn law_expressions_are_seen(expression: ast::Expression<&str>)
    ensures
        match expression {
            ast::Expression::Inline(inline) => syntax::expression_view(expression)
                == syntax::ExpressionView::Inline(syntax::inline_view(inline)),
            ast::Expression::Select { selector, variants } => {
                &&& syntax::expression_view(expression) matches syntax::ExpressionView::Select {
                    selector: seen,
                    variants: views,
                }
                &&& seen == syntax::inline_view(selector)
                &&& views.len() == variants@.len()
                &&& forall|i: int|
                    0 <= i < variants@.len() ==> {
                        &&& (#[trigger] views[i]).value == syntax::pattern_view(variants@[i].value)
                        &&& views[i].default == variants@[i].default
                        &&& match variants@[i].key {
                            ast::VariantKey::Identifier { name } => views[i].key
                                == syntax::VariantKeyView::Identifier(name@),
                            ast::VariantKey::NumberLiteral { value } => views[i].key
                                == syntax::VariantKeyView::Number(value@),
                        }
                    }
            },
        },
{
    match expression {
        ast::Expression::Inline(inline) => {},
        ast::Expression::Select { selector, variants } => {
            assert forall|i: int| 0 <= i < variants@.len() implies #[trigger] syntax::variants_view(
                variants@,
            )[i] == syntax::variant_view(variants@[i]) by {}
        },
    }
}

/// The view of an inline expression holds what kind it is, the name, the attribute, and the
/// arguments of a call or the expression that it wraps.
pub proof fn law_inline_expressions_are_seen(inline: ast::InlineExpression<&str>)
    ensures
        match inline {
            ast::InlineExpression::StringLiteral { value } => syntax::inline_view(inline)
                == syntax::InlineView::Text(value@),
            ast::InlineExpression::NumberLiteral { value } => syntax::inline_view(inline)
                == syntax::InlineView::Number(value@),
            ast::InlineExpression::VariableReference { id } => syntax::inline_view(inline)
                == syntax::InlineView::Variable(id.name@),
            ast::InlineExpression::FunctionReference { id, arguments } => syntax::inline_view(
                inline,
            ) == (syntax::InlineView::Function {
                id: id.name@,
                arguments: syntax::arguments_view(arguments),
            }),
            ast::InlineExpression::MessageReference { id, attribute } => {
                &&& syntax::inline_view(inline) matches syntax::InlineView::Message {
                    id: name,
                    attribute: seen,
                }
                &&& name == id.name@
                &&& attribute is None <==> seen is None
                &&& attribute matches Some(attribute) ==> seen == Some(attribute.name@)
            },
            ast::InlineExpression::TermReference { id, attribute, arguments } => {
                &&& syntax::inline_view(inline) matches syntax::InlineView::Term {
                    id: name,
                    attribute: seen,
                    call,
                }
                &&& name == id.name@
                &&& attribute is None <==> seen is None
                &&& attribute matches Some(attribute) ==> seen == Some(attribute.name@)
                &&& arguments is None <==> call is None
                &&& arguments matches Some(arguments) ==> call == Some(
                    syntax::arguments_view(arguments),
                )
            },
            ast::InlineExpression::Placeable { expression } => {
                &&& syntax::inline_view(inline) matches syntax::InlineView::Placeable(wrapped)
                &&& *wrapped == syntax::expression_view(*expression)
            },
        },
{
}

/// The view of the arguments of a call holds all of them, in order: positional ones, and named ones
/// with their names.
pub proof fn law_arguments_are_seen(arguments: ast::CallArguments<&str>)
    ensures
        ({
            let view = syntax::arguments_view(arguments);
            &&& view.positional.len() == arguments.positional@.len()
            &&& view.named.len() == arguments.named@.len()
            &&& forall|i: int|
                0 <= i < arguments.positional@.len() ==> #[trigger] view.positional[i]
                    == syntax::inline_view(arguments.positional@[i])
            &&& forall|i: int|
                0 <= i < arguments.named@.len() ==> {
                    &&& (#[trigger] view.named[i]).name == arguments.named@[i].name.name@
                    &&& view.named[i].value == syntax::inline_view(arguments.named@[i].value)
                }
        }),
{
}

} // verus!
