//! The Fluent syntax tree, and the mathematical view of it that contracts speak of.
//!
//! The tree itself is that of `fluent_syntax::ast`. Its types are declared with their fields in
//! sight of the verifier, so that verified code matches on them directly. A view replaces each
//! borrowed text by its characters and each vector by a sequence. It leaves out what neither
//! validation nor formatting reads: comments, and the text of entries that did not parse.

use fluent_syntax::ast;
use vstd::prelude::*;

verus! {

/// Declares `fluent_syntax::ast::Entry`.
#[verifier::external_type_specification]
pub struct ExEntry<S>(ast::Entry<S>);

/// Declares `fluent_syntax::ast::Message`.
#[verifier::external_type_specification]
pub struct ExMessage<S>(ast::Message<S>);

/// Declares `fluent_syntax::ast::Term`.
#[verifier::external_type_specification]
pub struct ExTerm<S>(ast::Term<S>);

/// Declares `fluent_syntax::ast::Comment`.
#[verifier::external_type_specification]
pub struct ExComment<S>(ast::Comment<S>);

/// Declares `fluent_syntax::ast::Attribute`.
#[verifier::external_type_specification]
pub struct ExAttribute<S>(ast::Attribute<S>);

/// Declares `fluent_syntax::ast::Identifier`.
#[verifier::external_type_specification]
pub struct ExIdentifier<S>(ast::Identifier<S>);

/// Declares `fluent_syntax::ast::Pattern`.
#[verifier::external_type_specification]
pub struct ExPattern<S>(ast::Pattern<S>);

/// Declares `fluent_syntax::ast::PatternElement`.
#[verifier::external_type_specification]
pub struct ExPatternElement<S>(ast::PatternElement<S>);

/// Declares `fluent_syntax::ast::Expression`.
#[verifier::external_type_specification]
pub struct ExExpression<S>(ast::Expression<S>);

/// Declares `fluent_syntax::ast::InlineExpression`.
#[verifier::external_type_specification]
pub struct ExInlineExpression<S>(ast::InlineExpression<S>);

/// Declares `fluent_syntax::ast::CallArguments`.
#[verifier::external_type_specification]
pub struct ExCallArguments<S>(ast::CallArguments<S>);

/// Declares `fluent_syntax::ast::NamedArgument`.
#[verifier::external_type_specification]
pub struct ExNamedArgument<S>(ast::NamedArgument<S>);

/// Declares `fluent_syntax::ast::Variant`.
#[verifier::external_type_specification]
pub struct ExVariant<S>(ast::Variant<S>);

/// Declares `fluent_syntax::ast::VariantKey`.
#[verifier::external_type_specification]
pub struct ExVariantKey<S>(ast::VariantKey<S>);

/// The view of an entry of a resource.
pub enum EntryView {
    Message(MessageView),
    Term(TermView),
    /// A comment, or text that did not parse.
    Other,
}

/// The view of a message.
pub struct MessageView {
    pub id: Seq<char>,
    pub value: Option<PatternView>,
    pub attributes: Seq<AttributeView>,
}

/// The view of a term. Its identifier is without the leading hyphen.
pub struct TermView {
    pub id: Seq<char>,
    pub value: PatternView,
    pub attributes: Seq<AttributeView>,
}

/// The view of an attribute.
pub struct AttributeView {
    pub id: Seq<char>,
    pub value: PatternView,
}

/// The view of a pattern.
pub struct PatternView {
    pub elements: Seq<ElementView>,
}

/// The view of an element of a pattern.
pub enum ElementView {
    Text(Seq<char>),
    Placeable(ExpressionView),
}

/// The view of an expression.
pub enum ExpressionView {
    Select { selector: InlineView, variants: Seq<VariantView> },
    Inline(InlineView),
}

/// The view of a variant of a select expression.
pub struct VariantView {
    pub key: VariantKeyView,
    pub value: PatternView,
    pub default: bool,
}

/// The view of the key of a variant.
pub enum VariantKeyView {
    Identifier(Seq<char>),
    Number(Seq<char>),
}

/// The view of an inline expression.
pub enum InlineView {
    Text(Seq<char>),
    Number(Seq<char>),
    Function { id: Seq<char>, arguments: ArgumentsView },
    Message { id: Seq<char>, attribute: Option<Seq<char>> },
    Term { id: Seq<char>, attribute: Option<Seq<char>>, call: Option<ArgumentsView> },
    Variable(Seq<char>),
    Placeable(Box<ExpressionView>),
}

/// The view of the arguments of a call.
pub struct ArgumentsView {
    pub positional: Seq<InlineView>,
    pub named: Seq<NamedView>,
}

/// The view of a named argument.
pub struct NamedView {
    pub name: Seq<char>,
    pub value: InlineView,
}

/// The view of an optional identifier.
pub open spec fn identifier_view(id: Option<ast::Identifier<&str>>) -> Option<Seq<char>> {
    match id {
        Some(id) => Some(id.name@),
        None => None,
    }
}

/// The view of a variant's key.
pub open spec fn variant_key_view(key: ast::VariantKey<&str>) -> VariantKeyView {
    match key {
        ast::VariantKey::Identifier { name } => VariantKeyView::Identifier(name@),
        ast::VariantKey::NumberLiteral { value } => VariantKeyView::Number(value@),
    }
}

/// The view of a pattern.
pub open spec fn pattern_view(pattern: ast::Pattern<&str>) -> PatternView
    decreases pattern,
{
    PatternView { elements: elements_view(pattern.elements@) }
}

/// The view of a pattern's elements.
pub open spec fn elements_view(elements: Seq<ast::PatternElement<&str>>) -> Seq<ElementView>
    decreases elements,
{
    Seq::new(
        elements.len(),
        |i: int|
            if 0 <= i < elements.len() {
                element_view(elements[i])
            } else {
                arbitrary()
            },
    )
}

/// The view of an element of a pattern.
pub open spec fn element_view(element: ast::PatternElement<&str>) -> ElementView
    decreases element,
{
    match element {
        ast::PatternElement::TextElement { value } => ElementView::Text(value@),
        ast::PatternElement::Placeable { expression } => ElementView::Placeable(
            expression_view(expression),
        ),
    }
}

/// The view of an expression.
pub open spec fn expression_view(expression: ast::Expression<&str>) -> ExpressionView
    decreases expression,
{
    match expression {
        ast::Expression::Select { selector, variants } => ExpressionView::Select {
            selector: inline_view(selector),
            variants: variants_view(variants@),
        },
        ast::Expression::Inline(inline) => ExpressionView::Inline(inline_view(inline)),
    }
}

/// The view of the variants of a select expression.
pub open spec fn variants_view(variants: Seq<ast::Variant<&str>>) -> Seq<VariantView>
    decreases variants,
{
    Seq::new(
        variants.len(),
        |i: int|
            if 0 <= i < variants.len() {
                variant_view(variants[i])
            } else {
                arbitrary()
            },
    )
}

/// The view of a variant.
pub open spec fn variant_view(variant: ast::Variant<&str>) -> VariantView
    decreases variant,
{
    VariantView {
        key: variant_key_view(variant.key),
        value: pattern_view(variant.value),
        default: variant.default,
    }
}

/// The view of an inline expression.
pub open spec fn inline_view(inline: ast::InlineExpression<&str>) -> InlineView
    decreases inline,
{
    match inline {
        ast::InlineExpression::StringLiteral { value } => InlineView::Text(value@),
        ast::InlineExpression::NumberLiteral { value } => InlineView::Number(value@),
        ast::InlineExpression::FunctionReference { id, arguments } => InlineView::Function {
            id: id.name@,
            arguments: arguments_view(arguments),
        },
        ast::InlineExpression::MessageReference { id, attribute } => InlineView::Message {
            id: id.name@,
            attribute: identifier_view(attribute),
        },
        ast::InlineExpression::TermReference { id, attribute, arguments } => InlineView::Term {
            id: id.name@,
            attribute: identifier_view(attribute),
            call: match arguments {
                Some(arguments) => Some(arguments_view(arguments)),
                None => None,
            },
        },
        ast::InlineExpression::VariableReference { id } => InlineView::Variable(id.name@),
        ast::InlineExpression::Placeable { expression } => InlineView::Placeable(
            Box::new(expression_view(*expression)),
        ),
    }
}

/// The view of the arguments of a call.
pub open spec fn arguments_view(arguments: ast::CallArguments<&str>) -> ArgumentsView
    decreases arguments,
{
    ArgumentsView {
        positional: positional_view(arguments.positional@),
        named: named_view(arguments.named@),
    }
}

/// The view of positional arguments.
pub open spec fn positional_view(arguments: Seq<ast::InlineExpression<&str>>) -> Seq<InlineView>
    decreases arguments,
{
    Seq::new(
        arguments.len(),
        |i: int|
            if 0 <= i < arguments.len() {
                inline_view(arguments[i])
            } else {
                arbitrary()
            },
    )
}

/// The view of named arguments.
pub open spec fn named_view(arguments: Seq<ast::NamedArgument<&str>>) -> Seq<NamedView>
    decreases arguments,
{
    Seq::new(
        arguments.len(),
        |i: int|
            if 0 <= i < arguments.len() {
                NamedView {
                    name: arguments[i].name.name@,
                    value: inline_view(arguments[i].value),
                }
            } else {
                arbitrary()
            },
    )
}

/// The view of an optional pattern.
pub open spec fn value_view(pattern: Option<ast::Pattern<&str>>) -> Option<PatternView> {
    match pattern {
        Some(pattern) => Some(pattern_view(pattern)),
        None => None,
    }
}

/// The view of attributes.
pub open spec fn attributes_view(attributes: Seq<ast::Attribute<&str>>) -> Seq<AttributeView> {
    attributes.map_values(
        |a: ast::Attribute<&str>|
            AttributeView { id: a.id.name@, value: pattern_view(a.value) },
    )
}

/// The view of an entry.
pub open spec fn entry_view(entry: ast::Entry<&str>) -> EntryView {
    match entry {
        ast::Entry::Message(message) => EntryView::Message(
            MessageView {
                id: message.id.name@,
                value: value_view(message.value),
                attributes: attributes_view(message.attributes@),
            },
        ),
        ast::Entry::Term(term) => EntryView::Term(
            TermView {
                id: term.id.name@,
                value: pattern_view(term.value),
                attributes: attributes_view(term.attributes@),
            },
        ),
        _ => EntryView::Other,
    }
}

/// The view of a list of entries.
pub open spec fn entries_view(entries: Seq<&ast::Entry<&str>>) -> Seq<EntryView> {
    entries.map_values(|e: &ast::Entry<&str>| entry_view(*e))
}

} // verus!
