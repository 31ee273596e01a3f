//! Validation of the references between messages and terms.

use crate::errors;
use crate::errors::ValidationError;
use crate::resource;
use crate::store;
use crate::syntax;
use crate::text;
use fluent_bundle::concurrent::FluentBundle;
use fluent_bundle::FluentResource;
use fluent_syntax::ast;
use vstd::prelude::*;
use vstd::string::StringExecFns;

verus! {

/// The view of a reference to a message or to a term, or to an attribute of one.
pub enum ReferenceView {
    Message { id: Seq<char>, attribute: Option<Seq<char>> },
    Term { id: Seq<char>, attribute: Option<Seq<char>> },
}

impl ReferenceView {
    /// The identifier that is referred to. That of a term has a leading hyphen.
    pub open spec fn target(self) -> Seq<char> {
        match self {
            ReferenceView::Message { id, .. } => id,
            ReferenceView::Term { id, .. } => "-"@ + id,
        }
    }

    /// The name that is referred to, without the hyphen of a term.
    pub open spec fn name(self) -> Seq<char> {
        match self {
            ReferenceView::Message { id, .. } => id,
            ReferenceView::Term { id, .. } => id,
        }
    }
}

/// A reference to a message or to a term, or to an attribute of one.
#[derive(Debug, PartialEq, Eq)]
pub struct Reference {
    /// Whether a term is referred to.
    pub term: bool,
    /// The name that is referred to, without the hyphen of a term.
    pub id: String,
    /// The attribute that is referred to, where one is.
    pub attribute: Option<String>,
}

impl View for Reference {
    type V = ReferenceView;

    open spec fn view(&self) -> ReferenceView {
        let attribute = text::option_view(self.attribute);
        if self.term {
            ReferenceView::Term { id: self.id@, attribute }
        } else {
            ReferenceView::Message { id: self.id@, attribute }
        }
    }
}

/// The view of a list of references.
pub open spec fn references_view(list: Seq<Reference>) -> Seq<ReferenceView> {
    list.map_values(|r: Reference| r@)
}

/// The references of an inline expression, in order: its own, then those of the arguments of a call
/// or of the expression that a placeable wraps.
pub open spec fn inline_references(inline: syntax::InlineView) -> Seq<ReferenceView>
    decreases inline,
{
    match inline {
        syntax::InlineView::Message { id, attribute } => seq![
            ReferenceView::Message { id, attribute },
        ],
        syntax::InlineView::Term { id, attribute, call } => seq![
            ReferenceView::Term { id, attribute },
        ] + match call {
            Some(arguments) => arguments_references(arguments),
            None => Seq::empty(),
        },
        syntax::InlineView::Function { arguments, .. } => arguments_references(arguments),
        syntax::InlineView::Placeable(wrapped) => expression_references(*wrapped),
        _ => Seq::empty(),
    }
}

/// The references of the arguments of a call, in order: positional ones first.
pub open spec fn arguments_references(arguments: syntax::ArgumentsView) -> Seq<ReferenceView>
    decreases arguments,
{
    positional_references(arguments.positional) + named_references(arguments.named)
}

/// The references of positional arguments, in order.
pub open spec fn positional_references(arguments: Seq<syntax::InlineView>) -> Seq<ReferenceView>
    decreases arguments,
{
    if arguments.len() == 0 {
        Seq::empty()
    } else {
        positional_references(arguments.drop_last()) + inline_references(arguments.last())
    }
}

/// The references of named arguments, in order.
pub open spec fn named_references(arguments: Seq<syntax::NamedView>) -> Seq<ReferenceView>
    decreases arguments,
{
    if arguments.len() == 0 {
        Seq::empty()
    } else {
        named_references(arguments.drop_last()) + inline_references(arguments.last().value)
    }
}

/// The references of an expression, in order: those of the selector, then those of the variants.
pub open spec fn expression_references(expression: syntax::ExpressionView) -> Seq<ReferenceView>
    decreases expression,
{
    match expression {
        syntax::ExpressionView::Inline(inline) => inline_references(inline),
        syntax::ExpressionView::Select { selector, variants } => inline_references(selector)
            + variants_references(variants),
    }
}

/// The references of the variants of a select expression, in order.
pub open spec fn variants_references(variants: Seq<syntax::VariantView>) -> Seq<ReferenceView>
    decreases variants,
{
    if variants.len() == 0 {
        Seq::empty()
    } else {
        variants_references(variants.drop_last()) + elements_references(
            variants.last().value.elements,
        )
    }
}

/// The references of the elements of a pattern, in order.
pub open spec fn elements_references(elements: Seq<syntax::ElementView>) -> Seq<ReferenceView>
    decreases elements,
{
    if elements.len() == 0 {
        Seq::empty()
    } else {
        elements_references(elements.drop_last()) + match elements.last() {
            syntax::ElementView::Text(_) => Seq::empty(),
            syntax::ElementView::Placeable(expression) => expression_references(expression),
        }
    }
}

/// The references of a pattern, in order.
pub open spec fn pattern_references(pattern: Option<syntax::PatternView>) -> Seq<ReferenceView> {
    match pattern {
        Some(pattern) => elements_references(pattern.elements),
        None => Seq::empty(),
    }
}

/// The references of attributes, in order.
pub open spec fn attributes_references(attributes: Seq<syntax::AttributeView>) -> Seq<
    ReferenceView,
>
    decreases attributes.len(),
{
    if attributes.len() == 0 {
        Seq::empty()
    } else {
        attributes_references(attributes.drop_last()) + pattern_references(
            Some(attributes.last().value),
        )
    }
}

/// The references of an entry, in order: those of the value, then those of the attributes.
pub open spec fn entry_references(entry: syntax::EntryView) -> Seq<ReferenceView> {
    match entry {
        syntax::EntryView::Message(message) => pattern_references(message.value)
            + attributes_references(message.attributes),
        syntax::EntryView::Term(term) => pattern_references(Some(term.value))
            + attributes_references(term.attributes),
        syntax::EntryView::Other => Seq::empty(),
    }
}

/// The identifier of a message, or that of a term with a leading hyphen.
pub open spec fn entry_id(entry: syntax::EntryView) -> Option<Seq<char>> {
    match entry {
        syntax::EntryView::Message(message) => Some(message.id),
        syntax::EntryView::Term(term) => Some("-"@ + term.id),
        syntax::EntryView::Other => None,
    }
}

/// The error on a reference to a message that the store lacks.
pub open spec fn unknown_message(owner: Seq<char>, id: Seq<char>) -> errors::ValidationErrorView {
    errors::ValidationErrorView {
        error_type: "UnknownMessage"@,
        message: "Unknown message: "@ + id,
        message_id: Some(owner),
        reference: Some(id),
    }
}

/// The error on a reference to a term that the store lacks.
pub open spec fn unknown_term(owner: Seq<char>, id: Seq<char>) -> errors::ValidationErrorView {
    errors::ValidationErrorView {
        error_type: "UnknownTerm"@,
        message: "Unknown term: -"@ + id,
        message_id: Some(owner),
        reference: Some("-"@ + id),
    }
}

/// The error on a reference to an attribute that a message lacks.
pub open spec fn unknown_message_attribute(
    owner: Seq<char>,
    id: Seq<char>,
    attribute: Seq<char>,
) -> errors::ValidationErrorView {
    errors::ValidationErrorView {
        error_type: "UnknownAttribute"@,
        message: "Unknown attribute: "@ + id + "."@ + attribute,
        message_id: Some(owner),
        reference: Some(id + "."@ + attribute),
    }
}

/// The error on a reference to an attribute that a term lacks.
pub open spec fn unknown_term_attribute(
    owner: Seq<char>,
    id: Seq<char>,
    attribute: Seq<char>,
) -> errors::ValidationErrorView {
    errors::ValidationErrorView {
        error_type: "UnknownAttribute"@,
        message: "Unknown attribute on term: -"@ + id + "."@ + attribute,
        message_id: Some(owner),
        reference: Some("-"@ + id + "."@ + attribute),
    }
}

/// Whether a store holds a message under an identifier, and that message an attribute of a name.
pub open spec fn holds_attribute(
    entries: store::Entries,
    id: Seq<char>,
    attribute: Seq<char>,
) -> bool {
    &&& store::holds_message(entries, id)
    &&& store::attribute_value(entries[id]->Message_0.attributes, attribute) is Some
}

/// The error on a reference in an entry, or none where the store holds what is referred to. The
/// store is asked for a message in either case, for a term under its identifier with the hyphen.
pub open spec fn reference_error(
    entries: store::Entries,
    owner: Seq<char>,
    reference: ReferenceView,
) -> Option<errors::ValidationErrorView> {
    match reference {
        ReferenceView::Message { id, attribute } => if !store::holds_message(entries, id) {
            Some(unknown_message(owner, id))
        } else if attribute is Some && !holds_attribute(entries, id, attribute->0) {
            Some(unknown_message_attribute(owner, id, attribute->0))
        } else {
            None
        },
        ReferenceView::Term { id, attribute } => if !store::holds_message(entries, "-"@ + id) {
            Some(unknown_term(owner, id))
        } else if attribute is Some && !holds_attribute(entries, "-"@ + id, attribute->0) {
            Some(unknown_term_attribute(owner, id, attribute->0))
        } else {
            None
        },
    }
}

/// The errors on a list of references in an entry, in order.
pub open spec fn reference_errors(
    entries: store::Entries,
    owner: Seq<char>,
    references: Seq<ReferenceView>,
) -> Seq<errors::ValidationErrorView>
    decreases references.len(),
{
    if references.len() == 0 {
        Seq::empty()
    } else {
        let before = reference_errors(entries, owner, references.drop_last());
        match reference_error(entries, owner, references.last()) {
            Some(error) => before.push(error),
            None => before,
        }
    }
}

/// The errors on the references of an entry, in order.
pub open spec fn entry_errors(
    entries: store::Entries,
    entry: syntax::EntryView,
) -> Seq<errors::ValidationErrorView> {
    match entry_id(entry) {
        Some(owner) => reference_errors(entries, owner, entry_references(entry)),
        None => Seq::empty(),
    }
}

/// The errors on the references of a list of entries, in order.
pub open spec fn entries_errors(
    entries: store::Entries,
    checked: Seq<syntax::EntryView>,
) -> Seq<errors::ValidationErrorView>
    decreases checked.len(),
{
    if checked.len() == 0 {
        Seq::empty()
    } else {
        entries_errors(entries, checked.drop_last()) + entry_errors(entries, checked.last())
    }
}

/// The errors on two lists of references together are those on the one, then those on the other.
pub proof fn lemma_reference_errors_concat(
    entries: store::Entries,
    owner: Seq<char>,
    left: Seq<ReferenceView>,
    right: Seq<ReferenceView>,
)
    ensures
        reference_errors(entries, owner, left + right) == reference_errors(entries, owner, left)
            + reference_errors(entries, owner, right),
    decreases right.len(),
{
    let all = left + right;
    if right.len() == 0 {
        assert(all =~= left);
        assert(reference_errors(entries, owner, left) + reference_errors(entries, owner, right)
            =~= reference_errors(entries, owner, left));
    } else {
        lemma_reference_errors_concat(entries, owner, left, right.drop_last());
        assert(all.drop_last() =~= left + right.drop_last());
        assert(all.last() == right.last());
        assert(reference_errors(entries, owner, all) =~= reference_errors(entries, owner, left)
            + reference_errors(entries, owner, right));
    }
}

/// The text of a term's identifier with the hyphen in front.
pub fn term_id(name: &str) -> (id: String)
    ensures
        id@ == "-"@ + name@,
{
    let mut id = "-".to_owned();
    id.append(name);
    id
}

/// A text with a name and an attribute behind it, and a full stop between those two.
fn with_attribute(front: &str, name: &str, attribute: &str) -> (text: String)
    ensures
        text@ == front@ + name@ + "."@ + attribute@,
{
    let mut text = front.to_owned();
    text.append(name);
    text.append(".");
    text.append(attribute);
    text
}

/// Whether the store holds an attribute of a name in the message under an identifier.
fn has_attribute(bundle: &FluentBundle<FluentResource>, id: &str, name: &str) -> (found: bool)
    ensures
        found == holds_attribute(store::bundle_entries(*bundle), id@, name@),
{
    match store::get_message(bundle, id) {
        Some(message) => message.get_attribute(name).is_some(),
        None => false,
    }
}

// Listing references

impl Reference {
    /// The identifier that is referred to. That of a term has a leading hyphen.
    pub fn target(&self) -> (target: String)
        ensures
            target@ == self@.target(),
    {
        if self.term {
            term_id(self.id.as_str())
        } else {
            self.id.clone()
        }
    }
}

/// The reference that an identifier and an attribute spell.
pub fn make_reference(
    term: bool,
    id: &ast::Identifier<&str>,
    attribute: &Option<ast::Identifier<&str>>,
) -> (reference: Reference)
    ensures
        reference@ == if term {
            ReferenceView::Term { id: id.name@, attribute: syntax::identifier_view(*attribute) }
        } else {
            ReferenceView::Message { id: id.name@, attribute: syntax::identifier_view(*attribute) }
        },
{
    let attribute = match attribute {
        Some(attribute) => Some(attribute.name.to_owned()),
        None => None,
    };
    Reference { term, id: id.name.to_owned(), attribute }
}

/// Adds a reference to a list.
fn push_reference(list: &mut Vec<Reference>, reference: Reference)
    ensures
        references_view(final(list)@) == references_view(old(list)@).push(reference@),
{
    let ghost before = references_view(list@);
    let ghost view = reference@;
    list.push(reference);
    assert(references_view(list@) =~= before.push(view));
}

/// Lists the references of an inline expression.
fn list_inline(inline: &ast::InlineExpression<&str>, list: &mut Vec<Reference>)
    ensures
        references_view(final(list)@) == references_view(old(list)@) + inline_references(
            syntax::inline_view(*inline),
        ),
    decreases inline,
{
    let ghost before = references_view(list@);
    match inline {
        ast::InlineExpression::MessageReference { id, attribute } => {
            push_reference(list, make_reference(false, id, attribute));
        },
        ast::InlineExpression::TermReference { id, attribute, arguments } => {
            push_reference(list, make_reference(true, id, attribute));
            if let Some(arguments) = arguments {
                list_arguments(arguments, list);
            }
        },
        ast::InlineExpression::FunctionReference { arguments, .. } => {
            list_arguments(arguments, list);
        },
        ast::InlineExpression::Placeable { expression } => {
            list_expression(expression, list);
        },
        _ => {},
    }
    assert(references_view(list@) =~= before + inline_references(syntax::inline_view(*inline)));
}

/// Lists the references of the arguments of a call.
fn list_arguments(arguments: &ast::CallArguments<&str>, list: &mut Vec<Reference>)
    ensures
        references_view(final(list)@) == references_view(old(list)@) + arguments_references(
            syntax::arguments_view(*arguments),
        ),
    decreases arguments,
{
    let ghost before = references_view(list@);
    let ghost view = syntax::arguments_view(*arguments);
    let mut i: usize = 0;
    assert(before =~= before + positional_references(view.positional.take(0)));
    while i < arguments.positional.len()
        invariant
            i <= arguments.positional.len(),
            view == syntax::arguments_view(*arguments),
            references_view(list@) == before + positional_references(
                view.positional.take(i as int),
            ),
        decreases arguments.positional.len() - i,
    {
        list_inline(&arguments.positional[i], list);
        proof {
            let upto = view.positional.take(i + 1);
            assert(upto.drop_last() =~= view.positional.take(i as int));
            assert(references_view(list@) =~= before + positional_references(upto));
        }
        i = i + 1;
    }
    assert(view.positional.take(i as int) =~= view.positional);
    let ghost middle = references_view(list@);
    let mut j: usize = 0;
    assert(middle =~= middle + named_references(view.named.take(0)));
    while j < arguments.named.len()
        invariant
            j <= arguments.named.len(),
            view == syntax::arguments_view(*arguments),
            references_view(list@) == middle + named_references(view.named.take(j as int)),
        decreases arguments.named.len() - j,
    {
        list_inline(&arguments.named[j].value, list);
        proof {
            let upto = view.named.take(j + 1);
            assert(upto.drop_last() =~= view.named.take(j as int));
            assert(references_view(list@) =~= middle + named_references(upto));
        }
        j = j + 1;
    }
    assert(view.named.take(j as int) =~= view.named);
    assert(references_view(list@) =~= before + arguments_references(view));
}

/// Lists the references of an expression.
pub fn list_expression(expression: &ast::Expression<&str>, list: &mut Vec<Reference>)
    ensures
        references_view(final(list)@) == references_view(old(list)@) + expression_references(
            syntax::expression_view(*expression),
        ),
    decreases expression,
{
    let ghost before = references_view(list@);
    match expression {
        ast::Expression::Inline(inline) => {
            list_inline(inline, list);
        },
        ast::Expression::Select { selector, variants } => {
            list_inline(selector, list);
            list_variants(variants, list);
            assert(references_view(list@) =~= before + expression_references(
                syntax::expression_view(*expression),
            ));
        },
    }
}

/// Lists the references of the variants of a select expression.
fn list_variants(variants: &Vec<ast::Variant<&str>>, list: &mut Vec<Reference>)
    ensures
        references_view(final(list)@) == references_view(old(list)@) + variants_references(
            syntax::variants_view(variants@),
        ),
    decreases variants,
{
    let ghost before = references_view(list@);
    let ghost views = syntax::variants_view(variants@);
    let mut i: usize = 0;
    assert(before =~= before + variants_references(views.take(0)));
    while i < variants.len()
        invariant
            i <= variants.len(),
            views == syntax::variants_view(variants@),
            references_view(list@) == before + variants_references(views.take(i as int)),
        decreases variants.len() - i,
    {
        list_pattern(&variants[i].value, list);
        proof {
            assert(views.take(i + 1).drop_last() =~= views.take(i as int));
            assert(references_view(list@) =~= before + variants_references(views.take(i + 1)));
        }
        i = i + 1;
    }
    assert(views.take(i as int) =~= views);
}

/// Lists the references of a pattern.
pub fn list_pattern(pattern: &ast::Pattern<&str>, list: &mut Vec<Reference>)
    ensures
        references_view(final(list)@) == references_view(old(list)@) + pattern_references(
            Some(syntax::pattern_view(*pattern)),
        ),
    decreases pattern,
{
    let ghost before = references_view(list@);
    let ghost views = syntax::elements_view(pattern.elements@);
    let mut i: usize = 0;
    assert(before =~= before + elements_references(views.take(0)));
    while i < pattern.elements.len()
        invariant
            i <= pattern.elements.len(),
            views == syntax::elements_view(pattern.elements@),
            references_view(list@) == before + elements_references(views.take(i as int)),
        decreases pattern.elements.len() - i,
    {
        if let ast::PatternElement::Placeable { expression } = &pattern.elements[i] {
            list_expression(expression, list);
        }
        proof {
            assert(views.take(i + 1).drop_last() =~= views.take(i as int));
            assert(references_view(list@) =~= before + elements_references(views.take(i + 1)));
        }
        i = i + 1;
    }
    assert(views.take(i as int) =~= views);
}

/// Lists the references of attributes.
fn list_attributes(attributes: &Vec<ast::Attribute<&str>>, list: &mut Vec<Reference>)
    ensures
        references_view(final(list)@) == references_view(old(list)@) + attributes_references(
            syntax::attributes_view(attributes@),
        ),
{
    let ghost before = references_view(list@);
    let ghost views = syntax::attributes_view(attributes@);
    let mut i: usize = 0;
    assert(before =~= before + attributes_references(views.take(0)));
    while i < attributes.len()
        invariant
            i <= attributes.len(),
            views == syntax::attributes_view(attributes@),
            references_view(list@) == before + attributes_references(views.take(i as int)),
        decreases attributes.len() - i,
    {
        list_pattern(&attributes[i].value, list);
        proof {
            assert(views.take(i + 1).drop_last() =~= views.take(i as int));
            assert(references_view(list@) =~= before + attributes_references(views.take(i + 1)));
        }
        i = i + 1;
    }
    assert(views.take(i as int) =~= views);
}

/// Lists the references of an entry.
pub fn list_entry(entry: &ast::Entry<&str>) -> (list: Vec<Reference>)
    ensures
        references_view(list@) == entry_references(syntax::entry_view(*entry)),
{
    let mut list: Vec<Reference> = Vec::new();
    match entry {
        ast::Entry::Message(message) => {
            if let Some(value) = &message.value {
                list_pattern(value, &mut list);
            }
            list_attributes(&message.attributes, &mut list);
        },
        ast::Entry::Term(term) => {
            list_pattern(&term.value, &mut list);
            list_attributes(&term.attributes, &mut list);
        },
        _ => {},
    }
    assert(references_view(list@) =~= entry_references(syntax::entry_view(*entry)));
    list
}

// Checking references

/// Checks a reference: the error on it, or none where the bundle holds what is referred to.
pub fn check_reference(
    bundle: &FluentBundle<FluentResource>,
    reference: &Reference,
    current_msg_id: &str,
) -> (error: Option<ValidationError>)
    ensures
        match error {
            Some(error) => reference_error(
                store::bundle_entries(*bundle),
                current_msg_id@,
                reference@,
            ) == Some(error@),
            None => reference_error(
                store::bundle_entries(*bundle),
                current_msg_id@,
                reference@,
            ) is None,
        },
{
    proof {
        assert(""@ =~= Seq::empty()) by {
            reveal_strlit("");
        }
    }
    let id = reference.id.as_str();
    let target = reference.target();
    let hyphen = if reference.term {
        "-"
    } else {
        ""
    };
    if !store::has_message(bundle, target.as_str()) {
        let (error_type, front) = if reference.term {
            ("UnknownTerm", "Unknown term: -")
        } else {
            ("UnknownMessage", "Unknown message: ")
        };
        let mut message = front.to_owned();
        message.append(id);
        return Some(
            ValidationError {
                error_type: error_type.to_owned(),
                message,
                message_id: Some(current_msg_id.to_owned()),
                reference: Some(target),
            },
        );
    }
    if let Some(attribute) = &reference.attribute {
        if !has_attribute(bundle, target.as_str(), attribute.as_str()) {
            let front = if reference.term {
                "Unknown attribute on term: -"
            } else {
                "Unknown attribute: "
            };
            return Some(
                ValidationError {
                    error_type: "UnknownAttribute".to_owned(),
                    message: with_attribute(front, id, attribute.as_str()),
                    message_id: Some(current_msg_id.to_owned()),
                    reference: Some(with_attribute(hyphen, id, attribute.as_str())),
                },
            );
        }
    }
    None
}

/// Checks a list of references.
pub fn check_listed_references(
    bundle: &FluentBundle<FluentResource>,
    list: &Vec<Reference>,
    current_msg_id: &str,
    errors: &mut Vec<ValidationError>,
)
    ensures
        errors::validation_errors_view(final(errors)@) == errors::validation_errors_view(
            old(errors)@,
        ) + reference_errors(
            store::bundle_entries(*bundle),
            current_msg_id@,
            references_view(list@),
        ),
{
    let ghost entries = store::bundle_entries(*bundle);
    let ghost owner = current_msg_id@;
    let ghost before = errors::validation_errors_view(errors@);
    let ghost views = references_view(list@);
    let mut i: usize = 0;
    assert(before =~= before + reference_errors(entries, owner, views.take(0)));
    while i < list.len()
        invariant
            i <= list.len(),
            entries == store::bundle_entries(*bundle),
            owner == current_msg_id@,
            views == references_view(list@),
            errors::validation_errors_view(errors@) == before + reference_errors(
                entries,
                owner,
                views.take(i as int),
            ),
        decreases list.len() - i,
    {
        let ghost sofar = errors::validation_errors_view(errors@);
        let ghost done = reference_errors(entries, owner, views.take(i as int));
        assert(views.take(i + 1).drop_last() =~= views.take(i as int));
        if let Some(error) = check_reference(bundle, &list[i], current_msg_id) {
            errors.push(error);
            proof {
                assert(errors::validation_errors_view(errors@) =~= sofar.push(error@));
                assert(before + done.push(error@) =~= (before + done).push(error@));
            }
        }
        i = i + 1;
    }
    assert(views.take(i as int) =~= views);
}

/// Checks the references of an expression.
pub fn check_expression_references(
    bundle: &FluentBundle<FluentResource>,
    expression: &ast::Expression<&str>,
    current_msg_id: &str,
    errors: &mut Vec<ValidationError>,
)
    ensures
        errors::validation_errors_view(final(errors)@) == errors::validation_errors_view(
            old(errors)@,
        ) + reference_errors(
            store::bundle_entries(*bundle),
            current_msg_id@,
            expression_references(syntax::expression_view(*expression)),
        ),
{
    let mut list: Vec<Reference> = Vec::new();
    let ghost none = references_view(list@);
    list_expression(expression, &mut list);
    proof {
        let found = expression_references(syntax::expression_view(*expression));
        assert(none + found =~= found);
    }
    check_listed_references(bundle, &list, current_msg_id, errors);
}

/// Checks the references of a pattern.
pub fn check_pattern_references(
    bundle: &FluentBundle<FluentResource>,
    pattern: &ast::Pattern<&str>,
    current_msg_id: &str,
    errors: &mut Vec<ValidationError>,
)
    ensures
        errors::validation_errors_view(final(errors)@) == errors::validation_errors_view(
            old(errors)@,
        ) + reference_errors(
            store::bundle_entries(*bundle),
            current_msg_id@,
            pattern_references(Some(syntax::pattern_view(*pattern))),
        ),
{
    let ghost entries = store::bundle_entries(*bundle);
    let ghost owner = current_msg_id@;
    let ghost before = errors::validation_errors_view(errors@);
    let ghost views = syntax::elements_view(pattern.elements@);
    let mut i: usize = 0;
    assert(before =~= before + reference_errors(
        entries,
        owner,
        elements_references(views.take(0)),
    ));
    while i < pattern.elements.len()
        invariant
            i <= pattern.elements.len(),
            entries == store::bundle_entries(*bundle),
            owner == current_msg_id@,
            views == syntax::elements_view(pattern.elements@),
            errors::validation_errors_view(errors@) == before + reference_errors(
                entries,
                owner,
                elements_references(views.take(i as int)),
            ),
        decreases pattern.elements.len() - i,
    {
        let ghost done = elements_references(views.take(i as int));
        proof {
            assert(views.take(i + 1).drop_last() =~= views.take(i as int));
            assert(done + Seq::empty() =~= done);
        }
        if let ast::PatternElement::Placeable { expression } = &pattern.elements[i] {
            check_expression_references(bundle, expression, current_msg_id, errors);
            proof {
                let more = expression_references(syntax::expression_view(*expression));
                lemma_reference_errors_concat(entries, owner, done, more);
                assert(errors::validation_errors_view(errors@) =~= before + reference_errors(
                    entries,
                    owner,
                    done + more,
                ));
            }
        }
        i = i + 1;
    }
    assert(views.take(i as int) =~= views);
}

/// Checks the references of attributes.
fn check_attributes_references(
    bundle: &FluentBundle<FluentResource>,
    attributes: &Vec<ast::Attribute<&str>>,
    current_msg_id: &str,
    errors: &mut Vec<ValidationError>,
)
    ensures
        errors::validation_errors_view(final(errors)@) == errors::validation_errors_view(
            old(errors)@,
        ) + reference_errors(
            store::bundle_entries(*bundle),
            current_msg_id@,
            attributes_references(syntax::attributes_view(attributes@)),
        ),
{
    let ghost entries = store::bundle_entries(*bundle);
    let ghost owner = current_msg_id@;
    let ghost before = errors::validation_errors_view(errors@);
    let ghost views = syntax::attributes_view(attributes@);
    let mut i: usize = 0;
    assert(before =~= before + reference_errors(
        entries,
        owner,
        attributes_references(views.take(0)),
    ));
    while i < attributes.len()
        invariant
            i <= attributes.len(),
            entries == store::bundle_entries(*bundle),
            owner == current_msg_id@,
            views == syntax::attributes_view(attributes@),
            errors::validation_errors_view(errors@) == before + reference_errors(
                entries,
                owner,
                attributes_references(views.take(i as int)),
            ),
        decreases attributes.len() - i,
    {
        check_pattern_references(bundle, &attributes[i].value, current_msg_id, errors);
        proof {
            let done = attributes_references(views.take(i as int));
            let more = pattern_references(Some(views[i as int].value));
            assert(views.take(i + 1).drop_last() =~= views.take(i as int));
            lemma_reference_errors_concat(entries, owner, done, more);
            assert(errors::validation_errors_view(errors@) =~= before + reference_errors(
                entries,
                owner,
                done + more,
            ));
        }
        i = i + 1;
    }
    assert(views.take(i as int) =~= views);
}

/// Checks the references of an entry.
fn check_entry_references(
    bundle: &FluentBundle<FluentResource>,
    entry: &ast::Entry<&str>,
    errors: &mut Vec<ValidationError>,
)
    ensures
        errors::validation_errors_view(final(errors)@) == errors::validation_errors_view(
            old(errors)@,
        ) + entry_errors(store::bundle_entries(*bundle), syntax::entry_view(*entry)),
{
    let ghost entries = store::bundle_entries(*bundle);
    let ghost before = errors::validation_errors_view(errors@);
    let ghost view = syntax::entry_view(*entry);
    match entry {
        ast::Entry::Message(message) => {
            let ghost first = pattern_references(syntax::value_view(message.value));
            let ghost second = attributes_references(
                syntax::attributes_view(message.attributes@),
            );
            if let Some(value) = &message.value {
                check_pattern_references(bundle, value, message.id.name, errors);
            }
            check_attributes_references(bundle, &message.attributes, message.id.name, errors);
            proof {
                lemma_reference_errors_concat(entries, message.id.name@, first, second);
                assert(errors::validation_errors_view(errors@) =~= before + entry_errors(
                    entries,
                    view,
                ));
            }
        },
        ast::Entry::Term(term) => {
            let id = term_id(term.id.name);
            let ghost first = pattern_references(Some(syntax::pattern_view(term.value)));
            let ghost second = attributes_references(syntax::attributes_view(term.attributes@));
            check_pattern_references(bundle, &term.value, id.as_str(), errors);
            check_attributes_references(bundle, &term.attributes, id.as_str(), errors);
            proof {
                lemma_reference_errors_concat(entries, id@, first, second);
                assert(errors::validation_errors_view(errors@) =~= before + entry_errors(
                    entries,
                    view,
                ));
            }
        },
        _ => {
            assert(before =~= before + entry_errors(entries, view));
        },
    }
}

/// Checks all references of messages and terms against what the bundle holds.
pub fn check_entries_references(
    entries: &Vec<&ast::Entry<&str>>,
    bundle: &FluentBundle<FluentResource>,
) -> (errors: Vec<ValidationError>)
    ensures
        errors::validation_errors_view(errors@) == entries_errors(
            store::bundle_entries(*bundle),
            syntax::entries_view(entries@),
        ),
{
    let ghost stored = store::bundle_entries(*bundle);
    let ghost views = syntax::entries_view(entries@);
    let mut errors: Vec<ValidationError> = Vec::new();
    let mut i: usize = 0;
    assert(errors::validation_errors_view(errors@) =~= entries_errors(stored, views.take(0)));
    while i < entries.len()
        invariant
            i <= entries.len(),
            stored == store::bundle_entries(*bundle),
            views == syntax::entries_view(entries@),
            errors::validation_errors_view(errors@) == entries_errors(
                stored,
                views.take(i as int),
            ),
        decreases entries.len() - i,
    {
        check_entry_references(bundle, entries[i], &mut errors);
        assert(views.take(i + 1).drop_last() =~= views.take(i as int));
        i = i + 1;
    }
    assert(views.take(i as int) =~= views);
    errors
}

/// Checks all references of a resource against what the bundle holds.
pub fn check_references(
    resource: &FluentResource,
    bundle: &FluentBundle<FluentResource>,
) -> (errors: Vec<ValidationError>)
    ensures
        errors::validation_errors_view(errors@) == entries_errors(
            store::bundle_entries(*bundle),
            resource::resource_entries(*resource),
        ),
{
    check_entries_references(&resource::entries_of(resource), bundle)
}

} // verus!
