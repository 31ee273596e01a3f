//! Which references an entry holds, and in which order.

use crate::references;
use crate::references::ReferenceView;
use crate::syntax;
use vstd::prelude::*;

verus! {

// Order: the references of a whole are those of its parts, one part after the other.

/// The references of elements are those of a first part of them, followed by those of the rest. A
/// text has none; a placeable has those of its expression.
pub proof fn law_references_of_elements(
    left: Seq<syntax::ElementView>,
    right: Seq<syntax::ElementView>,
    text: Seq<char>,
    expression: syntax::ExpressionView,
)
    ensures
        references::elements_references(left + right) == references::elements_references(left)
            + references::elements_references(right),
        references::elements_references(seq![syntax::ElementView::Text(text)]).len() == 0,
        references::elements_references(seq![syntax::ElementView::Placeable(expression)])
            == references::expression_references(expression),
    decreases right.len(),
{
    let all = left + right;
    let one = seq![syntax::ElementView::Text(text)];
    let other = seq![syntax::ElementView::Placeable(expression)];
    assert(one.drop_last() =~= Seq::empty());
    assert(other.drop_last() =~= Seq::empty());
    assert(references::elements_references(other.drop_last()) =~= Seq::empty());
    assert(references::elements_references(other)
        =~= references::expression_references(expression));
    if right.len() == 0 {
        assert(all =~= left);
        assert(references::elements_references(all) =~= references::elements_references(left)
            + references::elements_references(right));
    } else {
        law_references_of_elements(left, right.drop_last(), text, expression);
        assert(all.drop_last() =~= left + right.drop_last());
        assert(references::elements_references(all) =~= references::elements_references(left)
            + references::elements_references(right));
    }
}

/// The references of variants are those of a first part of them, followed by those of the rest. A
/// variant has those of its value, whatever its key and be it the default or not.
pub proof fn law_references_of_variants(
    left: Seq<syntax::VariantView>,
    right: Seq<syntax::VariantView>,
    variant: syntax::VariantView,
)
    ensures
        references::variants_references(left + right) == references::variants_references(left)
            + references::variants_references(right),
        references::variants_references(seq![variant]) == references::elements_references(
            variant.value.elements,
        ),
    decreases right.len(),
{
    let all = left + right;
    let one = seq![variant];
    assert(one.drop_last() =~= Seq::empty());
    assert(references::variants_references(one.drop_last()) =~= Seq::empty());
    assert(references::variants_references(one) =~= references::elements_references(
        variant.value.elements,
    ));
    if right.len() == 0 {
        assert(all =~= left);
        assert(references::variants_references(all) =~= references::variants_references(left)
            + references::variants_references(right));
    } else {
        law_references_of_variants(left, right.drop_last(), variant);
        assert(all.drop_last() =~= left + right.drop_last());
        assert(references::variants_references(all) =~= references::variants_references(left)
            + references::variants_references(right));
    }
}

/// The references of positional arguments are those of a first part of them, followed by those of
/// the rest.
pub proof fn law_references_of_positional_arguments(
    left: Seq<syntax::InlineView>,
    right: Seq<syntax::InlineView>,
    argument: syntax::InlineView,
)
    ensures
        references::positional_references(left + right) == references::positional_references(left)
            + references::positional_references(right),
        references::positional_references(seq![argument]) == references::inline_references(argument),
    decreases right.len(),
{
    let all = left + right;
    let one = seq![argument];
    assert(one.drop_last() =~= Seq::empty());
    assert(references::positional_references(one.drop_last()) =~= Seq::empty());
    assert(references::positional_references(one) =~= references::inline_references(argument));
    if right.len() == 0 {
        assert(all =~= left);
        assert(references::positional_references(all) =~= references::positional_references(left)
            + references::positional_references(right));
    } else {
        law_references_of_positional_arguments(left, right.drop_last(), argument);
        assert(all.drop_last() =~= left + right.drop_last());
        assert(references::positional_references(all) =~= references::positional_references(left)
            + references::positional_references(right));
    }
}

/// The references of named arguments are those of a first part of them, followed by those of the
/// rest. A named argument has those of its value.
pub proof fn law_references_of_named_arguments(
    left: Seq<syntax::NamedView>,
    right: Seq<syntax::NamedView>,
    argument: syntax::NamedView,
)
    ensures
        references::named_references(left + right) == references::named_references(left)
            + references::named_references(right),
        references::named_references(seq![argument]) == references::inline_references(
            argument.value,
        ),
    decreases right.len(),
{
    let all = left + right;
    let one = seq![argument];
    assert(one.drop_last() =~= Seq::empty());
    assert(references::named_references(one.drop_last()) =~= Seq::empty());
    assert(references::named_references(one) =~= references::inline_references(argument.value));
    if right.len() == 0 {
        assert(all =~= left);
        assert(references::named_references(all) =~= references::named_references(left)
            + references::named_references(right));
    } else {
        law_references_of_named_arguments(left, right.drop_last(), argument);
        assert(all.drop_last() =~= left + right.drop_last());
        assert(references::named_references(all) =~= references::named_references(left)
            + references::named_references(right));
    }
}

/// A call comes with the references of its positional arguments, followed by those of its named
/// arguments. A reference comes by itself, a call of a term behind the reference to the term.
/// Literals and variables come with none.
pub proof fn law_references_of_inline_expressions(
    id: Seq<char>,
    attribute: Option<Seq<char>>,
    arguments: syntax::ArgumentsView,
    wrapped: syntax::ExpressionView,
)
    ensures
        references::inline_references(syntax::InlineView::Message { id, attribute }) == seq![
            ReferenceView::Message { id, attribute },
        ],
        references::inline_references(syntax::InlineView::Term { id, attribute, call: None })
            == seq![ReferenceView::Term { id, attribute }],
        references::inline_references(
            syntax::InlineView::Term { id, attribute, call: Some(arguments) },
        ) == seq![ReferenceView::Term { id, attribute }] + references::positional_references(
            arguments.positional,
        ) + references::named_references(arguments.named),
        references::inline_references(syntax::InlineView::Function { id, arguments })
            == references::positional_references(arguments.positional)
            + references::named_references(arguments.named),
        references::inline_references(syntax::InlineView::Placeable(Box::new(wrapped)))
            == references::expression_references(wrapped),
        references::inline_references(syntax::InlineView::Text(id)).len() == 0,
        references::inline_references(syntax::InlineView::Number(id)).len() == 0,
        references::inline_references(syntax::InlineView::Variable(id)).len() == 0,
{
    assert(references::inline_references(
        syntax::InlineView::Term { id, attribute, call: None },
    ) =~= seq![ReferenceView::Term { id, attribute }]);
    assert(references::inline_references(
        syntax::InlineView::Term { id, attribute, call: Some(arguments) },
    ) =~= seq![ReferenceView::Term { id, attribute }] + references::positional_references(
        arguments.positional,
    ) + references::named_references(arguments.named));
}

/// An expression comes with the references of its selector, followed by those of its variants.
pub proof fn law_references_of_expressions(
    inline: syntax::InlineView,
    variants: Seq<syntax::VariantView>,
)
    ensures
        references::expression_references(syntax::ExpressionView::Inline(inline))
            == references::inline_references(inline),
        references::expression_references(
            syntax::ExpressionView::Select { selector: inline, variants },
        ) == references::inline_references(inline) + references::variants_references(variants),
{
}

/// The references of attributes are those of a first part of them, followed by those of the rest.
/// An attribute has those of its value.
pub proof fn law_references_of_attributes(
    left: Seq<syntax::AttributeView>,
    right: Seq<syntax::AttributeView>,
    attribute: syntax::AttributeView,
)
    ensures
        references::attributes_references(left + right) == references::attributes_references(left)
            + references::attributes_references(right),
        references::attributes_references(seq![attribute]) == references::elements_references(
            attribute.value.elements,
        ),
    decreases right.len(),
{
    let all = left + right;
    let one = seq![attribute];
    assert(one.drop_last() =~= Seq::empty());
    assert(references::attributes_references(one.drop_last()) =~= Seq::empty());
    assert(references::attributes_references(one) =~= references::elements_references(
        attribute.value.elements,
    ));
    if right.len() == 0 {
        assert(all =~= left);
        assert(references::attributes_references(right) =~= Seq::empty());
        assert(references::attributes_references(all) =~= references::attributes_references(left)
            + references::attributes_references(right));
    } else {
        law_references_of_attributes(left, right.drop_last(), attribute);
        assert(all.drop_last() =~= left + right.drop_last());
        assert(references::attributes_references(all) =~= references::attributes_references(left)
            + references::attributes_references(right));
    }
}

/// An entry comes with the references of its value, where it has one, followed by those of its
/// attributes.
pub proof fn law_references_of_entries(
    id: Seq<char>,
    value: syntax::PatternView,
    attributes: Seq<syntax::AttributeView>,
)
    ensures
        references::entry_references(
            syntax::EntryView::Message(
                syntax::MessageView { id, value: Some(value), attributes },
            ),
        ) == references::elements_references(value.elements) + references::attributes_references(
            attributes,
        ),
        references::entry_references(
            syntax::EntryView::Message(syntax::MessageView { id, value: None, attributes }),
        ) == references::attributes_references(attributes),
        references::entry_references(
            syntax::EntryView::Term(syntax::TermView { id, value, attributes }),
        ) == references::elements_references(value.elements) + references::attributes_references(
            attributes,
        ),
        references::entry_references(syntax::EntryView::Other).len() == 0,
{
    assert(references::entry_references(
        syntax::EntryView::Message(syntax::MessageView { id, value: None, attributes }),
    ) =~= references::attributes_references(attributes));
}

// Depth: a reference is collected wherever it stands.

/// Whether an inline expression mentions a reference, be it in the arguments of a call or in a
/// placeable that it wraps.
pub open spec fn inline_mentions(inline: syntax::InlineView, reference: ReferenceView) -> bool
    decreases inline,
{
    match inline {
        syntax::InlineView::Message { id, attribute } => reference == (ReferenceView::Message {
            id,
            attribute,
        }),
        syntax::InlineView::Term { id, attribute, call } => {
            ||| reference == (ReferenceView::Term { id, attribute })
            ||| match call {
                Some(arguments) => arguments_mention(arguments, reference),
                None => false,
            }
        },
        syntax::InlineView::Function { arguments, .. } => arguments_mention(arguments, reference),
        syntax::InlineView::Placeable(wrapped) => expression_mentions(*wrapped, reference),
        _ => false,
    }
}

/// Whether some argument of a call mentions a reference.
pub open spec fn arguments_mention(
    arguments: syntax::ArgumentsView,
    reference: ReferenceView,
) -> bool
    decreases arguments,
{
    ||| exists|i: int|
        0 <= i < arguments.positional.len() && inline_mentions(
            #[trigger] arguments.positional[i],
            reference,
        )
    ||| exists|i: int|
        0 <= i < arguments.named.len() && inline_mentions(
            (#[trigger] arguments.named[i]).value,
            reference,
        )
}

/// Whether an expression mentions a reference, in its selector or in some variant.
pub open spec fn expression_mentions(
    expression: syntax::ExpressionView,
    reference: ReferenceView,
) -> bool
    decreases expression,
{
    match expression {
        syntax::ExpressionView::Inline(inline) => inline_mentions(inline, reference),
        syntax::ExpressionView::Select { selector, variants } => {
            ||| inline_mentions(selector, reference)
            ||| exists|i: int|
                0 <= i < variants.len() && elements_mention(
                    (#[trigger] variants[i]).value.elements,
                    reference,
                )
        },
    }
}

/// Whether some placeable of a pattern mentions a reference.
pub open spec fn elements_mention(
    elements: Seq<syntax::ElementView>,
    reference: ReferenceView,
) -> bool
    decreases elements,
{
    exists|i: int|
        0 <= i < elements.len() && match #[trigger] elements[i] {
            syntax::ElementView::Text(_) => false,
            syntax::ElementView::Placeable(expression) => expression_mentions(
                expression,
                reference,
            ),
        }
}

/// Whether an entry mentions a reference, in its value or in some attribute.
pub open spec fn entry_mentions(entry: syntax::EntryView, reference: ReferenceView) -> bool {
    match entry {
        syntax::EntryView::Message(message) => {
            ||| message.value matches Some(value) && elements_mention(value.elements, reference)
            ||| attributes_mention(message.attributes, reference)
        },
        syntax::EntryView::Term(term) => {
            ||| elements_mention(term.value.elements, reference)
            ||| attributes_mention(term.attributes, reference)
        },
        syntax::EntryView::Other => false,
    }
}

/// Whether some attribute mentions a reference.
pub open spec fn attributes_mention(
    attributes: Seq<syntax::AttributeView>,
    reference: ReferenceView,
) -> bool {
    exists|i: int|
        0 <= i < attributes.len() && elements_mention(
            (#[trigger] attributes[i]).value.elements,
            reference,
        )
}

/// What two lists hold together.
proof fn lemma_either_holds(
    left: Seq<ReferenceView>,
    right: Seq<ReferenceView>,
    reference: ReferenceView,
)
    ensures
        (left + right).contains(reference) == (left.contains(reference) || right.contains(
            reference,
        )),
{
    let all = left + right;
    if left.contains(reference) {
        let i = choose|i: int| 0 <= i < left.len() && left[i] == reference;
        assert(all[i] == reference);
    }
    if right.contains(reference) {
        let i = choose|i: int| 0 <= i < right.len() && right[i] == reference;
        assert(all[left.len() + i] == reference);
    }
}

/// The references of an inline expression are those that it mentions.
proof fn lemma_inline_mentions(inline: syntax::InlineView, reference: ReferenceView)
    ensures
        references::inline_references(inline).contains(reference) == inline_mentions(
            inline,
            reference,
        ),
    decreases inline,
{
    match inline {
        syntax::InlineView::Message { id, attribute } => {
            let own = ReferenceView::Message { id, attribute };
            assert(seq![own].contains(reference) == (reference == own)) by {
                assert(seq![own][0] == own);
            }
        },
        syntax::InlineView::Term { id, attribute, call } => {
            let own = ReferenceView::Term { id, attribute };
            assert(seq![own].contains(reference) == (reference == own)) by {
                assert(seq![own][0] == own);
            }
            match call {
                Some(arguments) => {
                    lemma_arguments_mention(arguments, reference);
                    lemma_either_holds(
                        seq![own],
                        references::arguments_references(arguments),
                        reference,
                    );
                },
                None => {
                    lemma_either_holds(seq![own], Seq::empty(), reference);
                },
            }
        },
        syntax::InlineView::Function { arguments, .. } => {
            lemma_arguments_mention(arguments, reference);
        },
        syntax::InlineView::Placeable(wrapped) => {
            lemma_expression_mentions(*wrapped, reference);
        },
        _ => {},
    }
}

/// The references of the arguments of a call are those that some argument mentions.
proof fn lemma_arguments_mention(arguments: syntax::ArgumentsView, reference: ReferenceView)
    ensures
        references::arguments_references(arguments).contains(reference) == arguments_mention(
            arguments,
            reference,
        ),
    decreases arguments,
{
    lemma_positional_mention(arguments.positional, reference);
    lemma_named_mention(arguments.named, reference);
    lemma_either_holds(
        references::positional_references(arguments.positional),
        references::named_references(arguments.named),
        reference,
    );
}

/// The references of positional arguments are those that some argument mentions.
proof fn lemma_positional_mention(arguments: Seq<syntax::InlineView>, reference: ReferenceView)
    ensures
        references::positional_references(arguments).contains(reference) == exists|i: int|
            0 <= i < arguments.len() && inline_mentions(#[trigger] arguments[i], reference),
    decreases arguments,
{
    if arguments.len() > 0 {
        let front = arguments.drop_last();
        let n = arguments.len() - 1;
        lemma_positional_mention(front, reference);
        lemma_inline_mentions(arguments[n], reference);
        lemma_either_holds(
            references::positional_references(front),
            references::inline_references(arguments[n]),
            reference,
        );
        if exists|i: int| 0 <= i < front.len() && inline_mentions(#[trigger] front[i], reference) {
            let i = choose|i: int|
                0 <= i < front.len() && inline_mentions(#[trigger] front[i], reference);
            assert(inline_mentions(arguments[i], reference));
        }
        if exists|i: int|
            0 <= i < arguments.len() && inline_mentions(#[trigger] arguments[i], reference) {
            let i = choose|i: int|
                0 <= i < arguments.len() && inline_mentions(#[trigger] arguments[i], reference);
            if i < n {
                assert(inline_mentions(front[i], reference));
            }
        }
    }
}

/// The references of named arguments are those that some argument mentions.
proof fn lemma_named_mention(arguments: Seq<syntax::NamedView>, reference: ReferenceView)
    ensures
        references::named_references(arguments).contains(reference) == exists|i: int|
            0 <= i < arguments.len() && inline_mentions((#[trigger] arguments[i]).value, reference),
    decreases arguments,
{
    if arguments.len() > 0 {
        let front = arguments.drop_last();
        let n = arguments.len() - 1;
        lemma_named_mention(front, reference);
        lemma_inline_mentions(arguments[n].value, reference);
        lemma_either_holds(
            references::named_references(front),
            references::inline_references(arguments[n].value),
            reference,
        );
        if exists|i: int|
            0 <= i < front.len() && inline_mentions((#[trigger] front[i]).value, reference) {
            let i = choose|i: int|
                0 <= i < front.len() && inline_mentions((#[trigger] front[i]).value, reference);
            assert(inline_mentions(arguments[i].value, reference));
        }
        if exists|i: int|
            0 <= i < arguments.len() && inline_mentions(
                (#[trigger] arguments[i]).value,
                reference,
            ) {
            let i = choose|i: int|
                0 <= i < arguments.len() && inline_mentions(
                    (#[trigger] arguments[i]).value,
                    reference,
                );
            if i < n {
                assert(inline_mentions(front[i].value, reference));
            }
        }
    }
}

/// The references of an expression are those that it mentions.
proof fn lemma_expression_mentions(expression: syntax::ExpressionView, reference: ReferenceView)
    ensures
        references::expression_references(expression).contains(reference) == expression_mentions(
            expression,
            reference,
        ),
    decreases expression,
{
    match expression {
        syntax::ExpressionView::Inline(inline) => {
            lemma_inline_mentions(inline, reference);
        },
        syntax::ExpressionView::Select { selector, variants } => {
            lemma_inline_mentions(selector, reference);
            lemma_variants_mention(variants, reference);
            lemma_either_holds(
                references::inline_references(selector),
                references::variants_references(variants),
                reference,
            );
        },
    }
}

/// The references of variants are those that some variant mentions.
proof fn lemma_variants_mention(variants: Seq<syntax::VariantView>, reference: ReferenceView)
    ensures
        references::variants_references(variants).contains(reference) == exists|i: int|
            0 <= i < variants.len() && elements_mention(
                (#[trigger] variants[i]).value.elements,
                reference,
            ),
    decreases variants,
{
    if variants.len() > 0 {
        let front = variants.drop_last();
        let n = variants.len() - 1;
        lemma_variants_mention(front, reference);
        lemma_elements_mention(variants[n].value.elements, reference);
        lemma_either_holds(
            references::variants_references(front),
            references::elements_references(variants[n].value.elements),
            reference,
        );
        if exists|i: int|
            0 <= i < front.len() && elements_mention(
                (#[trigger] front[i]).value.elements,
                reference,
            ) {
            let i = choose|i: int|
                0 <= i < front.len() && elements_mention(
                    (#[trigger] front[i]).value.elements,
                    reference,
                );
            assert(elements_mention(variants[i].value.elements, reference));
        }
        if exists|i: int|
            0 <= i < variants.len() && elements_mention(
                (#[trigger] variants[i]).value.elements,
                reference,
            ) {
            let i = choose|i: int|
                0 <= i < variants.len() && elements_mention(
                    (#[trigger] variants[i]).value.elements,
                    reference,
                );
            if i < n {
                assert(elements_mention(front[i].value.elements, reference));
            }
        }
    }
}

/// Whether an element mentions a reference.
spec fn element_mentions(element: syntax::ElementView, reference: ReferenceView) -> bool {
    match element {
        syntax::ElementView::Text(_) => false,
        syntax::ElementView::Placeable(expression) => expression_mentions(expression, reference),
    }
}

/// The references of elements are those that some element mentions.
pub proof fn lemma_elements_mention(elements: Seq<syntax::ElementView>, reference: ReferenceView)
    ensures
        references::elements_references(elements).contains(reference) == elements_mention(
            elements,
            reference,
        ),
    decreases elements,
{
    assert(elements_mention(elements, reference) == exists|i: int|
        0 <= i < elements.len() && element_mentions(#[trigger] elements[i], reference));
    if elements.len() > 0 {
        let front = elements.drop_last();
        let n = elements.len() - 1;
        assert(elements_mention(front, reference) == exists|i: int|
            0 <= i < front.len() && element_mentions(#[trigger] front[i], reference));
        lemma_elements_mention(front, reference);
        let own: Seq<ReferenceView> = match elements[n] {
            syntax::ElementView::Text(_) => Seq::empty(),
            syntax::ElementView::Placeable(expression) => {
                references::expression_references(expression)
            },
        };
        match elements[n] {
            syntax::ElementView::Text(_) => {},
            syntax::ElementView::Placeable(expression) => {
                lemma_expression_mentions(expression, reference);
            },
        }
        lemma_either_holds(references::elements_references(front), own, reference);
        if exists|i: int| 0 <= i < front.len() && element_mentions(#[trigger] front[i], reference) {
            let i = choose|i: int|
                0 <= i < front.len() && element_mentions(#[trigger] front[i], reference);
            assert(element_mentions(elements[i], reference));
        }
        if exists|i: int|
            0 <= i < elements.len() && element_mentions(#[trigger] elements[i], reference) {
            let i = choose|i: int|
                0 <= i < elements.len() && element_mentions(#[trigger] elements[i], reference);
            if i < n {
                assert(element_mentions(front[i], reference));
            }
        }
    }
}

/// The references of attributes are those that some attribute mentions.
proof fn lemma_attributes_mention(
    attributes: Seq<syntax::AttributeView>,
    reference: ReferenceView,
)
    ensures
        references::attributes_references(attributes).contains(reference) == attributes_mention(
            attributes,
            reference,
        ),
    decreases attributes.len(),
{
    if attributes.len() > 0 {
        let front = attributes.drop_last();
        let n = attributes.len() - 1;
        lemma_attributes_mention(front, reference);
        lemma_elements_mention(attributes[n].value.elements, reference);
        lemma_either_holds(
            references::attributes_references(front),
            references::elements_references(attributes[n].value.elements),
            reference,
        );
        if attributes_mention(front, reference) {
            let i = choose|i: int|
                0 <= i < front.len() && elements_mention(
                    (#[trigger] front[i]).value.elements,
                    reference,
                );
            assert(elements_mention(attributes[i].value.elements, reference));
        }
        if attributes_mention(attributes, reference) {
            let i = choose|i: int|
                0 <= i < attributes.len() && elements_mention(
                    (#[trigger] attributes[i]).value.elements,
                    reference,
                );
            if i < n {
                assert(elements_mention(front[i].value.elements, reference));
            }
        }
    }
}

/// The references of an entry are those that it mentions, at whichever depth: in the value or in an
/// attribute, in a selector or in a variant, in an argument of a call or in a placeable within a
/// placeable.
pub proof fn law_mentions_are_collected(entry: syntax::EntryView, reference: ReferenceView)
    ensures
        references::entry_references(entry).contains(reference) <==> entry_mentions(
            entry,
            reference,
        ),
{
    match entry {
        syntax::EntryView::Message(message) => {
            if message.value is Some {
                lemma_elements_mention(message.value->0.elements, reference);
            }
            lemma_attributes_mention(message.attributes, reference);
            lemma_either_holds(
                references::pattern_references(message.value),
                references::attributes_references(message.attributes),
                reference,
            );
        },
        syntax::EntryView::Term(term) => {
            lemma_elements_mention(term.value.elements, reference);
            lemma_attributes_mention(term.attributes, reference);
            lemma_either_holds(
                references::pattern_references(Some(term.value)),
                references::attributes_references(term.attributes),
                reference,
            );
        },
        syntax::EntryView::Other => {},
    }
}

} // verus!
