//! What a pattern expands to: the messages and terms that formatting it may come upon, and the
//! number of placeables.

use crate::nesting;
use crate::nesting::Quality;
use crate::references;
use crate::references::Reference;
use crate::store;
use crate::syntax;
use crate::text;
use fluent_syntax::ast;
use vstd::hash_map::StringHashMap;
use vstd::hash_set::StringHashSet;
use vstd::prelude::*;

verus! {

/// The number of placeables beyond which the formatter gives up.
pub const PLACEABLE_LIMIT: usize = 100;

// Names

/// The names that references name, in order.
pub open spec fn mentioned(list: Seq<references::ReferenceView>) -> Seq<Seq<char>> {
    list.map_values(|r: references::ReferenceView| r.name())
}

/// Whether the entries under a set of names have a quality, and mention nothing but names of the
/// set.
pub open spec fn is_closed_set(
    entries: store::Entries,
    names: Set<Seq<char>>,
    quality: Quality,
) -> bool {
    forall|name: Seq<char>| #[trigger]
        names.contains(name) && entries.contains_key(name) ==> {
            &&& nesting::entry_has(entries[name], quality)
            &&& holds_all(names, mentioned(references::entry_references(entries[name])))
        }
}

/// Whether a set holds all names of a list.
pub open spec fn holds_all(names: Set<Seq<char>>, list: Seq<Seq<char>>) -> bool {
    forall|name: Seq<char>| #[trigger] list.contains(name) ==> names.contains(name)
}

/// Whether everything that names lead to, from mention to mention, has a quality.
pub open spec fn leads_to(
    entries: store::Entries,
    list: Seq<Seq<char>>,
    quality: Quality,
) -> bool {
    exists|names: Set<Seq<char>>| #[trigger]
        is_closed_set(entries, names, quality) && holds_all(names, list)
}

/// Whether a pattern and everything that it leads to has a quality.
pub open spec fn has_throughout(
    entries: store::Entries,
    pattern: syntax::PatternView,
    quality: Quality,
) -> bool {
    &&& nesting::pattern_has(pattern, quality)
    &&& leads_to(entries, mentioned(references::pattern_references(Some(pattern))), quality)
}

// Steps

/// What formatting does, as far as it counts for the number of placeables.
pub enum StepView {
    /// Writes a placeable.
    Placeable,
    /// Follows a reference.
    Reference(references::ReferenceView),
    /// Takes one of several ways.
    Choice(Seq<Seq<StepView>>),
}

/// The steps of an expression. Of the variants of a select expression, one is taken.
pub open spec fn expression_steps(expression: syntax::ExpressionView) -> Seq<StepView>
    decreases expression,
{
    match expression {
        syntax::ExpressionView::Inline(inline) => inline_steps(inline),
        syntax::ExpressionView::Select { selector, variants } => inline_steps(selector).push(
            StepView::Choice(variants_steps(variants)),
        ),
    }
}

/// The steps of each variant.
pub open spec fn variants_steps(variants: Seq<syntax::VariantView>) -> Seq<Seq<StepView>>
    decreases variants,
{
    if variants.len() == 0 {
        Seq::empty()
    } else {
        variants_steps(variants.drop_last()).push(elements_steps(variants.last().value.elements))
    }
}

/// The steps of the elements of a pattern.
pub open spec fn elements_steps(elements: Seq<syntax::ElementView>) -> Seq<StepView>
    decreases elements,
{
    if elements.len() == 0 {
        Seq::empty()
    } else {
        let before = elements_steps(elements.drop_last());
        match elements.last() {
            syntax::ElementView::Text(_) => before,
            syntax::ElementView::Placeable(expression) => before.push(StepView::Placeable)
                + expression_steps(expression),
        }
    }
}

/// The steps of an inline expression. A placeable that directly wraps another expression does not
/// count by itself.
pub open spec fn inline_steps(inline: syntax::InlineView) -> Seq<StepView>
    decreases inline,
{
    match inline {
        syntax::InlineView::Message { id, attribute } => seq![
            StepView::Reference(references::ReferenceView::Message { id, attribute }),
        ],
        syntax::InlineView::Term { id, attribute, call } => seq![
            StepView::Reference(references::ReferenceView::Term { id, attribute }),
        ] + match call {
            Some(arguments) => arguments_steps(arguments),
            None => Seq::empty(),
        },
        syntax::InlineView::Function { arguments, .. } => arguments_steps(arguments),
        syntax::InlineView::Placeable(wrapped) => expression_steps(*wrapped),
        _ => Seq::empty(),
    }
}

/// The steps of the arguments of a call.
pub open spec fn arguments_steps(arguments: syntax::ArgumentsView) -> Seq<StepView>
    decreases arguments,
{
    positional_steps(arguments.positional) + named_steps(arguments.named)
}

/// The steps of positional arguments.
pub open spec fn positional_steps(arguments: Seq<syntax::InlineView>) -> Seq<StepView>
    decreases arguments,
{
    if arguments.len() == 0 {
        Seq::empty()
    } else {
        positional_steps(arguments.drop_last()) + inline_steps(arguments.last())
    }
}

/// The steps of named arguments.
pub open spec fn named_steps(arguments: Seq<syntax::NamedView>) -> Seq<StepView>
    decreases arguments,
{
    if arguments.len() == 0 {
        Seq::empty()
    } else {
        named_steps(arguments.drop_last()) + inline_steps(arguments.last().value)
    }
}

// Placeables

/// The pattern that a reference leads to, where there is one.
pub open spec fn referred(
    entries: store::Entries,
    reference: references::ReferenceView,
) -> Option<syntax::PatternView> {
    match reference {
        references::ReferenceView::Message { id, attribute } => if store::holds_message(
            entries,
            id,
        ) {
            match attribute {
                Some(name) => store::attribute_value(entries[id]->Message_0.attributes, name),
                None => entries[id]->Message_0.value,
            }
        } else {
            None
        },
        references::ReferenceView::Term { id, attribute } => if entries.contains_key(id)
            && entries[id] is Term {
            match attribute {
                Some(name) => store::attribute_value(entries[id]->Term_0.attributes, name),
                None => Some(entries[id]->Term_0.value),
            }
        } else {
            None
        },
    }
}

/// The number of placeables that a reference expands to at most. A reference to what is being
/// expanded already is not followed. Behind as many references in a row as `depth` says, no
/// further one is followed: each of those stands in a placeable of its own.
pub open spec fn reference_expansion(
    entries: store::Entries,
    path: Seq<references::ReferenceView>,
    reference: references::ReferenceView,
    depth: nat,
) -> nat
    decreases depth, 0nat, reference,
{
    if path.contains(reference) {
        0
    } else {
        match referred(entries, reference) {
            None => 0,
            Some(pattern) => if depth == 0 {
                1
            } else {
                steps_expansion(
                    entries,
                    path.push(reference),
                    elements_steps(pattern.elements),
                    (depth - 1) as nat,
                )
            },
        }
    }
}

/// The number of placeables that a step expands to at most.
pub open spec fn step_expansion(
    entries: store::Entries,
    path: Seq<references::ReferenceView>,
    step: StepView,
    depth: nat,
) -> nat
    decreases depth, 1nat, step,
{
    match step {
        StepView::Placeable => 1,
        StepView::Reference(reference) => reference_expansion(entries, path, reference, depth),
        StepView::Choice(ways) => ways_expansion(entries, path, ways, depth),
    }
}

/// The number of placeables that steps expand to at most, all together.
pub open spec fn steps_expansion(
    entries: store::Entries,
    path: Seq<references::ReferenceView>,
    steps: Seq<StepView>,
    depth: nat,
) -> nat
    decreases depth, 1nat, steps,
{
    if steps.len() == 0 {
        0
    } else {
        steps_expansion(entries, path, steps.drop_last(), depth) + step_expansion(
            entries,
            path,
            steps.last(),
            depth,
        )
    }
}

/// The number of placeables that any of several ways expands to at most.
pub open spec fn ways_expansion(
    entries: store::Entries,
    path: Seq<references::ReferenceView>,
    ways: Seq<Seq<StepView>>,
    depth: nat,
) -> nat
    decreases depth, 1nat, ways,
{
    if ways.len() == 0 {
        0
    } else {
        let before = ways_expansion(entries, path, ways.drop_last(), depth);
        let last = steps_expansion(entries, path, ways.last(), depth);
        if before < last {
            last
        } else {
            before
        }
    }
}

/// The number of placeables that a pattern expands to at most, where it stands under `root`.
pub open spec fn expansion(
    entries: store::Entries,
    root: references::ReferenceView,
    pattern: syntax::PatternView,
) -> nat {
    steps_expansion(
        entries,
        seq![root],
        elements_steps(pattern.elements),
        PLACEABLE_LIMIT as nat,
    )
}

// Safety

/// Whether the pattern that stands under `root` can be formatted: it and everything that it leads
/// to is sound; terms are called with short numbers, or no plural form is chosen by a variable; and
/// it is plain, or expands to no more placeables than the formatter takes.
pub open spec fn formats_safely(
    entries: store::Entries,
    root: references::ReferenceView,
    pattern: syntax::PatternView,
) -> bool {
    &&& has_throughout(entries, pattern, Quality::Sound)
    &&& {
        ||| has_throughout(entries, pattern, Quality::ShortArguments)
        ||| has_throughout(entries, pattern, Quality::FixedChoices)
    }
    &&& {
        ||| has_throughout(entries, pattern, Quality::Plain)
        ||| expansion(entries, root, pattern) <= PLACEABLE_LIMIT
    }
}

/// Whether a pattern can be formatted: it stands in the store, and can be formatted there.
pub open spec fn can_format(entries: store::Entries, pattern: syntax::PatternView) -> bool {
    exists|root: references::ReferenceView| #[trigger]
        referred(entries, root) == Some(pattern) && formats_safely(entries, root, pattern)
}

// Listing steps

/// A step of formatting.
pub enum Step {
    Placeable,
    Reference(Reference),
    Choice(Vec<Vec<Step>>),
}

/// The view of a step.
pub open spec fn step_view(step: Step) -> StepView
    decreases step,
{
    match step {
        Step::Placeable => StepView::Placeable,
        Step::Reference(reference) => StepView::Reference(reference@),
        Step::Choice(ways) => StepView::Choice(ways_view(ways@)),
    }
}

/// The view of steps.
pub open spec fn steps_view(steps: Seq<Step>) -> Seq<StepView>
    decreases steps,
{
    Seq::new(
        steps.len(),
        |i: int|
            if 0 <= i < steps.len() {
                step_view(steps[i])
            } else {
                arbitrary()
            },
    )
}

/// The view of several ways.
pub open spec fn ways_view(ways: Seq<Vec<Step>>) -> Seq<Seq<StepView>>
    decreases ways,
{
    Seq::new(
        ways.len(),
        |i: int|
            if 0 <= i < ways.len() {
                steps_view(ways[i]@)
            } else {
                arbitrary()
            },
    )
}

/// Adds a step to a list.
fn push_step(steps: &mut Vec<Step>, step: Step)
    ensures
        steps_view(final(steps)@) == steps_view(old(steps)@).push(step_view(step)),
{
    let ghost before = steps_view(steps@);
    let ghost view = step_view(step);
    steps.push(step);
    assert(steps_view(steps@) =~= before.push(view));
}

/// Lists the steps of an expression.
fn list_expression(expression: &ast::Expression<&str>, steps: &mut Vec<Step>)
    ensures
        steps_view(final(steps)@) == steps_view(old(steps)@) + expression_steps(
            syntax::expression_view(*expression),
        ),
    decreases expression,
{
    let ghost before = steps_view(steps@);
    match expression {
        ast::Expression::Inline(inline) => {
            list_inline(inline, steps);
        },
        ast::Expression::Select { selector, variants } => {
            list_inline(selector, steps);
            let ways = list_variants(variants);
            push_step(steps, Step::Choice(ways));
            assert(steps_view(steps@) =~= before + expression_steps(
                syntax::expression_view(*expression),
            ));
        },
    }
}

/// Lists the steps of each variant.
fn list_variants(variants: &Vec<ast::Variant<&str>>) -> (ways: Vec<Vec<Step>>)
    ensures
        ways_view(ways@) == variants_steps(syntax::variants_view(variants@)),
    decreases variants,
{
    let ghost views = syntax::variants_view(variants@);
    let mut ways: Vec<Vec<Step>> = Vec::new();
    let mut i: usize = 0;
    assert(ways_view(ways@) =~= variants_steps(views.take(0)));
    while i < variants.len()
        invariant
            i <= variants.len(),
            views == syntax::variants_view(variants@),
            ways_view(ways@) == variants_steps(views.take(i as int)),
        decreases variants.len() - i,
    {
        let ghost before = ways_view(ways@);
        let steps = list_pattern(&variants[i].value);
        let ghost view = steps_view(steps@);
        ways.push(steps);
        proof {
            assert(views.take(i + 1).drop_last() =~= views.take(i as int));
            assert(ways_view(ways@) =~= before.push(view));
        }
        i = i + 1;
    }
    assert(views.take(i as int) =~= views);
    ways
}

/// Lists the steps of a pattern.
pub fn list_pattern(pattern: &ast::Pattern<&str>) -> (steps: Vec<Step>)
    ensures
        steps_view(steps@) == elements_steps(syntax::pattern_view(*pattern).elements),
    decreases pattern,
{
    let ghost views = syntax::elements_view(pattern.elements@);
    let mut steps: Vec<Step> = Vec::new();
    let mut i: usize = 0;
    assert(steps_view(steps@) =~= elements_steps(views.take(0)));
    while i < pattern.elements.len()
        invariant
            i <= pattern.elements.len(),
            views == syntax::elements_view(pattern.elements@),
            steps_view(steps@) == elements_steps(views.take(i as int)),
        decreases pattern.elements.len() - i,
    {
        assert(views.take(i + 1).drop_last() =~= views.take(i as int));
        if let ast::PatternElement::Placeable { expression } = &pattern.elements[i] {
            push_step(&mut steps, Step::Placeable);
            list_expression(expression, &mut steps);
        }
        i = i + 1;
    }
    assert(views.take(i as int) =~= views);
    steps
}

/// Lists the steps of an inline expression.
fn list_inline(inline: &ast::InlineExpression<&str>, steps: &mut Vec<Step>)
    ensures
        steps_view(final(steps)@) == steps_view(old(steps)@) + inline_steps(
            syntax::inline_view(*inline),
        ),
    decreases inline,
{
    let ghost before = steps_view(steps@);
    match inline {
        ast::InlineExpression::MessageReference { id, attribute } => {
            push_step(steps, Step::Reference(references::make_reference(false, id, attribute)));
        },
        ast::InlineExpression::TermReference { id, attribute, arguments } => {
            push_step(steps, Step::Reference(references::make_reference(true, id, attribute)));
            if let Some(arguments) = arguments {
                list_arguments(arguments, steps);
            }
        },
        ast::InlineExpression::FunctionReference { arguments, .. } => {
            list_arguments(arguments, steps);
        },
        ast::InlineExpression::Placeable { expression } => {
            list_expression(expression, steps);
        },
        _ => {},
    }
    assert(steps_view(steps@) =~= before + inline_steps(syntax::inline_view(*inline)));
}

/// Lists the steps of the arguments of a call.
fn list_arguments(arguments: &ast::CallArguments<&str>, steps: &mut Vec<Step>)
    ensures
        steps_view(final(steps)@) == steps_view(old(steps)@) + arguments_steps(
            syntax::arguments_view(*arguments),
        ),
    decreases arguments,
{
    let ghost before = steps_view(steps@);
    let ghost view = syntax::arguments_view(*arguments);
    let mut i: usize = 0;
    assert(before =~= before + positional_steps(view.positional.take(0)));
    while i < arguments.positional.len()
        invariant
            i <= arguments.positional.len(),
            view == syntax::arguments_view(*arguments),
            steps_view(steps@) == before + positional_steps(view.positional.take(i as int)),
        decreases arguments.positional.len() - i,
    {
        list_inline(&arguments.positional[i], steps);
        proof {
            let upto = view.positional.take(i + 1);
            assert(upto.drop_last() =~= view.positional.take(i as int));
            assert(steps_view(steps@) =~= before + positional_steps(upto));
        }
        i = i + 1;
    }
    assert(view.positional.take(i as int) =~= view.positional);
    let ghost middle = steps_view(steps@);
    let mut j: usize = 0;
    assert(middle =~= middle + named_steps(view.named.take(0)));
    while j < arguments.named.len()
        invariant
            j <= arguments.named.len(),
            view == syntax::arguments_view(*arguments),
            steps_view(steps@) == middle + named_steps(view.named.take(j as int)),
        decreases arguments.named.len() - j,
    {
        list_inline(&arguments.named[j].value, steps);
        proof {
            let upto = view.named.take(j + 1);
            assert(upto.drop_last() =~= view.named.take(j as int));
            assert(steps_view(steps@) =~= middle + named_steps(upto));
        }
        j = j + 1;
    }
    assert(view.named.take(j as int) =~= view.named);
    assert(steps_view(steps@) =~= before + arguments_steps(view));
}

// Outlines

/// The outline of an attribute.
pub struct AttributeOutline {
    pub name: String,
    pub steps: Vec<Step>,
}

/// Whether outlines are those of attributes.
pub open spec fn attributes_fit(
    outlines: Seq<AttributeOutline>,
    attributes: Seq<syntax::AttributeView>,
) -> bool {
    &&& outlines.len() == attributes.len()
    &&& forall|i: int|
        0 <= i < outlines.len() ==> (#[trigger] outlines[i]).name@ == attributes[i].id
            && steps_view(outlines[i].steps@) == elements_steps(attributes[i].value.elements)
}

/// The outlines of attributes.
fn outline_attributes(attributes: &Vec<ast::Attribute<&str>>) -> (outlines: Vec<AttributeOutline>)
    ensures
        attributes_fit(outlines@, syntax::attributes_view(attributes@)),
{
    let ghost views = syntax::attributes_view(attributes@);
    let mut outlines: Vec<AttributeOutline> = Vec::new();
    let mut i: usize = 0;
    while i < attributes.len()
        invariant
            i <= attributes.len(),
            views == syntax::attributes_view(attributes@),
            attributes_fit(outlines@, views.take(i as int)),
        decreases attributes.len() - i,
    {
        let attribute = &attributes[i];
        outlines.push(
            AttributeOutline {
                name: attribute.id.name.to_owned(),
                steps: list_pattern(&attribute.value),
            },
        );
        i = i + 1;
    }
    assert(views.take(i as int) =~= views);
    outlines
}

/// What the safety of a bundle rests on, of one entry: whether it is a term, which qualities it has,
/// which names it mentions, and the steps of its patterns.
pub struct Outline {
    pub term: bool,
    pub sound: bool,
    pub short_arguments: bool,
    pub fixed_choices: bool,
    pub plain: bool,
    pub names: Vec<String>,
    pub value: Option<Vec<Step>>,
    pub attributes: Vec<AttributeOutline>,
}

impl Outline {
    /// Whether the entry has a quality.
    pub open spec fn has(self, quality: Quality) -> bool {
        match quality {
            Quality::Sound => self.sound,
            Quality::ShortArguments => self.short_arguments,
            Quality::FixedChoices => self.fixed_choices,
            Quality::Plain => self.plain,
        }
    }

    /// Whether the entry has a quality.
    fn check(&self, quality: Quality) -> (has: bool)
        ensures
            has == self.has(quality),
    {
        match quality {
            Quality::Sound => self.sound,
            Quality::ShortArguments => self.short_arguments,
            Quality::FixedChoices => self.fixed_choices,
            Quality::Plain => self.plain,
        }
    }

    /// Whether this is the outline of an entry.
    pub open spec fn fits(self, entry: syntax::EntryView) -> bool {
        &&& forall|quality: Quality| #[trigger]
            self.has(quality) == nesting::entry_has(entry, quality)
        &&& text::texts(self.names@) == mentioned(references::entry_references(entry))
        &&& match entry {
            syntax::EntryView::Message(message) => {
                &&& !self.term
                &&& self.value is Some == message.value is Some
                &&& self.value is Some ==> steps_view(self.value->0@) == elements_steps(
                    message.value->0.elements,
                )
                &&& attributes_fit(self.attributes@, message.attributes)
            },
            syntax::EntryView::Term(term) => {
                &&& self.term
                &&& self.value is Some
                &&& steps_view(self.value->0@) == elements_steps(term.value.elements)
                &&& attributes_fit(self.attributes@, term.attributes)
            },
            syntax::EntryView::Other => false,
        }
    }

    /// The outline of a message or a term.
    pub fn of(entry: &ast::Entry<&str>) -> (outline: Outline)
        ensures
            syntax::entry_view(*entry) is Other || outline.fits(syntax::entry_view(*entry)),
    {
        let (term, value, attributes) = match entry {
            ast::Entry::Message(message) => {
                let value = match &message.value {
                    Some(value) => Some(list_pattern(value)),
                    None => None,
                };
                (false, value, outline_attributes(&message.attributes))
            },
            ast::Entry::Term(term) => (
                true,
                Some(list_pattern(&term.value)),
                outline_attributes(&term.attributes),
            ),
            _ => (false, None, Vec::new()),
        };
        Outline {
            term,
            sound: nesting::check_entry(entry, Quality::Sound),
            short_arguments: nesting::check_entry(entry, Quality::ShortArguments),
            fixed_choices: nesting::check_entry(entry, Quality::FixedChoices),
            plain: nesting::check_entry(entry, Quality::Plain),
            names: list_names(&references::list_entry(entry)),
            value,
            attributes,
        }
    }

    /// The steps of the first attribute of a name.
    fn attribute(&self, name: &str, Ghost(attributes): Ghost<Seq<syntax::AttributeView>>) -> (steps:
        Option<&Vec<Step>>)
        requires
            attributes_fit(self.attributes@, attributes),
        ensures
            match steps {
                Some(steps) => {
                    &&& store::attribute_value(attributes, name@) is Some
                    &&& steps_view(steps@) == elements_steps(
                        store::attribute_value(attributes, name@)->0.elements,
                    )
                },
                None => store::attribute_value(attributes, name@) is None,
            },
    {
        let mut i: usize = 0;
        assert(attributes.skip(0) =~= attributes);
        while i < self.attributes.len()
            invariant
                i <= self.attributes.len(),
                attributes_fit(self.attributes@, attributes),
                store::attribute_value(attributes, name@) == store::attribute_value(
                    attributes.skip(i as int),
                    name@,
                ),
            decreases self.attributes.len() - i,
        {
            assert(attributes.skip(i as int).drop_first() =~= attributes.skip(i + 1));
            if text::same_text(self.attributes[i].name.as_str(), name) {
                return Some(&self.attributes[i].steps);
            }
            i = i + 1;
        }
        None
    }
}

/// The names that references name.
fn list_names(list: &Vec<Reference>) -> (names: Vec<String>)
    ensures
        text::texts(names@) == mentioned(references::references_view(list@)),
{
    let ghost all = mentioned(references::references_view(list@));
    let mut names: Vec<String> = Vec::new();
    let mut i: usize = 0;
    assert(text::texts(names@) =~= all.take(0));
    while i < list.len()
        invariant
            i <= list.len(),
            all == mentioned(references::references_view(list@)),
            text::texts(names@) == all.take(i as int),
        decreases list.len() - i,
    {
        let ghost sofar = text::texts(names@);
        names.push(list[i].id.clone());
        assert(text::texts(names@) =~= sofar.push(all[i as int]));
        assert(text::texts(names@) =~= all.take(i + 1));
        i = i + 1;
    }
    assert(all.take(i as int) =~= all);
    names
}

/// Whether outlines are those of the entries of a store.
pub open spec fn outlines_fit(
    outlines: Map<Seq<char>, Outline>,
    entries: store::Entries,
) -> bool {
    &&& outlines.dom() == entries.dom()
    &&& outlines.dom().finite()
    &&& forall|name: Seq<char>| #[trigger]
        outlines.contains_key(name) ==> outlines[name].fits(entries[name])
}

/// Adds the outlines of entries, each in the place of that which stood under its name.
pub(crate) fn add_outlines(
    outlines: &mut StringHashMap<Outline>,
    entries: &Vec<&ast::Entry<&str>>,
    Ghost(stored): Ghost<store::Entries>,
)
    requires
        outlines_fit(old(outlines)@, stored),
    ensures
        outlines_fit(
            final(outlines)@,
            store::with_entries(stored, syntax::entries_view(entries@)),
        ),
{
    let ghost views = syntax::entries_view(entries@);
    let mut i: usize = 0;
    while i < entries.len()
        invariant
            i <= entries.len(),
            views == syntax::entries_view(entries@),
            outlines_fit(outlines@, store::with_entries(stored, views.take(i as int))),
        decreases entries.len() - i,
    {
        let ghost now = store::with_entries(stored, views.take(i as int));
        let outline = Outline::of(entries[i]);
        match entries[i] {
            ast::Entry::Message(message) => {
                outlines.insert(message.id.name.to_owned(), outline);
            },
            ast::Entry::Term(term) => {
                outlines.insert(term.id.name.to_owned(), outline);
            },
            _ => {},
        }
        proof {
            assert(views.take(i + 1).drop_last() =~= views.take(i as int));
            assert(outlines@.dom() =~= store::with_entry(now, views[i as int]).dom());
        }
        i = i + 1;
    }
    assert(views.take(i as int) =~= views);
}

// Following names

/// Whether a name is in every closed set that holds all names of a list.
spec fn is_needed(
    entries: store::Entries,
    list: Seq<Seq<char>>,
    quality: Quality,
    name: Seq<char>,
) -> bool {
    forall|names: Set<Seq<char>>| #[trigger]
        is_closed_set(entries, names, quality) && holds_all(names, list) ==> names.contains(name)
}

/// Adds names to a list.
fn push_names(todo: &mut Vec<String>, names: &Vec<String>)
    ensures
        text::texts(final(todo)@) == text::texts(old(todo)@) + text::texts(names@),
{
    let ghost before = text::texts(todo@);
    let ghost added = text::texts(names@);
    let mut i: usize = 0;
    assert(before + added.take(0) =~= before);
    while i < names.len()
        invariant
            i <= names.len(),
            added == text::texts(names@),
            text::texts(todo@) == before + added.take(i as int),
        decreases names.len() - i,
    {
        let ghost sofar = text::texts(todo@);
        todo.push(names[i].clone());
        assert(text::texts(todo@) =~= sofar.push(added[i as int]));
        assert(text::texts(todo@) =~= before + added.take(i + 1));
        i = i + 1;
    }
    assert(added.take(i as int) =~= added);
}

/// What two lists hold together.
proof fn lemma_concat_contains(left: Seq<Seq<char>>, right: Seq<Seq<char>>, name: Seq<char>)
    ensures
        (left + right).contains(name) == (left.contains(name) || right.contains(name)),
{
    let all = left + right;
    if left.contains(name) {
        assert(all[left.index_of(name)] == name);
    }
    if right.contains(name) {
        assert(all[left.len() + right.index_of(name)] == name);
    }
}

/// Whether everything that names lead to, from mention to mention, has a quality.
fn check_leads_to(
    start: &Vec<String>,
    outlines: &StringHashMap<Outline>,
    quality: Quality,
    Ghost(entries): Ghost<store::Entries>,
) -> (have: bool)
    requires
        outlines_fit(outlines@, entries),
    ensures
        have == leads_to(entries, text::texts(start@), quality),
{
    let ghost map = outlines@;
    let ghost list = text::texts(start@);
    let mut todo: Vec<String> = Vec::new();
    push_names(&mut todo, start);
    let mut seen = StringHashSet::new();
    assert(text::texts(todo@) =~= list);
    assert forall|name: Seq<char>| #[trigger] map.contains_key(name) == entries.contains_key(
        name,
    ) by {
        assert(map.dom().contains(name) == entries.dom().contains(name));
    }
    while todo.len() > 0
        invariant
            map == outlines@,
            list == text::texts(start@),
            outlines_fit(map, entries),
            forall|name: Seq<char>| #[trigger]
                map.contains_key(name) == entries.contains_key(name),
            forall|name: Seq<char>| #[trigger]
                list.contains(name) && map.contains_key(name) ==> seen@.contains(name)
                    || text::texts(todo@).contains(name),
            forall|name: Seq<char>| #[trigger]
                seen@.contains(name) ==> {
                    &&& map.contains_key(name)
                    &&& map[name].has(quality)
                    &&& forall|other: Seq<char>| #[trigger]
                        text::texts(map[name].names@).contains(other) && map.contains_key(other)
                            ==> seen@.contains(other) || text::texts(todo@).contains(other)
                },
            forall|name: Seq<char>| #[trigger]
                text::texts(todo@).contains(name) ==> is_needed(entries, list, quality, name),
        decreases map.dom().difference(seen@).len(), todo.len(),
    {
        let ghost before = text::texts(todo@);
        let ghost seen_before = seen@;
        let name = todo.pop().unwrap();
        let ghost rest = text::texts(todo@);
        proof {
            assert(before =~= rest.push(name@));
            assert forall|other: Seq<char>| #[trigger]
                before.contains(other) == (rest.contains(other) || other == name@) by {
                if rest.contains(other) {
                    assert(before[rest.index_of(other)] == other);
                }
                assert(before[rest.len() as int] == name@);
            }
            assert(before.contains(name@));
            assert forall|other: Seq<char>| #[trigger] rest.contains(other) implies is_needed(
                entries,
                list,
                quality,
                other,
            ) by {
                assert(before.contains(other));
            }
        }
        if !seen.contains(name.as_str()) {
            if let Some(outline) = outlines.get(name.as_str()) {
                assert(map.contains_key(name@) && outline.fits(entries[name@]));
                if !outline.check(quality) {
                    assert forall|names: Set<Seq<char>>|
                        !(#[trigger] is_closed_set(entries, names, quality) && holds_all(
                            names,
                            list,
                        )) by {
                        if is_closed_set(entries, names, quality) && holds_all(names, list) {
                            assert(is_needed(entries, list, quality, name@));
                            assert(names.contains(name@));
                        }
                    }
                    return false;
                }
                push_names(&mut todo, &outline.names);
                proof {
                    let added = text::texts(outline.names@);
                    let after = text::texts(todo@);
                    assert forall|other: Seq<char>| #[trigger]
                        after.contains(other) == (rest.contains(other) || added.contains(
                            other,
                        )) by {
                        lemma_concat_contains(rest, added, other);
                    }
                    assert forall|other: Seq<char>| #[trigger]
                        after.contains(other) implies is_needed(entries, list, quality, other) by {
                        if added.contains(other) {
                            assert forall|names: Set<Seq<char>>| #[trigger]
                                is_closed_set(entries, names, quality) && holds_all(
                                    names,
                                    list,
                                ) implies names.contains(other) by {
                                assert(is_needed(entries, list, quality, name@));
                                assert(names.contains(name@));
                            }
                        }
                    }
                    let left = map.dom().difference(seen_before);
                    assert(map.dom().difference(seen_before.insert(name@)) =~= left.remove(name@));
                    assert(left.contains(name@));
                }
                seen.insert(name);
            }
        }
    }
    proof {
        assert(text::texts(todo@) =~= Seq::empty());
        let names = Set::new(|name: Seq<char>| seen@.contains(name) || !map.contains_key(name));
        assert forall|name: Seq<char>| #[trigger]
            names.contains(name) && entries.contains_key(name) implies {
            &&& nesting::entry_has(entries[name], quality)
            &&& holds_all(names, mentioned(references::entry_references(entries[name])))
        } by {
            assert(map.contains_key(name) && seen@.contains(name));
            assert(map[name].fits(entries[name]));
        }
        assert(is_closed_set(entries, names, quality));
        assert(holds_all(names, list));
    }
    true
}

// Following references

/// The view of a path of references.
spec fn path_view(path: Seq<&Reference>) -> Seq<references::ReferenceView> {
    path.map_values(|r: &Reference| r@)
}

/// What is left of a budget once a number of placeables is taken off it.
spec fn is_left(left: Option<usize>, budget: usize, spent: nat) -> bool {
    match left {
        Some(left) => left == budget - spent,
        None => spent > budget,
    }
}

/// Whether two references are the same.
fn same_reference(left: &Reference, right: &Reference) -> (same: bool)
    ensures
        same == (left@ == right@),
{
    if left.term != right.term || !text::same_text(left.id.as_str(), right.id.as_str()) {
        return false;
    }
    match (&left.attribute, &right.attribute) {
        (Some(left), Some(right)) => text::same_text(left.as_str(), right.as_str()),
        (None, None) => true,
        _ => false,
    }
}

/// Whether a reference is on a path.
fn is_on_path(path: &Vec<&Reference>, reference: &Reference) -> (found: bool)
    ensures
        found == path_view(path@).contains(reference@),
{
    let ghost views = path_view(path@);
    let mut i: usize = 0;
    while i < path.len()
        invariant
            i <= path.len(),
            views == path_view(path@),
            forall|k: int| 0 <= k < i ==> #[trigger] views[k] != reference@,
        decreases path.len() - i,
    {
        if same_reference(path[i], reference) {
            assert(views[i as int] == reference@);
            return true;
        }
        i = i + 1;
    }
    false
}

/// Takes what a reference expands to off a budget.
fn spend_reference<'a>(
    reference: &'a Reference,
    outlines: &'a StringHashMap<Outline>,
    path: &mut Vec<&'a Reference>,
    depth: usize,
    budget: usize,
    Ghost(entries): Ghost<store::Entries>,
) -> (left: Option<usize>)
    requires
        outlines_fit(outlines@, entries),
    ensures
        final(path)@ == old(path)@,
        is_left(
            left,
            budget,
            reference_expansion(entries, path_view(old(path)@), reference@, depth as nat),
        ),
    decreases depth, 0nat, reference,
{
    let ghost before = path@;
    if is_on_path(path, reference) {
        return Some(budget);
    }
    assert(outlines@.dom().contains(reference.id@) == entries.dom().contains(reference.id@));
    let outline = match outlines.get(reference.id.as_str()) {
        Some(outline) => outline,
        None => {
            return Some(budget);
        },
    };
    assert(outlines@.contains_key(reference.id@));
    assert(outline.fits(entries[reference.id@]));
    if outline.term != reference.term {
        return Some(budget);
    }
    let ghost attributes = match entries[reference.id@] {
        syntax::EntryView::Message(message) => message.attributes,
        syntax::EntryView::Term(term) => term.attributes,
        syntax::EntryView::Other => Seq::empty(),
    };
    let steps = match &reference.attribute {
        Some(name) => outline.attribute(name.as_str(), Ghost(attributes)),
        None => match &outline.value {
            Some(value) => Some(value),
            None => None,
        },
    };
    let steps = match steps {
        Some(steps) => steps,
        None => {
            return Some(budget);
        },
    };
    if depth == 0 {
        return if budget == 0 {
            None
        } else {
            Some(budget - 1)
        };
    }
    path.push(reference);
    assert(path_view(path@) =~= path_view(before).push(reference@));
    let left = spend(steps, outlines, path, depth - 1, budget, Ghost(entries));
    path.pop();
    assert(path@ =~= before);
    left
}

/// Takes what a step expands to off a budget.
fn spend_step<'a>(
    step: &'a Step,
    outlines: &'a StringHashMap<Outline>,
    path: &mut Vec<&'a Reference>,
    depth: usize,
    budget: usize,
    Ghost(entries): Ghost<store::Entries>,
) -> (left: Option<usize>)
    requires
        outlines_fit(outlines@, entries),
    ensures
        final(path)@ == old(path)@,
        is_left(
            left,
            budget,
            step_expansion(entries, path_view(old(path)@), step_view(*step), depth as nat),
        ),
    decreases depth, 1nat, step,
{
    match step {
        Step::Placeable => if budget == 0 {
            None
        } else {
            Some(budget - 1)
        },
        Step::Reference(reference) => spend_reference(
            reference,
            outlines,
            path,
            depth,
            budget,
            Ghost(entries),
        ),
        Step::Choice(ways) => spend_widest(ways, outlines, path, depth, budget, Ghost(entries)),
    }
}

/// Takes what the widest of several ways expands to off a budget.
fn spend_widest<'a>(
    ways: &'a Vec<Vec<Step>>,
    outlines: &'a StringHashMap<Outline>,
    path: &mut Vec<&'a Reference>,
    depth: usize,
    budget: usize,
    Ghost(entries): Ghost<store::Entries>,
) -> (left: Option<usize>)
    requires
        outlines_fit(outlines@, entries),
    ensures
        final(path)@ == old(path)@,
        is_left(
            left,
            budget,
            ways_expansion(entries, path_view(old(path)@), ways_view(ways@), depth as nat),
        ),
    decreases depth, 1nat, ways,
{
    let ghost views = ways_view(ways@);
    let ghost before = path@;
    let mut left: usize = budget;
    let mut i: usize = 0;
    while i < ways.len()
        invariant
            i <= ways.len(),
            outlines_fit(outlines@, entries),
            views == ways_view(ways@),
            before == old(path)@,
            path@ == before,
            left <= budget,
            left == budget - ways_expansion(
                entries,
                path_view(before),
                views.take(i as int),
                depth as nat,
            ),
        decreases ways.len() - i,
    {
        assert(views.take(i + 1).drop_last() =~= views.take(i as int));
        match spend(&ways[i], outlines, path, depth, budget, Ghost(entries)) {
            Some(rest) => {
                if rest < left {
                    left = rest;
                }
            },
            None => {
                proof {
                    lemma_ways_grow(entries, path_view(before), views, i + 1, depth as nat);
                }
                return None;
            },
        }
        i = i + 1;
    }
    assert(views.take(i as int) =~= views);
    Some(left)
}

/// Takes what steps expand to off a budget.
fn spend<'a>(
    steps: &'a Vec<Step>,
    outlines: &'a StringHashMap<Outline>,
    path: &mut Vec<&'a Reference>,
    depth: usize,
    budget: usize,
    Ghost(entries): Ghost<store::Entries>,
) -> (left: Option<usize>)
    requires
        outlines_fit(outlines@, entries),
    ensures
        final(path)@ == old(path)@,
        is_left(
            left,
            budget,
            steps_expansion(entries, path_view(old(path)@), steps_view(steps@), depth as nat),
        ),
    decreases depth, 1nat, steps,
{
    let ghost views = steps_view(steps@);
    let ghost before = path@;
    let mut left: usize = budget;
    let mut i: usize = 0;
    while i < steps.len()
        invariant
            i <= steps.len(),
            outlines_fit(outlines@, entries),
            views == steps_view(steps@),
            before == old(path)@,
            path@ == before,
            left <= budget,
            left == budget - steps_expansion(
                entries,
                path_view(before),
                views.take(i as int),
                depth as nat,
            ),
        decreases steps.len() - i,
    {
        assert(views.take(i + 1).drop_last() =~= views.take(i as int));
        match spend_step(&steps[i], outlines, path, depth, left, Ghost(entries)) {
            Some(rest) => {
                left = rest;
            },
            None => {
                proof {
                    lemma_steps_grow(entries, path_view(before), views, i + 1, depth as nat);
                }
                return None;
            },
        }
        i = i + 1;
    }
    assert(views.take(i as int) =~= views);
    Some(left)
}

/// More steps expand to no fewer placeables.
proof fn lemma_steps_grow(
    entries: store::Entries,
    path: Seq<references::ReferenceView>,
    steps: Seq<StepView>,
    i: int,
    depth: nat,
)
    requires
        0 <= i <= steps.len(),
    ensures
        steps_expansion(entries, path, steps.take(i), depth) <= steps_expansion(
            entries,
            path,
            steps,
            depth,
        ),
    decreases steps.len() - i,
{
    if i < steps.len() {
        assert(steps.take(i + 1).drop_last() =~= steps.take(i));
        lemma_steps_grow(entries, path, steps, i + 1, depth);
    } else {
        assert(steps.take(i) =~= steps);
    }
}

/// More ways expand to no fewer placeables.
proof fn lemma_ways_grow(
    entries: store::Entries,
    path: Seq<references::ReferenceView>,
    ways: Seq<Seq<StepView>>,
    i: int,
    depth: nat,
)
    requires
        0 <= i <= ways.len(),
    ensures
        ways_expansion(entries, path, ways.take(i), depth) <= ways_expansion(
            entries,
            path,
            ways,
            depth,
        ),
    decreases ways.len() - i,
{
    if i < ways.len() {
        assert(ways.take(i + 1).drop_last() =~= ways.take(i));
        lemma_ways_grow(entries, path, ways, i + 1, depth);
    } else {
        assert(ways.take(i) =~= ways);
    }
}

/// Whether a pattern and everything that it leads to has a quality.
fn check_throughout(
    pattern: &ast::Pattern<&str>,
    outlines: &StringHashMap<Outline>,
    quality: Quality,
    Ghost(entries): Ghost<store::Entries>,
) -> (has: bool)
    requires
        outlines_fit(outlines@, entries),
    ensures
        has == has_throughout(entries, syntax::pattern_view(*pattern), quality),
{
    let mut list: Vec<Reference> = Vec::new();
    let ghost none = references::references_view(list@);
    references::list_pattern(pattern, &mut list);
    proof {
        let found = references::pattern_references(Some(syntax::pattern_view(*pattern)));
        assert(none + found =~= found);
    }
    nesting::check_pattern(pattern, quality) && check_leads_to(
        &list_names(&list),
        outlines,
        quality,
        Ghost(entries),
    )
}

/// Whether the pattern that stands under `root` can be formatted.
pub(crate) fn check_formats_safely(
    pattern: &ast::Pattern<&str>,
    root: &Reference,
    outlines: &StringHashMap<Outline>,
    Ghost(entries): Ghost<store::Entries>,
) -> (safe: bool)
    requires
        outlines_fit(outlines@, entries),
    ensures
        safe == formats_safely(entries, root@, syntax::pattern_view(*pattern)),
{
    if !check_throughout(pattern, outlines, Quality::Sound, Ghost(entries)) {
        return false;
    }
    if !check_throughout(pattern, outlines, Quality::ShortArguments, Ghost(entries))
        && !check_throughout(pattern, outlines, Quality::FixedChoices, Ghost(entries)) {
        return false;
    }
    if check_throughout(pattern, outlines, Quality::Plain, Ghost(entries)) {
        return true;
    }
    let steps = list_pattern(pattern);
    let mut path: Vec<&Reference> = Vec::new();
    path.push(root);
    assert(path_view(path@) =~= seq![root@]);
    spend(
        &steps,
        outlines,
        &mut path,
        PLACEABLE_LIMIT,
        PLACEABLE_LIMIT,
        Ghost(entries),
    ).is_some()
}

} // verus!
