//! Patterns on which the formatter of `fluent_bundle` may panic.
//!
//! A string literal is unescaped when it is formatted, and a backslash that starts no escape can
//! make the formatter cut a character in two. The parser makes no such literals.
//!
//! A number literal with many digits behind the point can overflow when a plural form is chosen by
//! it: where a select expression has it for its selector, or has a variable for its selector that a
//! term is called with, and a key of the select expression is the name of a plural form.
//!
//! When a pattern expands to too many placeables, the formatter gives up and writes each placeable
//! that it was inside of in an abridged form. For a literal and for a placeable that directly wraps
//! another expression there is no such form, and the formatter panics. It can be inside of such a
//! placeable only where what is wrapped, or a variant of a select expression on a literal, expands
//! further.

use crate::lookup;
use crate::syntax;
use crate::text;
use fluent_syntax::ast;
use vstd::prelude::*;
use vstd::string::StrSliceExecFns;

verus! {

/// What can be said of a pattern, of all that it consists of.
#[derive(Clone, Copy, Debug, PartialEq, Eq, Structural)]
pub enum Quality {
    /// Literals are unescaped without harm, and plural forms are chosen by short numbers.
    Sound,
    /// Terms are called with short numbers.
    ShortArguments,
    /// No plural form is chosen by a variable.
    FixedChoices,
    /// The pattern can be formatted whatever it expands to.
    Plain,
}

// Literals

/// The number of digits behind the point up to which a plural form may be chosen by a number.
pub const FRACTION_LENGTH: usize = 19;

/// Whether a character is a hexadecimal digit.
pub open spec fn is_hex_digit(c: char) -> bool {
    '0' <= c <= '9' || 'a' <= c <= 'f' || 'A' <= c <= 'F'
}

/// The length of an escape, by the character behind the backslash, or zero where that starts none.
pub open spec fn escape_length(letter: char) -> int {
    if letter == '\\' || letter == '"' || letter == '{' {
        2
    } else if letter == 'u' {
        6
    } else if letter == 'U' {
        8
    } else {
        0
    }
}

/// Whether a text starts with a whole escape.
pub open spec fn starts_with_escape(text: Seq<char>) -> bool {
    &&& text.len() > 1
    &&& text[0] == '\\'
    &&& 0 < escape_length(text[1]) <= text.len()
    &&& forall|i: int| 2 <= i < escape_length(text[1]) ==> is_hex_digit(#[trigger] text[i])
}

/// Whether every backslash of a text is part of a whole escape.
pub open spec fn escapes_are_whole(text: Seq<char>) -> bool
    decreases text.len(),
{
    if text.len() == 0 {
        true
    } else if text[0] != '\\' {
        escapes_are_whole(text.skip(1))
    } else {
        starts_with_escape(text) && escapes_are_whole(text.skip(escape_length(text[1])))
    }
}

/// The number of digits behind the point of a number.
pub open spec fn fraction_length(number: Seq<char>) -> int {
    let stop = lookup::first_stop(number);
    if stop < number.len() {
        number.len() - stop - 1
    } else {
        0
    }
}

/// Whether the numbers that an inline expression consists of have few digits behind the point.
pub open spec fn has_short_numbers(inline: syntax::InlineView) -> bool
    decreases inline,
{
    match inline {
        syntax::InlineView::Number(number) => fraction_length(number) <= FRACTION_LENGTH,
        syntax::InlineView::Placeable(wrapped) => match *wrapped {
            syntax::ExpressionView::Inline(inline) => has_short_numbers(inline),
            syntax::ExpressionView::Select { .. } => true,
        },
        _ => true,
    }
}

/// Whether a name is that of a plural form.
pub open spec fn is_plural_form(name: Seq<char>) -> bool {
    ||| name == "zero"@
    ||| name == "one"@
    ||| name == "two"@
    ||| name == "few"@
    ||| name == "many"@
    ||| name == "other"@
}

/// Whether the key of a variant is the name of a plural form.
pub open spec fn is_plural_key(key: syntax::VariantKeyView) -> bool {
    key matches syntax::VariantKeyView::Identifier(name) && is_plural_form(name)
}

/// Whether a plural form is chosen among variants.
pub open spec fn chooses_plural(variants: Seq<syntax::VariantView>) -> bool {
    exists|i: int| 0 <= i < variants.len() && is_plural_key((#[trigger] variants[i]).key)
}

// Expansion

/// Whether an inline expression expands no further: a literal or a variable, in placeables or not.
pub open spec fn inline_is_inert(inline: syntax::InlineView) -> bool
    decreases inline,
{
    match inline {
        syntax::InlineView::Text(_) => true,
        syntax::InlineView::Number(_) => true,
        syntax::InlineView::Variable(_) => true,
        syntax::InlineView::Placeable(wrapped) => is_inert(*wrapped),
        _ => false,
    }
}

/// Whether an expression expands no further. A select expression does not where it selects, by
/// what expands no further itself, among variants that are mere text.
pub open spec fn is_inert(expression: syntax::ExpressionView) -> bool
    decreases expression,
{
    match expression {
        syntax::ExpressionView::Inline(inline) => inline_is_inert(inline),
        syntax::ExpressionView::Select { selector, variants } => {
            &&& inline_is_inert(selector)
            &&& forall|i: int| 0 <= i < variants.len() ==> is_text(#[trigger] variants[i].value)
        },
    }
}

/// Whether a pattern is mere text.
pub open spec fn is_text(pattern: syntax::PatternView) -> bool {
    forall|i: int| 0 <= i < pattern.elements.len() ==> #[trigger] pattern.elements[i] is Text
}

/// Whether an expression has an abridged form.
pub open spec fn has_short_form(inline: syntax::InlineView) -> bool {
    match inline {
        syntax::InlineView::Text(_) => false,
        syntax::InlineView::Number(_) => false,
        syntax::InlineView::Placeable(_) => false,
        _ => true,
    }
}

// Qualities

/// Whether an expression has a quality, what it consists of left aside.
pub open spec fn expression_suits(expression: syntax::ExpressionView, quality: Quality) -> bool {
    match quality {
        Quality::Sound => match expression {
            syntax::ExpressionView::Inline(_) => true,
            syntax::ExpressionView::Select { selector, variants } => chooses_plural(variants)
                ==> has_short_numbers(selector),
        },
        Quality::ShortArguments => true,
        Quality::FixedChoices => match expression {
            syntax::ExpressionView::Inline(_) => true,
            syntax::ExpressionView::Select { selector, variants } => selector is Variable
                ==> !chooses_plural(variants),
        },
        Quality::Plain => match expression {
            syntax::ExpressionView::Inline(inline) => inline matches syntax::InlineView::Placeable(
                wrapped,
            ) ==> is_inert(*wrapped),
            syntax::ExpressionView::Select { selector, .. } => has_short_form(selector) || is_inert(
                expression,
            ),
        },
    }
}

/// Whether an inline expression has a quality, what it consists of left aside.
pub open spec fn inline_suits(inline: syntax::InlineView, quality: Quality) -> bool {
    match quality {
        Quality::Sound => inline matches syntax::InlineView::Text(text) ==> escapes_are_whole(text),
        Quality::ShortArguments => match inline {
            syntax::InlineView::Term { call, .. } => call matches Some(arguments)
                ==> has_short_named(arguments.named),
            _ => true,
        },
        Quality::FixedChoices => true,
        Quality::Plain => true,
    }
}

/// Whether the numbers among named arguments have few digits behind the point.
pub open spec fn has_short_named(named: Seq<syntax::NamedView>) -> bool {
    forall|i: int| 0 <= i < named.len() ==> has_short_numbers((#[trigger] named[i]).value)
}

/// Whether an expression has a quality.
pub open spec fn expression_has(expression: syntax::ExpressionView, quality: Quality) -> bool
    decreases expression,
{
    &&& expression_suits(expression, quality)
    &&& match expression {
        syntax::ExpressionView::Inline(inline) => inline_has(inline, quality),
        syntax::ExpressionView::Select { selector, variants } => inline_has(selector, quality)
            && variants_have(variants, quality),
    }
}

/// Whether variants have a quality.
pub open spec fn variants_have(variants: Seq<syntax::VariantView>, quality: Quality) -> bool
    decreases variants,
{
    forall|i: int|
        0 <= i < variants.len() ==> elements_have(#[trigger] variants[i].value.elements, quality)
}

/// Whether the elements of a pattern have a quality.
pub open spec fn elements_have(elements: Seq<syntax::ElementView>, quality: Quality) -> bool
    decreases elements,
{
    forall|i: int| 0 <= i < elements.len() ==> element_has(#[trigger] elements[i], quality)
}

/// Whether an element of a pattern has a quality.
pub open spec fn element_has(element: syntax::ElementView, quality: Quality) -> bool
    decreases element,
{
    match element {
        syntax::ElementView::Text(_) => true,
        syntax::ElementView::Placeable(expression) => expression_has(expression, quality),
    }
}

/// Whether an inline expression has a quality.
pub open spec fn inline_has(inline: syntax::InlineView, quality: Quality) -> bool
    decreases inline,
{
    &&& inline_suits(inline, quality)
    &&& match inline {
        syntax::InlineView::Function { arguments, .. } => arguments_have(arguments, quality),
        syntax::InlineView::Term { call, .. } => match call {
            Some(arguments) => arguments_have(arguments, quality),
            None => true,
        },
        syntax::InlineView::Placeable(wrapped) => expression_has(*wrapped, quality),
        _ => true,
    }
}

/// Whether the arguments of a call have a quality.
pub open spec fn arguments_have(arguments: syntax::ArgumentsView, quality: Quality) -> bool
    decreases arguments,
{
    &&& forall|i: int|
        0 <= i < arguments.positional.len() ==> inline_has(
            #[trigger] arguments.positional[i],
            quality,
        )
    &&& forall|i: int|
        0 <= i < arguments.named.len() ==> inline_has(
            (#[trigger] arguments.named[i]).value,
            quality,
        )
}

/// Whether a pattern has a quality.
pub open spec fn pattern_has(pattern: syntax::PatternView, quality: Quality) -> bool {
    elements_have(pattern.elements, quality)
}

/// Whether attributes have a quality.
pub open spec fn attributes_have(
    attributes: Seq<syntax::AttributeView>,
    quality: Quality,
) -> bool {
    forall|i: int|
        0 <= i < attributes.len() ==> pattern_has((#[trigger] attributes[i]).value, quality)
}

/// Whether all patterns of an entry have a quality.
pub open spec fn entry_has(entry: syntax::EntryView, quality: Quality) -> bool {
    match entry {
        syntax::EntryView::Message(message) => {
            &&& message.value is Some ==> pattern_has(message.value->0, quality)
            &&& attributes_have(message.attributes, quality)
        },
        syntax::EntryView::Term(term) => {
            &&& pattern_has(term.value, quality)
            &&& attributes_have(term.attributes, quality)
        },
        syntax::EntryView::Other => true,
    }
}

// Checking literals

/// The length of the escape that starts at an index, or zero where none does.
fn escape_at(text: &str, length: usize, i: usize) -> (size: usize)
    requires
        i < length == text@.len(),
        text@[i as int] == '\\',
    ensures
        size > 0 <==> starts_with_escape(text@.skip(i as int)),
        size > 0 ==> size == escape_length(text@[i + 1]) && i + size <= length,
{
    let ghost rest = text@.skip(i as int);
    if length - i < 2 {
        return 0;
    }
    let letter = text.get_char(i + 1);
    assert(rest[1] == letter);
    let size: usize = if letter == '\\' || letter == '"' || letter == '{' {
        2
    } else if letter == 'u' {
        6
    } else if letter == 'U' {
        8
    } else {
        0
    };
    if size > length - i {
        return 0;
    }
    let mut k: usize = 2;
    while k < size
        invariant
            size <= 8,
            2 <= k,
            size == 0 || k <= size,
            i + size <= length == text@.len(),
            rest == text@.skip(i as int),
            size == escape_length(rest[1]),
            forall|j: int| 2 <= j < k && j < size ==> is_hex_digit(#[trigger] rest[j]),
        decreases size - k,
    {
        let c = text.get_char(i + k);
        assert(rest[k as int] == c);
        let hex = ('0' <= c && c <= '9') || ('a' <= c && c <= 'f') || ('A' <= c && c <= 'F');
        if !hex {
            assert(!is_hex_digit(rest[k as int]));
            return 0;
        }
        k = k + 1;
    }
    size
}

/// Whether every backslash of a text is part of a whole escape.
pub fn check_escapes(text: &str) -> (whole: bool)
    ensures
        whole == escapes_are_whole(text@),
{
    let length: usize = text.unicode_len();
    let mut i: usize = 0;
    assert(text@.skip(0) =~= text@);
    while i < length
        invariant
            i <= length == text@.len(),
            escapes_are_whole(text@) == escapes_are_whole(text@.skip(i as int)),
        decreases length - i,
    {
        let ghost rest = text@.skip(i as int);
        assert(rest[0] == text@[i as int]);
        if text.get_char(i) == '\\' {
            let size = escape_at(text, length, i);
            if size == 0 {
                return false;
            }
            assert(rest.skip(size as int) =~= text@.skip(i + size));
            i = i + size;
        } else {
            assert(rest.skip(1) =~= text@.skip(i + 1));
            i = i + 1;
        }
    }
    true
}

/// Whether a number has few digits behind the point.
pub fn check_fraction(number: &str) -> (short: bool)
    ensures
        short == (fraction_length(number@) <= FRACTION_LENGTH),
{
    proof {
        lookup::lemma_stop_range(number@);
    }
    match lookup::split(number).1 {
        Some(fraction) => fraction.unicode_len() <= FRACTION_LENGTH,
        None => true,
    }
}

/// Whether the numbers that an inline expression consists of have few digits behind the point.
fn check_short_numbers(inline: &ast::InlineExpression<&str>) -> (short: bool)
    ensures
        short == has_short_numbers(syntax::inline_view(*inline)),
    decreases inline,
{
    match inline {
        ast::InlineExpression::NumberLiteral { value } => check_fraction(value),
        ast::InlineExpression::Placeable { expression } => check_wrapped_numbers(expression),
        _ => true,
    }
}

/// Whether the numbers that a wrapped expression consists of have few digits behind the point.
fn check_wrapped_numbers(wrapped: &ast::Expression<&str>) -> (short: bool)
    ensures
        short == match syntax::expression_view(*wrapped) {
            syntax::ExpressionView::Inline(inline) => has_short_numbers(inline),
            syntax::ExpressionView::Select { .. } => true,
        },
    decreases wrapped,
{
    match wrapped {
        ast::Expression::Inline(inline) => check_short_numbers(inline),
        ast::Expression::Select { .. } => true,
    }
}

/// Whether the numbers among named arguments have few digits behind the point.
fn check_short_named(named: &Vec<ast::NamedArgument<&str>>) -> (short: bool)
    ensures
        short == has_short_named(syntax::named_view(named@)),
{
    let ghost views = syntax::named_view(named@);
    let mut i: usize = 0;
    while i < named.len()
        invariant
            i <= named.len(),
            views == syntax::named_view(named@),
            forall|k: int| 0 <= k < i ==> has_short_numbers((#[trigger] views[k]).value),
        decreases named.len() - i,
    {
        if !check_short_numbers(&named[i].value) {
            assert(!has_short_numbers(views[i as int].value));
            return false;
        }
        i = i + 1;
    }
    true
}

/// Whether a name is that of a plural form.
fn check_plural_form(name: &str) -> (plural: bool)
    ensures
        plural == is_plural_form(name@),
{
    text::same_text(name, "zero") || text::same_text(name, "one") || text::same_text(name, "two")
        || text::same_text(name, "few") || text::same_text(name, "many") || text::same_text(
        name,
        "other",
    )
}

/// Whether a plural form is chosen among variants.
fn check_chooses_plural(variants: &Vec<ast::Variant<&str>>) -> (plural: bool)
    ensures
        plural == chooses_plural(syntax::variants_view(variants@)),
{
    let ghost views = syntax::variants_view(variants@);
    let mut i: usize = 0;
    while i < variants.len()
        invariant
            i <= variants.len(),
            views == syntax::variants_view(variants@),
            forall|k: int| 0 <= k < i ==> !is_plural_key((#[trigger] views[k]).key),
        decreases variants.len() - i,
    {
        assert(views[i as int].key == syntax::variant_key_view(variants@[i as int].key));
        if let ast::VariantKey::Identifier { name } = &variants[i].key {
            if check_plural_form(name) {
                assert(is_plural_key(views[i as int].key));
                return true;
            }
        }
        i = i + 1;
    }
    false
}

// Checking expansion

/// Whether an inline expression expands no further.
fn check_inert_inline(inline: &ast::InlineExpression<&str>) -> (inert: bool)
    ensures
        inert == inline_is_inert(syntax::inline_view(*inline)),
    decreases inline,
{
    match inline {
        ast::InlineExpression::StringLiteral { .. } => true,
        ast::InlineExpression::NumberLiteral { .. } => true,
        ast::InlineExpression::VariableReference { .. } => true,
        ast::InlineExpression::Placeable { expression } => check_inert(expression),
        _ => false,
    }
}

/// Whether a pattern is mere text.
fn check_text(pattern: &ast::Pattern<&str>) -> (text: bool)
    ensures
        text == is_text(syntax::pattern_view(*pattern)),
{
    let ghost views = syntax::elements_view(pattern.elements@);
    let mut i: usize = 0;
    while i < pattern.elements.len()
        invariant
            i <= pattern.elements.len(),
            views == syntax::elements_view(pattern.elements@),
            forall|k: int| 0 <= k < i ==> #[trigger] views[k] is Text,
        decreases pattern.elements.len() - i,
    {
        if let ast::PatternElement::Placeable { .. } = &pattern.elements[i] {
            assert(!(views[i as int] is Text));
            return false;
        }
        assert(views[i as int] is Text);
        i = i + 1;
    }
    true
}

/// Whether all variants are mere text.
fn check_text_variants(variants: &Vec<ast::Variant<&str>>) -> (text: bool)
    ensures
        text == (forall|i: int|
            0 <= i < variants@.len() ==> is_text(
                #[trigger] syntax::variants_view(variants@)[i].value,
            )),
{
    let ghost views = syntax::variants_view(variants@);
    let mut i: usize = 0;
    while i < variants.len()
        invariant
            i <= variants.len(),
            views == syntax::variants_view(variants@),
            forall|k: int| 0 <= k < i ==> is_text(#[trigger] views[k].value),
        decreases variants.len() - i,
    {
        if !check_text(&variants[i].value) {
            assert(!is_text(views[i as int].value));
            return false;
        }
        i = i + 1;
    }
    true
}

/// Whether an expression expands no further.
fn check_inert(expression: &ast::Expression<&str>) -> (inert: bool)
    ensures
        inert == is_inert(syntax::expression_view(*expression)),
    decreases expression,
{
    match expression {
        ast::Expression::Inline(inline) => check_inert_inline(inline),
        ast::Expression::Select { selector, variants } => check_inert_inline(selector)
            && check_text_variants(variants),
    }
}

/// Whether an expression has an abridged form.
fn check_short_form(inline: &ast::InlineExpression<&str>) -> (short: bool)
    ensures
        short == has_short_form(syntax::inline_view(*inline)),
{
    match inline {
        ast::InlineExpression::StringLiteral { .. } => false,
        ast::InlineExpression::NumberLiteral { .. } => false,
        ast::InlineExpression::Placeable { .. } => false,
        _ => true,
    }
}

// Checking qualities

/// Whether an expression has a quality, what it consists of left aside.
fn check_expression_suits(expression: &ast::Expression<&str>, quality: Quality) -> (suits: bool)
    ensures
        suits == expression_suits(syntax::expression_view(*expression), quality),
{
    match quality {
        Quality::Sound => match expression {
            ast::Expression::Inline(_) => true,
            ast::Expression::Select { selector, variants } => !check_chooses_plural(variants)
                || check_short_numbers(selector),
        },
        Quality::ShortArguments => true,
        Quality::FixedChoices => match expression {
            ast::Expression::Inline(_) => true,
            ast::Expression::Select { selector, variants } => match selector {
                ast::InlineExpression::VariableReference { .. } => !check_chooses_plural(variants),
                _ => true,
            },
        },
        Quality::Plain => match expression {
            ast::Expression::Inline(inline) => match inline {
                ast::InlineExpression::Placeable { expression } => check_inert(expression),
                _ => true,
            },
            ast::Expression::Select { selector, .. } => check_short_form(selector) || check_inert(
                expression,
            ),
        },
    }
}

/// Whether an inline expression has a quality, what it consists of left aside.
fn check_inline_suits(inline: &ast::InlineExpression<&str>, quality: Quality) -> (suits: bool)
    ensures
        suits == inline_suits(syntax::inline_view(*inline), quality),
{
    match quality {
        Quality::Sound => match inline {
            ast::InlineExpression::StringLiteral { value } => check_escapes(value),
            _ => true,
        },
        Quality::ShortArguments => match inline {
            ast::InlineExpression::TermReference { arguments, .. } => match arguments {
                Some(arguments) => check_short_named(&arguments.named),
                None => true,
            },
            _ => true,
        },
        Quality::FixedChoices => true,
        Quality::Plain => true,
    }
}

/// Whether an expression has a quality.
fn check_expression(expression: &ast::Expression<&str>, quality: Quality) -> (has: bool)
    ensures
        has == expression_has(syntax::expression_view(*expression), quality),
    decreases expression,
{
    check_expression_suits(expression, quality) && match expression {
        ast::Expression::Inline(inline) => check_inline(inline, quality),
        ast::Expression::Select { selector, variants } => check_inline(selector, quality)
            && check_variants(variants, quality),
    }
}

/// Whether variants have a quality.
fn check_variants(variants: &Vec<ast::Variant<&str>>, quality: Quality) -> (have: bool)
    ensures
        have == variants_have(syntax::variants_view(variants@), quality),
    decreases variants,
{
    let ghost views = syntax::variants_view(variants@);
    let mut i: usize = 0;
    while i < variants.len()
        invariant
            i <= variants.len(),
            views == syntax::variants_view(variants@),
            forall|k: int| 0 <= k < i ==> elements_have(#[trigger] views[k].value.elements, quality),
        decreases variants.len() - i,
    {
        if !check_pattern(&variants[i].value, quality) {
            assert(!elements_have(views[i as int].value.elements, quality));
            return false;
        }
        i = i + 1;
    }
    true
}

/// Whether a pattern has a quality.
pub fn check_pattern(pattern: &ast::Pattern<&str>, quality: Quality) -> (has: bool)
    ensures
        has == pattern_has(syntax::pattern_view(*pattern), quality),
    decreases pattern,
{
    let ghost views = syntax::elements_view(pattern.elements@);
    let mut i: usize = 0;
    while i < pattern.elements.len()
        invariant
            i <= pattern.elements.len(),
            views == syntax::elements_view(pattern.elements@),
            forall|k: int| 0 <= k < i ==> element_has(#[trigger] views[k], quality),
        decreases pattern.elements.len() - i,
    {
        if let ast::PatternElement::Placeable { expression } = &pattern.elements[i] {
            if !check_expression(expression, quality) {
                assert(!element_has(views[i as int], quality));
                return false;
            }
        }
        assert(element_has(views[i as int], quality));
        i = i + 1;
    }
    true
}

/// Whether an inline expression has a quality.
fn check_inline(inline: &ast::InlineExpression<&str>, quality: Quality) -> (has: bool)
    ensures
        has == inline_has(syntax::inline_view(*inline), quality),
    decreases inline,
{
    check_inline_suits(inline, quality) && match inline {
        ast::InlineExpression::FunctionReference { arguments, .. } => check_arguments(
            arguments,
            quality,
        ),
        ast::InlineExpression::TermReference { arguments, .. } => match arguments {
            Some(arguments) => check_arguments(arguments, quality),
            None => true,
        },
        ast::InlineExpression::Placeable { expression } => check_expression(expression, quality),
        _ => true,
    }
}

/// Whether the arguments of a call have a quality.
fn check_arguments(arguments: &ast::CallArguments<&str>, quality: Quality) -> (have: bool)
    ensures
        have == arguments_have(syntax::arguments_view(*arguments), quality),
    decreases arguments,
{
    let ghost view = syntax::arguments_view(*arguments);
    let mut i: usize = 0;
    while i < arguments.positional.len()
        invariant
            i <= arguments.positional.len(),
            view == syntax::arguments_view(*arguments),
            forall|k: int| 0 <= k < i ==> inline_has(#[trigger] view.positional[k], quality),
        decreases arguments.positional.len() - i,
    {
        if !check_inline(&arguments.positional[i], quality) {
            assert(!inline_has(view.positional[i as int], quality));
            return false;
        }
        i = i + 1;
    }
    let mut j: usize = 0;
    while j < arguments.named.len()
        invariant
            j <= arguments.named.len(),
            view == syntax::arguments_view(*arguments),
            forall|k: int|
                0 <= k < view.positional.len() ==> inline_has(
                    #[trigger] view.positional[k],
                    quality,
                ),
            forall|k: int| 0 <= k < j ==> inline_has((#[trigger] view.named[k]).value, quality),
        decreases arguments.named.len() - j,
    {
        let value = &arguments.named[j].value;
        assert(view.named[j as int].value == syntax::inline_view(*value));
        if !check_inline(value, quality) {
            return false;
        }
        j = j + 1;
    }
    true
}

/// Whether attributes have a quality.
fn check_attributes(attributes: &Vec<ast::Attribute<&str>>, quality: Quality) -> (have: bool)
    ensures
        have == attributes_have(syntax::attributes_view(attributes@), quality),
{
    let ghost views = syntax::attributes_view(attributes@);
    let mut i: usize = 0;
    while i < attributes.len()
        invariant
            i <= attributes.len(),
            views == syntax::attributes_view(attributes@),
            forall|k: int| 0 <= k < i ==> pattern_has((#[trigger] views[k]).value, quality),
        decreases attributes.len() - i,
    {
        if !check_pattern(&attributes[i].value, quality) {
            assert(!pattern_has(views[i as int].value, quality));
            return false;
        }
        i = i + 1;
    }
    true
}

/// Whether all patterns of an entry have a quality.
pub fn check_entry(entry: &ast::Entry<&str>, quality: Quality) -> (has: bool)
    ensures
        has == entry_has(syntax::entry_view(*entry), quality),
{
    match entry {
        ast::Entry::Message(message) => {
            let value = match &message.value {
                Some(value) => check_pattern(value, quality),
                None => true,
            };
            value && check_attributes(&message.attributes, quality)
        },
        ast::Entry::Term(term) => check_pattern(&term.value, quality) && check_attributes(
            &term.attributes,
            quality,
        ),
        _ => true,
    }
}

} // verus!
