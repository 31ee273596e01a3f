//! What the guards in front of the parser and of the formatter let through.

use crate::escapes;
use crate::expansion;
use crate::laws;
use crate::laws::collecting;
use crate::lookup;
use crate::nesting;
use crate::nesting::Quality;
use crate::position;
use crate::references;
use crate::references::ReferenceView;
use crate::store;
use crate::syntax;
use crate::translations;
use crate::variables::Variable;
use vstd::prelude::*;

verus! {

// The parser

/// A character of ASCII is encoded by its number alone, any other one by bytes above.
proof fn lemma_encoded_scalar(c: char)
    ensures
        c as u32 == c as int,
        (c as u32) < 128 ==> vstd::utf8::encode_scalar(c as u32) == seq![c as u8],
        (c as u32) >= 128 ==> forall|i: int|
            0 <= i < vstd::utf8::encode_scalar(c as u32).len() ==> #[trigger] vstd::utf8::encode_scalar(
                c as u32,
            )[i] >= 128,
{
    let v = c as u32;
    vstd::utf8::char_is_scalar(c);
    if vstd::utf8::has_width_1_encoding(v) {
        assert((v & 0x7f) as u8 == v) by (bit_vector)
            requires
                v <= 0x7f,
        ;
    } else {
        assert(0xc0u8 | ((v >> 6) & 0x1f) as u8 >= 128) by (bit_vector);
        assert(0xe0u8 | ((v >> 12) & 0x0f) as u8 >= 128) by (bit_vector);
        assert(0xf0u8 | ((v >> 18) & 0x7) as u8 >= 128) by (bit_vector);
        assert(0x80u8 | (v & 0x3f) as u8 >= 128) by (bit_vector);
        assert(0x80u8 | ((v >> 6) & 0x3f) as u8 >= 128) by (bit_vector);
        assert(0x80u8 | ((v >> 12) & 0x3f) as u8 >= 128) by (bit_vector);
    }
}

/// Each byte of ASCII in the encoding of a text is one of its characters. A text of ASCII has no
/// other bytes.
proof fn lemma_bytes_of_text(source: Seq<char>, at: int)
    requires
        0 <= at < vstd::utf8::encode_utf8(source).len(),
    ensures
        vstd::utf8::encode_utf8(source)[at] < 128 ==> exists|k: int|
            0 <= k < source.len() && (#[trigger] source[k]) as int == vstd::utf8::encode_utf8(
                source,
            )[at],
        vstd::utf8::encode_utf8(source)[at] >= 128 ==> exists|k: int|
            0 <= k < source.len() && (#[trigger] source[k]) as int >= 128,
    decreases source.len(),
{
    let bytes = vstd::utf8::encode_utf8(source);
    let first = vstd::utf8::encode_scalar(source[0] as u32);
    let rest = source.drop_first();
    lemma_encoded_scalar(source[0]);
    if at < first.len() {
        assert(bytes[at] == first[at]);
    } else {
        let below = at - first.len();
        lemma_bytes_of_text(rest, below);
        assert(bytes[at] == vstd::utf8::encode_utf8(rest)[below]);
        if bytes[at] < 128 {
            let k = choose|k: int|
                0 <= k < rest.len() && (#[trigger] rest[k]) as int == bytes[at];
            assert(source[k + 1] as int == bytes[at]);
        } else {
            let k = choose|k: int| 0 <= k < rest.len() && (#[trigger] rest[k]) as int >= 128;
            assert(source[k + 1] as int >= 128);
        }
    }
}

/// A text without a backslash, without a double quote or without an opening brace is let through to
/// the parser, and so is one in ASCII, as long as its bytes can be counted.
pub proof fn law_ordinary_texts_are_parsed(source: Seq<char>)
    requires
        vstd::utf8::encode_utf8(source).len() < usize::MAX,
        !source.contains('\\') || !source.contains('"') || !source.contains('{') || forall|k: int|
            0 <= k < source.len() ==> ((#[trigger] source[k]) as int) < 128,
    ensures
        escapes::is_parsable(source),
{
    let bytes = vstd::utf8::encode_utf8(source);
    assert forall|i: int| 0 <= i < bytes.len() && escapes::may_escape(
        bytes,
        i,
    ) implies !#[trigger] escapes::cut_short(bytes, i) by {
        if escapes::cut_short(bytes, i) {
            let n = choose|n: int| escapes::cut_short_after(bytes, i, n);
            let q = choose|q: int| escapes::quoted_from(bytes, q, i);
            let b = choose|b: int| escapes::braced_from(bytes, b, q);
            lemma_bytes_of_text(source, i);
            lemma_bytes_of_text(source, i + 2 + n);
            lemma_bytes_of_text(source, q);
            lemma_bytes_of_text(source, b);
        }
    }
}

/// A text is kept from the parser where a unicode escape in a placeable is cut short by a character
/// outside ASCII: behind an opening brace at `b` that no closing brace follows, and behind a double
/// quote at `q` on the same line, which is no comment.
pub proof fn law_cut_escapes_are_kept_out(source: Seq<char>, b: int, q: int, i: int)
    requires
        ({
            let bytes = vstd::utf8::encode_utf8(source);
            &&& 0 <= b < q < i
            &&& i + 2 < bytes.len()
            &&& bytes[b] == '{' as u8
            &&& bytes[q] == '"' as u8
            &&& bytes[i] == '\\' as u8
            &&& bytes[i + 1] == 'u' as u8 || bytes[i + 1] == 'U' as u8
            &&& bytes[i + 2] >= 128
            &&& forall|k: int| 0 <= k < i ==> #[trigger] bytes[k] != '\n' as u8 && bytes[k]
                != '\\' as u8 && bytes[k] != '}' as u8
            &&& bytes[0] != '#' as u8
        }),
    ensures
        !escapes::is_parsable(source),
{
    let bytes = vstd::utf8::encode_utf8(source);
    assert(escapes::cut_short_after(bytes, i, 0));
    assert(escapes::braced_from(bytes, b, q));
    assert(escapes::quoted_from(bytes, q, i));
    lemma_line_starts(bytes, i);
    assert(!escapes::is_escaped(bytes, i));
    assert(escapes::may_escape(bytes, i));
    assert(escapes::cut_short(bytes, i));
}

/// Without a line feed before it, the line of an index starts with the text.
proof fn lemma_line_starts(bytes: Seq<u8>, i: int)
    requires
        0 <= i <= bytes.len(),
        forall|k: int| 0 <= k < i ==> #[trigger] bytes[k] != position::LINE_FEED,
    ensures
        escapes::line_start(bytes, i) == 0,
    decreases i,
{
    if i > 0 {
        lemma_line_starts(bytes, i - 1);
    }
}

/// A file stands in the way of loading exactly where loading comes to it, because the language is
/// one and the files before were loaded, and the parser cannot take its text.
pub proof fn law_loading_stops_where_the_parser_cannot_go_on(
    language: Seq<char>,
    files: Seq<translations::SourceFileView>,
    i: int,
    strict: bool,
    validate_references: bool,
)
    ensures
        !translations::is_loadable(language, files, i, strict, validate_references) <==> {
            &&& store::canonical_language(language) is Some
            &&& translations::loaded_files(files.take(i), strict, validate_references) is Ok
            &&& files[i].contents matches Some(source)
            &&& !escapes::is_parsable(source)
        },
{
}

// The formatter

/// Formatting comes up exactly where a translation is owed, whatever the settings are.
pub proof fn law_formatting_is_for_translations(
    settings: store::SettingsView,
    entries: store::Entries,
    identifier: Seq<char>,
    variables: Seq<Variable>,
)
    ensures
        translations::comes_to_formatting(entries, identifier, variables)
            <==> translations::translated(settings, entries, identifier, variables) is Ok,
        translations::translated(settings, entries, identifier, variables) matches Err(
            translations::TranslationErrorView::Value(_),
        ) ==> translations::names_safely(entries, identifier),
{
}

/// Whether an inline expression is a variable, a text without backslashes or a number without a
/// point, in placeables or not.
pub open spec fn is_plain_data(inline: syntax::InlineView) -> bool
    decreases inline,
{
    match inline {
        syntax::InlineView::Text(text) => !text.contains('\\'),
        syntax::InlineView::Number(number) => !number.contains('.'),
        syntax::InlineView::Variable(_) => true,
        syntax::InlineView::Placeable(wrapped) => match *wrapped {
            syntax::ExpressionView::Inline(inline) => is_plain_data(inline),
            syntax::ExpressionView::Select { .. } => false,
        },
        _ => false,
    }
}

/// Whether an inline expression is ordinary: its texts are without backslashes and its numbers
/// without a point, and it wraps nothing but plain data.
pub open spec fn is_ordinary_inline(inline: syntax::InlineView) -> bool
    decreases inline,
{
    match inline {
        syntax::InlineView::Text(text) => !text.contains('\\'),
        syntax::InlineView::Number(number) => !number.contains('.'),
        syntax::InlineView::Function { arguments, .. } => are_ordinary_arguments(arguments),
        syntax::InlineView::Term { call, .. } => match call {
            Some(arguments) => are_ordinary_arguments(arguments),
            None => true,
        },
        syntax::InlineView::Placeable(_) => is_plain_data(inline),
        _ => true,
    }
}

/// Whether the arguments of a call are ordinary.
pub open spec fn are_ordinary_arguments(arguments: syntax::ArgumentsView) -> bool
    decreases arguments,
{
    &&& forall|i: int|
        0 <= i < arguments.positional.len() ==> is_ordinary_inline(
            #[trigger] arguments.positional[i],
        )
    &&& forall|i: int|
        0 <= i < arguments.named.len() ==> is_ordinary_inline((#[trigger] arguments.named[i]).value)
}

/// Whether an expression is ordinary. What selects is neither a literal nor a placeable then.
pub open spec fn is_ordinary(expression: syntax::ExpressionView) -> bool
    decreases expression,
{
    match expression {
        syntax::ExpressionView::Inline(inline) => is_ordinary_inline(inline),
        syntax::ExpressionView::Select { selector, variants } => {
            &&& is_ordinary_inline(selector)
            &&& !(selector is Text) && !(selector is Number) && !(selector is Placeable)
            &&& forall|i: int|
                0 <= i < variants.len() ==> are_ordinary_elements(
                    (#[trigger] variants[i]).value.elements,
                )
        },
    }
}

/// Whether the elements of a pattern are ordinary.
pub open spec fn are_ordinary_elements(elements: Seq<syntax::ElementView>) -> bool
    decreases elements,
{
    forall|i: int|
        0 <= i < elements.len() ==> match #[trigger] elements[i] {
            syntax::ElementView::Text(_) => true,
            syntax::ElementView::Placeable(expression) => is_ordinary(expression),
        }
}

/// Whether all patterns of an entry are ordinary.
pub open spec fn is_ordinary_entry(entry: syntax::EntryView) -> bool {
    match entry {
        syntax::EntryView::Message(message) => {
            &&& message.value matches Some(value) ==> are_ordinary_elements(value.elements)
            &&& forall|i: int|
                0 <= i < message.attributes.len() ==> are_ordinary_elements(
                    (#[trigger] message.attributes[i]).value.elements,
                )
        },
        syntax::EntryView::Term(term) => {
            &&& are_ordinary_elements(term.value.elements)
            &&& forall|i: int|
                0 <= i < term.attributes.len() ==> are_ordinary_elements(
                    (#[trigger] term.attributes[i]).value.elements,
                )
        },
        syntax::EntryView::Other => true,
    }
}

/// A text without backslashes has no escape to mend.
proof fn lemma_no_escapes(text: Seq<char>)
    requires
        !text.contains('\\'),
    ensures
        nesting::escapes_are_whole(text),
    decreases text.len(),
{
    if text.len() > 0 {
        assert(text.contains(text[0]));
        let rest = text.skip(1);
        assert forall|k: int| 0 <= k < rest.len() implies #[trigger] rest[k] != '\\' by {
            assert(text.contains(text[k + 1]));
        }
        lemma_no_escapes(rest);
    }
}

/// A number without a point has no digits behind it.
proof fn lemma_no_fraction(number: Seq<char>)
    requires
        !number.contains('.'),
    ensures
        nesting::fraction_length(number) == 0,
{
    assert forall|k: int| 0 <= k < number.len() implies #[trigger] number[k] != '.' by {
        assert(number.contains(number[k]));
    }
    assert(number.take(number.len() as int) =~= number);
    laws::translating::lemma_stop_at(number, number.len() as int);
}

/// Plain data has the qualities that formatting asks for, and expands no further.
proof fn lemma_plain_data(inline: syntax::InlineView, quality: Quality)
    requires
        is_plain_data(inline),
        quality != Quality::FixedChoices,
    ensures
        nesting::inline_has(inline, quality),
        nesting::has_short_numbers(inline),
        nesting::inline_is_inert(inline),
    decreases inline,
{
    match inline {
        syntax::InlineView::Text(text) => {
            lemma_no_escapes(text);
        },
        syntax::InlineView::Number(number) => {
            lemma_no_fraction(number);
        },
        syntax::InlineView::Placeable(wrapped) => match *wrapped {
            syntax::ExpressionView::Inline(inner) => {
                lemma_plain_data(inner, quality);
                if inner is Placeable {
                    assert(nesting::is_inert(*inner->Placeable_0));
                }
                assert(nesting::expression_has(*wrapped, quality));
            },
            syntax::ExpressionView::Select { .. } => {},
        },
        _ => {},
    }
}

/// Ordinary inline expressions have the qualities that formatting asks for.
proof fn lemma_ordinary_inline(inline: syntax::InlineView, quality: Quality)
    requires
        is_ordinary_inline(inline),
        quality != Quality::FixedChoices,
    ensures
        nesting::inline_has(inline, quality),
        nesting::has_short_numbers(inline),
        inline matches syntax::InlineView::Placeable(wrapped) ==> nesting::is_inert(*wrapped),
    decreases inline,
{
    match inline {
        syntax::InlineView::Placeable(wrapped) => {
            lemma_plain_data(inline, quality);
        },
        syntax::InlineView::Text(text) => {
            lemma_no_escapes(text);
        },
        syntax::InlineView::Number(number) => {
            lemma_no_fraction(number);
        },
        syntax::InlineView::Function { arguments, .. } => {
            lemma_ordinary_arguments(arguments, quality);
        },
        syntax::InlineView::Term { call, .. } => {
            if call is Some {
                lemma_ordinary_arguments(call->0, quality);
            }
        },
        _ => {},
    }
}

/// Ordinary arguments have the qualities that formatting asks for.
proof fn lemma_ordinary_arguments(arguments: syntax::ArgumentsView, quality: Quality)
    requires
        are_ordinary_arguments(arguments),
        quality != Quality::FixedChoices,
    ensures
        nesting::arguments_have(arguments, quality),
        nesting::has_short_named(arguments.named),
    decreases arguments,
{
    assert forall|i: int| 0 <= i < arguments.positional.len() implies nesting::inline_has(
        #[trigger] arguments.positional[i],
        quality,
    ) by {
        lemma_ordinary_inline(arguments.positional[i], quality);
    }
    assert forall|i: int| 0 <= i < arguments.named.len() implies nesting::inline_has(
        (#[trigger] arguments.named[i]).value,
        quality,
    ) && nesting::has_short_numbers(arguments.named[i].value) by {
        lemma_ordinary_inline(arguments.named[i].value, quality);
    }
}

/// Ordinary expressions have the qualities that formatting asks for.
proof fn lemma_ordinary(expression: syntax::ExpressionView, quality: Quality)
    requires
        is_ordinary(expression),
        quality != Quality::FixedChoices,
    ensures
        nesting::expression_has(expression, quality),
    decreases expression,
{
    match expression {
        syntax::ExpressionView::Inline(inline) => {
            lemma_ordinary_inline(inline, quality);
        },
        syntax::ExpressionView::Select { selector, variants } => {
            lemma_ordinary_inline(selector, quality);
            assert forall|i: int| 0 <= i < variants.len() implies nesting::elements_have(
                #[trigger] variants[i].value.elements,
                quality,
            ) by {
                lemma_ordinary_elements(variants[i].value.elements, quality);
            }
        },
    }
}

/// Ordinary elements have the qualities that formatting asks for.
proof fn lemma_ordinary_elements(elements: Seq<syntax::ElementView>, quality: Quality)
    requires
        are_ordinary_elements(elements),
        quality != Quality::FixedChoices,
    ensures
        nesting::elements_have(elements, quality),
    decreases elements,
{
    assert forall|i: int| 0 <= i < elements.len() implies nesting::element_has(
        #[trigger] elements[i],
        quality,
    ) by {
        match elements[i] {
            syntax::ElementView::Text(_) => {},
            syntax::ElementView::Placeable(expression) => {
                lemma_ordinary(expression, quality);
            },
        }
    }
}

/// Ordinary entries have the qualities that formatting asks for.
proof fn lemma_ordinary_entry(entry: syntax::EntryView, quality: Quality)
    requires
        is_ordinary_entry(entry),
        quality != Quality::FixedChoices,
    ensures
        nesting::entry_has(entry, quality),
{
    match entry {
        syntax::EntryView::Message(message) => {
            if message.value is Some {
                lemma_ordinary_elements(message.value->0.elements, quality);
            }
            assert forall|i: int| 0 <= i < message.attributes.len() implies nesting::pattern_has(
                (#[trigger] message.attributes[i]).value,
                quality,
            ) by {
                lemma_ordinary_elements(message.attributes[i].value.elements, quality);
            }
        },
        syntax::EntryView::Term(term) => {
            lemma_ordinary_elements(term.value.elements, quality);
            assert forall|i: int| 0 <= i < term.attributes.len() implies nesting::pattern_has(
                (#[trigger] term.attributes[i]).value,
                quality,
            ) by {
                lemma_ordinary_elements(term.attributes[i].value.elements, quality);
            }
        },
        syntax::EntryView::Other => {},
    }
}

/// In a store of ordinary entries every translation can be asked for: whatever an identifier names
/// is let through to the formatter, however much it expands to.
pub proof fn law_ordinary_stores_are_formatted(entries: store::Entries, identifier: Seq<char>)
    requires
        forall|name: Seq<char>| #[trigger]
            entries.contains_key(name) ==> is_ordinary_entry(entries[name]),
    ensures
        translations::names_safely(entries, identifier),
{
    if lookup::named_pattern(entries, identifier) is Ok {
        let pattern = lookup::named_pattern(entries, identifier)->Ok_0;
        let (id, attribute) = lookup::split_identifier(identifier);
        assert(is_ordinary_entry(entries[id]));
        if attribute is Some {
            let attributes = entries[id]->Message_0.attributes;
            laws::translating::law_attributes_are_found_by_name(attributes, attribute->0);
            let i = laws::translating::lemma_first_named(attributes, attribute->0);
            assert(pattern == attributes[i].value);
        }
        assert(are_ordinary_elements(pattern.elements));
        lemma_ordinary_throughout(entries, pattern, Quality::Sound);
        lemma_ordinary_throughout(entries, pattern, Quality::ShortArguments);
        lemma_ordinary_throughout(entries, pattern, Quality::Plain);
    }
}

/// In a store of ordinary entries, an ordinary pattern leads to nothing but what has the qualities
/// that formatting asks for.
proof fn lemma_ordinary_throughout(
    entries: store::Entries,
    pattern: syntax::PatternView,
    quality: Quality,
)
    requires
        forall|name: Seq<char>| #[trigger]
            entries.contains_key(name) ==> is_ordinary_entry(entries[name]),
        are_ordinary_elements(pattern.elements),
        quality != Quality::FixedChoices,
    ensures
        expansion::has_throughout(entries, pattern, quality),
{
    lemma_ordinary_elements(pattern.elements, quality);
    let names = Set::<Seq<char>>::full();
    assert forall|name: Seq<char>| #[trigger] names.contains(name) && entries.contains_key(
        name,
    ) implies nesting::entry_has(entries[name], quality) && expansion::holds_all(
        names,
        expansion::mentioned(references::entry_references(entries[name])),
    ) by {
        lemma_ordinary_entry(entries[name], quality);
    }
    assert(expansion::is_closed_set(entries, names, quality));
}

// Literals

/// The digits of a number behind its point are counted, all of them. A number without a point has
/// none.
pub proof fn law_digits_behind_the_point(whole: Seq<char>, fraction: Seq<char>)
    requires
        laws::translating::is_unstopped(whole),
    ensures
        nesting::fraction_length(whole) == 0,
        nesting::fraction_length(whole + seq!['.'] + fraction) == fraction.len(),
{
    let number = whole + seq!['.'] + fraction;
    assert(whole.take(whole.len() as int) =~= whole);
    laws::translating::lemma_stop_at(whole, whole.len() as int);
    assert(number.take(whole.len() as int) =~= whole);
    assert(number[whole.len() as int] == '.');
    laws::translating::lemma_stop_at(number, whole.len() as int);
}

/// Whether a text is a whole escape: a backslash before another one, before a double quote or before
/// an opening brace, or before a `u` with four hexadecimal digits or a `U` with six.
pub open spec fn is_escape(text: Seq<char>) -> bool {
    &&& text.len() >= 2
    &&& text[0] == '\\'
    &&& match text[1] {
        '\\' => text.len() == 2,
        '"' => text.len() == 2,
        '{' => text.len() == 2,
        'u' => text.len() == 6,
        'U' => text.len() == 8,
        _ => false,
    }
    &&& forall|i: int|
        2 <= i < text.len() ==> '0' <= #[trigger] text[i] <= '9' || 'a' <= text[i] <= 'f' || 'A'
            <= text[i] <= 'F'
}

/// The escapes of a text are whole exactly where it can be cut into whole escapes and characters
/// that are no backslashes: nothing is, and what follows such a piece decides on the rest.
pub proof fn law_escapes_are_whole_piece_by_piece(piece: Seq<char>, rest: Seq<char>)
    ensures
        nesting::escapes_are_whole(Seq::empty()),
        piece.len() == 1 && piece[0] != '\\' ==> nesting::escapes_are_whole(piece + rest)
            == nesting::escapes_are_whole(rest),
        is_escape(piece) ==> nesting::escapes_are_whole(piece + rest)
            == nesting::escapes_are_whole(rest),
        piece.len() > 0 && piece[0] == '\\' && nesting::escapes_are_whole(piece) ==> exists|
            n: int,
        | #[trigger]
            is_escape(piece.take(n)) && 0 <= n <= piece.len(),
{
    let all = piece + rest;
    if piece.len() == 1 && piece[0] != '\\' {
        assert(all.skip(1) =~= rest);
    }
    if is_escape(piece) {
        let n = nesting::escape_length(piece[1]);
        assert(n == piece.len());
        assert(all.skip(n) =~= rest);
        assert forall|i: int| 2 <= i < n implies nesting::is_hex_digit(#[trigger] all[i]) by {
            assert(all[i] == piece[i]);
        }
        assert(nesting::starts_with_escape(all));
    }
    if piece.len() > 0 && piece[0] == '\\' && nesting::escapes_are_whole(piece) {
        let n = nesting::escape_length(piece[1]);
        let head = piece.take(n);
        assert forall|i: int| 2 <= i < head.len() implies '0' <= #[trigger] head[i] <= '9' || 'a'
            <= head[i] <= 'f' || 'A' <= head[i] <= 'F' by {
            assert(nesting::is_hex_digit(piece[i]));
        }
        assert(is_escape(head));
    }
}

/// An identifier refers, for the guard, to the very pattern that it names, and to none where it
/// names none.
pub proof fn law_guards_look_at_what_is_named(entries: store::Entries, identifier: Seq<char>)
    ensures
        match lookup::named_pattern(entries, identifier) {
            Ok(pattern) => expansion::referred(entries, lookup::root_reference(identifier)) == Some(
                pattern,
            ),
            Err(_) => expansion::referred(entries, lookup::root_reference(identifier)) is None,
        },
{
}

// What the formatter is spared

/// A part of a pattern.
pub enum PartView {
    Inline(syntax::InlineView),
    Expression(syntax::ExpressionView),
}

/// Whether a part stands in an inline expression, at whichever depth.
pub open spec fn stands_in_inline(inline: syntax::InlineView, part: PartView) -> bool
    decreases inline,
{
    ||| part == PartView::Inline(inline)
    ||| match inline {
        syntax::InlineView::Function { arguments, .. } => stands_in_arguments(arguments, part),
        syntax::InlineView::Term { call, .. } => match call {
            Some(arguments) => stands_in_arguments(arguments, part),
            None => false,
        },
        syntax::InlineView::Placeable(wrapped) => stands_in_expression(*wrapped, part),
        _ => false,
    }
}

/// Whether a part stands in some argument of a call.
pub open spec fn stands_in_arguments(arguments: syntax::ArgumentsView, part: PartView) -> bool
    decreases arguments,
{
    ||| exists|i: int|
        0 <= i < arguments.positional.len() && stands_in_inline(
            #[trigger] arguments.positional[i],
            part,
        )
    ||| exists|i: int|
        0 <= i < arguments.named.len() && stands_in_inline(
            (#[trigger] arguments.named[i]).value,
            part,
        )
}

/// Whether a part stands in an expression, in its selector or in some variant.
pub open spec fn stands_in_expression(expression: syntax::ExpressionView, part: PartView) -> bool
    decreases expression,
{
    ||| part == PartView::Expression(expression)
    ||| match expression {
        syntax::ExpressionView::Inline(inline) => stands_in_inline(inline, part),
        syntax::ExpressionView::Select { selector, variants } => {
            ||| stands_in_inline(selector, part)
            ||| exists|i: int|
                0 <= i < variants.len() && stands_in_elements(
                    (#[trigger] variants[i]).value.elements,
                    part,
                )
        },
    }
}

/// Whether a part stands in some placeable of a pattern.
pub open spec fn stands_in_elements(elements: Seq<syntax::ElementView>, part: PartView) -> bool
    decreases elements,
{
    exists|i: int|
        0 <= i < elements.len() && match #[trigger] elements[i] {
            syntax::ElementView::Text(_) => false,
            syntax::ElementView::Placeable(expression) => stands_in_expression(expression, part),
        }
}

/// Whether a part stands in some pattern of an entry.
pub open spec fn stands_in_entry(entry: syntax::EntryView, part: PartView) -> bool {
    match entry {
        syntax::EntryView::Message(message) => {
            ||| message.value matches Some(value) && stands_in_elements(value.elements, part)
            ||| exists|i: int|
                0 <= i < message.attributes.len() && stands_in_elements(
                    (#[trigger] message.attributes[i]).value.elements,
                    part,
                )
        },
        syntax::EntryView::Term(term) => {
            ||| stands_in_elements(term.value.elements, part)
            ||| exists|i: int|
                0 <= i < term.attributes.len() && stands_in_elements(
                    (#[trigger] term.attributes[i]).value.elements,
                    part,
                )
        },
        syntax::EntryView::Other => false,
    }
}

/// Whether a part has a quality, what it consists of left aside.
spec fn part_suits(part: PartView, quality: Quality) -> bool {
    match part {
        PartView::Inline(inline) => nesting::inline_suits(inline, quality),
        PartView::Expression(expression) => nesting::expression_suits(expression, quality),
    }
}

/// What an inline expression has, its parts have.
proof fn lemma_inline_parts(inline: syntax::InlineView, part: PartView, quality: Quality)
    requires
        nesting::inline_has(inline, quality),
        stands_in_inline(inline, part),
    ensures
        part_suits(part, quality),
    decreases inline,
{
    if part != PartView::Inline(inline) {
        match inline {
            syntax::InlineView::Function { arguments, .. } => {
                lemma_argument_parts(arguments, part, quality);
            },
            syntax::InlineView::Term { call, .. } => {
                lemma_argument_parts(call->0, part, quality);
            },
            syntax::InlineView::Placeable(wrapped) => {
                lemma_expression_parts(*wrapped, part, quality);
            },
            _ => {},
        }
    }
}

/// What arguments have, their parts have.
proof fn lemma_argument_parts(arguments: syntax::ArgumentsView, part: PartView, quality: Quality)
    requires
        nesting::arguments_have(arguments, quality),
        stands_in_arguments(arguments, part),
    ensures
        part_suits(part, quality),
    decreases arguments,
{
    if exists|i: int|
        0 <= i < arguments.positional.len() && stands_in_inline(
            #[trigger] arguments.positional[i],
            part,
        ) {
        let i = choose|i: int|
            0 <= i < arguments.positional.len() && stands_in_inline(
                #[trigger] arguments.positional[i],
                part,
            );
        lemma_inline_parts(arguments.positional[i], part, quality);
    } else {
        let i = choose|i: int|
            0 <= i < arguments.named.len() && stands_in_inline(
                (#[trigger] arguments.named[i]).value,
                part,
            );
        lemma_inline_parts(arguments.named[i].value, part, quality);
    }
}

/// What an expression has, its parts have.
proof fn lemma_expression_parts(
    expression: syntax::ExpressionView,
    part: PartView,
    quality: Quality,
)
    requires
        nesting::expression_has(expression, quality),
        stands_in_expression(expression, part),
    ensures
        part_suits(part, quality),
    decreases expression,
{
    if part != PartView::Expression(expression) {
        match expression {
            syntax::ExpressionView::Inline(inline) => {
                lemma_inline_parts(inline, part, quality);
            },
            syntax::ExpressionView::Select { selector, variants } => {
                if stands_in_inline(selector, part) {
                    lemma_inline_parts(selector, part, quality);
                } else {
                    let i = choose|i: int|
                        0 <= i < variants.len() && stands_in_elements(
                            (#[trigger] variants[i]).value.elements,
                            part,
                        );
                    lemma_element_parts(variants[i].value.elements, part, quality);
                }
            },
        }
    }
}

/// Whether a part stands in an element.
spec fn stands_in_element(element: syntax::ElementView, part: PartView) -> bool {
    match element {
        syntax::ElementView::Text(_) => false,
        syntax::ElementView::Placeable(expression) => stands_in_expression(expression, part),
    }
}

/// What elements have, their parts have.
proof fn lemma_element_parts(
    elements: Seq<syntax::ElementView>,
    part: PartView,
    quality: Quality,
)
    requires
        nesting::elements_have(elements, quality),
        stands_in_elements(elements, part),
    ensures
        part_suits(part, quality),
    decreases elements,
{
    let i = choose|i: int|
        0 <= i < elements.len() && stands_in_element(#[trigger] elements[i], part);
    assert(stands_in_element(elements[i], part));
    assert(nesting::element_has(elements[i], quality));
    match elements[i] {
        syntax::ElementView::Text(_) => {},
        syntax::ElementView::Placeable(expression) => {
            lemma_expression_parts(expression, part, quality);
        },
    }
}

/// What an entry has, its parts have.
proof fn lemma_entry_parts(entry: syntax::EntryView, part: PartView, quality: Quality)
    requires
        nesting::entry_has(entry, quality),
        stands_in_entry(entry, part),
    ensures
        part_suits(part, quality),
{
    match entry {
        syntax::EntryView::Message(message) => {
            if message.value is Some && stands_in_elements(message.value->0.elements, part) {
                lemma_element_parts(message.value->0.elements, part, quality);
            } else {
                let i = choose|i: int|
                    0 <= i < message.attributes.len() && stands_in_elements(
                        (#[trigger] message.attributes[i]).value.elements,
                        part,
                    );
                assert(nesting::pattern_has(message.attributes[i].value, quality));
                lemma_element_parts(message.attributes[i].value.elements, part, quality);
            }
        },
        syntax::EntryView::Term(term) => {
            if stands_in_elements(term.value.elements, part) {
                lemma_element_parts(term.value.elements, part, quality);
            } else {
                let i = choose|i: int|
                    0 <= i < term.attributes.len() && stands_in_elements(
                        (#[trigger] term.attributes[i]).value.elements,
                        part,
                    );
                assert(nesting::pattern_has(term.attributes[i].value, quality));
                lemma_element_parts(term.attributes[i].value.elements, part, quality);
            }
        },
        syntax::EntryView::Other => {},
    }
}

/// Whether a reference is one to a name, be it of a message or of a term.
pub open spec fn is_to(reference: ReferenceView, name: Seq<char>) -> bool {
    match reference {
        ReferenceView::Message { id, .. } => id == name,
        ReferenceView::Term { id, .. } => id == name,
    }
}

/// Whether a pattern comes upon the last of a list of names: it mentions the first one, and the
/// entry under each of them mentions the next one.
pub open spec fn comes_upon(
    entries: store::Entries,
    pattern: syntax::PatternView,
    names: Seq<Seq<char>>,
) -> bool {
    &&& names.len() > 0
    &&& exists|reference: ReferenceView| #[trigger]
        collecting::elements_mention(pattern.elements, reference) && is_to(reference, names[0])
    &&& forall|i: int| #[trigger]
        passes(names, i) ==> exists|reference: ReferenceView| #[trigger]
            collecting::entry_mentions(entries[names[i]], reference) && is_to(
                reference,
                names[i + 1],
            )
    &&& forall|i: int|
        0 <= i < names.len() ==> entries.contains_key(#[trigger] names[i])
}

/// Whether an index of a list has a next one.
pub open spec fn passes(names: Seq<Seq<char>>, i: int) -> bool {
    0 <= i < names.len() - 1
}

/// What a pattern comes upon has the quality that all has which it leads to.
proof fn lemma_upon_has(
    entries: store::Entries,
    pattern: syntax::PatternView,
    names: Seq<Seq<char>>,
    quality: Quality,
)
    requires
        expansion::has_throughout(entries, pattern, quality),
        comes_upon(entries, pattern, names),
    ensures
        nesting::entry_has(entries[names.last()], quality),
{
    let first = expansion::mentioned(references::pattern_references(Some(pattern)));
    let set = choose|set: Set<Seq<char>>| #[trigger]
        expansion::is_closed_set(entries, set, quality) && expansion::holds_all(set, first);
    lemma_upon_held(entries, pattern, names, set, quality, names.len() - 1);
}

/// What a pattern comes upon is in each closed set that holds what it mentions.
proof fn lemma_upon_held(
    entries: store::Entries,
    pattern: syntax::PatternView,
    names: Seq<Seq<char>>,
    set: Set<Seq<char>>,
    quality: Quality,
    i: int,
)
    requires
        comes_upon(entries, pattern, names),
        expansion::is_closed_set(entries, set, quality),
        expansion::holds_all(
            set,
            expansion::mentioned(references::pattern_references(Some(pattern))),
        ),
        0 <= i < names.len(),
    ensures
        set.contains(names[i]),
    decreases i,
{
    if i == 0 {
        let reference = choose|reference: ReferenceView| #[trigger]
            collecting::elements_mention(pattern.elements, reference) && is_to(
                reference,
                names[0],
            );
        collecting::lemma_elements_mention(pattern.elements, reference);
        let list = references::pattern_references(Some(pattern));
        let k = list.index_of(reference);
        assert(expansion::mentioned(list)[k] == names[0]);
        assert(expansion::mentioned(list).contains(names[0]));
    } else {
        lemma_upon_held(entries, pattern, names, set, quality, i - 1);
        assert(passes(names, i - 1));
        let entry = entries[names[i - 1]];
        let reference = choose|reference: ReferenceView| #[trigger]
            collecting::entry_mentions(entry, reference) && is_to(reference, names[i]);
        collecting::law_mentions_are_collected(entry, reference);
        let list = references::entry_references(entry);
        let k = list.index_of(reference);
        assert(expansion::mentioned(list)[k] == names[i]);
        assert(expansion::mentioned(list).contains(names[i]));
        assert(entries.contains_key(names[i - 1]));
    }
}

/// Whether an inline expression is a number, in placeables or not.
pub open spec fn spells(inline: syntax::InlineView, number: Seq<char>) -> bool
    decreases inline,
{
    match inline {
        syntax::InlineView::Number(digits) => digits == number,
        syntax::InlineView::Placeable(wrapped) => match *wrapped {
            syntax::ExpressionView::Inline(inline) => spells(inline, number),
            syntax::ExpressionView::Select { .. } => false,
        },
        _ => false,
    }
}

/// A number in placeables is short where all of them are.
proof fn lemma_spelled_is_short(inline: syntax::InlineView, number: Seq<char>)
    requires
        nesting::has_short_numbers(inline),
        spells(inline, number),
    ensures
        nesting::fraction_length(number) <= nesting::FRACTION_LENGTH,
    decreases inline,
{
    match inline {
        syntax::InlineView::Placeable(wrapped) => match *wrapped {
            syntax::ExpressionView::Inline(inline) => {
                lemma_spelled_is_short(inline, number);
            },
            syntax::ExpressionView::Select { .. } => {},
        },
        _ => {},
    }
}

/// What is let through to the formatter has whole escapes only, and chooses a plural form by no
/// number with more than 19 digits behind the point: neither the pattern itself, at whichever depth,
/// nor an entry that it comes upon, over however many mentions.
pub proof fn law_the_formatter_is_spared(
    entries: store::Entries,
    identifier: Seq<char>,
    names: Seq<Seq<char>>,
    part: PartView,
)
    requires
        translations::names_safely(entries, identifier),
        lookup::named_pattern(entries, identifier) matches Ok(pattern) && (stands_in_elements(
            pattern.elements,
            part,
        ) || comes_upon(entries, pattern, names) && stands_in_entry(entries[names.last()], part)),
    ensures
        part matches PartView::Inline(syntax::InlineView::Text(text))
            ==> nesting::escapes_are_whole(text),
        part matches PartView::Expression(
            syntax::ExpressionView::Select { selector, variants },
        ) ==> forall|i: int, number: Seq<char>|
            0 <= i < variants.len() && #[trigger] spells(selector, number)
                && nesting::is_plural_key((#[trigger] variants[i]).key)
                ==> nesting::fraction_length(number) <= 19,
{
    let pattern = lookup::named_pattern(entries, identifier)->Ok_0;
    if stands_in_elements(pattern.elements, part) {
        lemma_element_parts(pattern.elements, part, Quality::Sound);
    } else {
        lemma_upon_has(entries, pattern, names, Quality::Sound);
        lemma_entry_parts(entries[names.last()], part, Quality::Sound);
    }
    if part is Expression && part->Expression_0 is Select {
        let selector = part->Expression_0->selector;
        let variants = part->Expression_0->variants;
        assert forall|i: int, number: Seq<char>|
            0 <= i < variants.len() && #[trigger] spells(selector, number)
                && nesting::is_plural_key((#[trigger] variants[i]).key) implies
            nesting::fraction_length(number) <= 19 by {
            assert(nesting::chooses_plural(variants));
            lemma_spelled_is_short(selector, number);
        }
    }
}

} // verus!
