//! Looking up the pattern that an identifier names.

use crate::references;
use crate::store;
use crate::syntax;
use fluent_bundle::concurrent::FluentBundle;
use fluent_bundle::FluentResource;
use fluent_syntax::ast;
use vstd::prelude::*;
use vstd::string::StrSliceExecFns;
use vstd::string::StringExecFns;

verus! {

/// The index of the first full stop of a text, or the length of the text where there is none.
pub open spec fn first_stop(text: Seq<char>) -> int
    decreases text.len(),
{
    if text.len() == 0 || text[0] == '.' {
        0
    } else {
        first_stop(text.drop_first()) + 1
    }
}

/// Splits an identifier at its first full stop, into that of a message and that of an attribute.
pub open spec fn split_identifier(identifier: Seq<char>) -> (Seq<char>, Option<Seq<char>>) {
    let stop = first_stop(identifier);
    if stop < identifier.len() {
        (identifier.take(stop), Some(identifier.skip(stop + 1)))
    } else {
        (identifier, None)
    }
}

/// The reference that an identifier spells.
pub open spec fn root_reference(identifier: Seq<char>) -> references::ReferenceView {
    let (id, attribute) = split_identifier(identifier);
    references::ReferenceView::Message { id, attribute }
}

/// What is said of a message that the store lacks.
pub open spec fn not_found(id: Seq<char>) -> Seq<char> {
    id + " not found"@
}

/// What is said of an attribute that a message lacks.
pub open spec fn attribute_not_found(
    identifier: Seq<char>,
    id: Seq<char>,
    attribute: Seq<char>,
) -> Seq<char> {
    identifier + " - Attribute '"@ + attribute + "' not found on message '"@ + id + "'."@
}

/// What is said of a message without a value.
pub open spec fn has_no_value(identifier: Seq<char>) -> Seq<char> {
    identifier + " - Message has no value."@
}

/// The pattern of a message that an identifier with these two parts names, or what is said where it
/// names none.
pub open spec fn message_pattern(
    message: Option<store::StoredMessageView>,
    identifier: Seq<char>,
    id: Seq<char>,
    attribute: Option<Seq<char>>,
) -> Result<syntax::PatternView, Seq<char>> {
    match message {
        None => Err(not_found(id)),
        Some(message) => match attribute {
            Some(attribute) => match store::attribute_value(message.attributes, attribute) {
                Some(pattern) => Ok(pattern),
                None => Err(attribute_not_found(identifier, id, attribute)),
            },
            None => match message.value {
                Some(pattern) => Ok(pattern),
                None => Err(has_no_value(identifier)),
            },
        },
    }
}

/// The pattern that an identifier names, or what is said where it names none.
pub open spec fn named_pattern(entries: store::Entries, identifier: Seq<char>) -> Result<
    syntax::PatternView,
    Seq<char>,
> {
    let (id, attribute) = split_identifier(identifier);
    message_pattern(store::message_under(entries, id), identifier, id, attribute)
}

/// The view of a pattern that was found, or of what is said instead.
pub open spec fn pattern_outcome(pattern: Result<&ast::Pattern<&str>, String>) -> Result<
    syntax::PatternView,
    Seq<char>,
> {
    match pattern {
        Ok(pattern) => Ok(syntax::pattern_view(*pattern)),
        Err(message) => Err(message@),
    }
}

/// The first full stop of a text lies in the text, or at its end.
pub proof fn lemma_stop_range(text: Seq<char>)
    ensures
        0 <= first_stop(text) <= text.len(),
    decreases text.len(),
{
    if text.len() > 0 && text[0] != '.' {
        lemma_stop_range(text.drop_first());
    }
}

/// A text without a full stop before an index has its first full stop no earlier.
proof fn lemma_first_stop(text: Seq<char>, i: int)
    requires
        0 <= i <= text.len(),
        forall|k: int| 0 <= k < i ==> #[trigger] text[k] != '.',
        i < text.len() ==> text[i] == '.',
    ensures
        first_stop(text) == i,
    decreases text.len(),
{
    if i > 0 {
        let rest = text.drop_first();
        assert forall|k: int| 0 <= k < i - 1 implies #[trigger] rest[k] != '.' by {
            assert(rest[k] == text[k + 1]);
        }
        lemma_first_stop(rest, i - 1);
    }
}

/// Splits an identifier at its first full stop.
pub fn split<'a>(identifier: &'a str) -> (parts: (&'a str, Option<&'a str>))
    ensures
        parts.0@ == split_identifier(identifier@).0,
        match parts.1 {
            Some(attribute) => split_identifier(identifier@).1 == Some(attribute@),
            None => split_identifier(identifier@).1 is None,
        },
{
    let length: usize = identifier.unicode_len();
    let mut i: usize = 0;
    while i < length
        invariant
            i <= length == identifier@.len(),
            forall|k: int| 0 <= k < i ==> #[trigger] identifier@[k] != '.',
        decreases length - i,
    {
        if identifier.get_char(i) == '.' {
            proof {
                lemma_first_stop(identifier@, i as int);
                assert(identifier@.subrange(i + 1, length as int) =~= identifier@.skip(i + 1));
                assert(identifier@.subrange(0, i as int) =~= identifier@.take(i as int));
            }
            let id = identifier.substring_char(0, i);
            let attribute = identifier.substring_char(i + 1, length);
            return (id, Some(attribute));
        }
        i = i + 1;
    }
    proof {
        lemma_first_stop(identifier@, length as int);
    }
    (identifier, None)
}

/// The pattern of a message that an identifier with these two parts names, or what is said where it
/// names none.
pub fn choose_pattern<'b>(
    message: Option<store::StoredMessage<'b>>,
    identifier: &str,
    id: &str,
    attribute: Option<&str>,
) -> (pattern: Result<&'b ast::Pattern<&'b str>, String>)
    ensures
        pattern_outcome(pattern) == message_pattern(
            store::stored_message_view(message),
            identifier@,
            id@,
            match attribute {
                Some(attribute) => Some(attribute@),
                None => None,
            },
        ),
{
    match message {
        Some(message) => match attribute {
            Some(attribute) => match message.get_attribute(attribute) {
                Some(pattern) => Ok(pattern),
                None => {
                    let mut text = identifier.to_owned();
                    text.append(" - Attribute '");
                    text.append(attribute);
                    text.append("' not found on message '");
                    text.append(id);
                    text.append("'.");
                    Err(text)
                },
            },
            None => match message.value {
                Some(pattern) => Ok(pattern),
                None => {
                    let mut text = identifier.to_owned();
                    text.append(" - Message has no value.");
                    Err(text)
                },
            },
        },
        None => {
            let mut text = id.to_owned();
            text.append(" not found");
            Err(text)
        },
    }
}

/// The pattern that an identifier names, or what is said where it names none.
pub fn find_pattern<'b>(
    bundle: &'b FluentBundle<FluentResource>,
    identifier: &str,
) -> (pattern: Result<&'b ast::Pattern<&'b str>, String>)
    ensures
        pattern_outcome(pattern) == named_pattern(store::bundle_entries(*bundle), identifier@),
{
    let (id, attribute) = split(identifier);
    choose_pattern(store::get_message(bundle, id), identifier, id, attribute)
}

} // verus!
