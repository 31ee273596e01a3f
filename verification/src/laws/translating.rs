//! What a translation is made of: the pattern that an identifier names, the arguments that variables
//! become, and the errors that come with the text.

use crate::date;
use crate::errors;
use crate::laws;
use crate::laws::finding;
use crate::lookup;
use crate::references;
use crate::store;
use crate::syntax;
use crate::translations;
use crate::variables;
use crate::variables::Variable;
use crate::variables::VariableKey;
use crate::variables::VariableValue;
use vstd::prelude::*;

verus! {

/// Whether a text holds no full stop.
pub open spec fn is_unstopped(text: Seq<char>) -> bool {
    forall|k: int| 0 <= k < text.len() ==> #[trigger] text[k] != '.'
}

/// Whether index `i` is the first at which an attribute has a name.
pub open spec fn is_first_named(
    attributes: Seq<syntax::AttributeView>,
    i: int,
    name: Seq<char>,
) -> bool {
    &&& 0 <= i < attributes.len()
    &&& attributes[i].id == name
    &&& forall|k: int| 0 <= k < i ==> (#[trigger] attributes[k]).id != name
}

/// Whether no attribute has a name.
pub open spec fn is_unnamed(attributes: Seq<syntax::AttributeView>, name: Seq<char>) -> bool {
    forall|k: int| 0 <= k < attributes.len() ==> (#[trigger] attributes[k]).id != name
}

/// The value of an attribute is found at whichever index the attribute stands. Of several with one
/// name, the first one counts. Nothing is found exactly where no attribute has the name.
pub proof fn law_attributes_are_found_by_name(
    attributes: Seq<syntax::AttributeView>,
    name: Seq<char>,
)
    ensures
        forall|i: int| #[trigger]
            is_first_named(attributes, i, name) ==> store::attribute_value(attributes, name)
                == Some(attributes[i].value),
        store::attribute_value(attributes, name) is None <==> is_unnamed(attributes, name),
        store::attribute_value(attributes, name) is Some <==> exists|i: int|
            0 <= i < attributes.len() && (#[trigger] attributes[i]).id == name,
    decreases attributes.len(),
{
    if attributes.len() > 0 {
        let rest = attributes.drop_first();
        law_attributes_are_found_by_name(rest, name);
        assert forall|k: int| 0 <= k < rest.len() implies #[trigger] rest[k] == attributes[k
            + 1] by {}
        if attributes[0].id != name {
            assert forall|i: int| #[trigger]
                is_first_named(attributes, i, name) implies store::attribute_value(
                attributes,
                name,
            ) == Some(attributes[i].value) by {
                assert forall|k: int| 0 <= k < i - 1 implies (#[trigger] rest[k]).id != name by {
                    assert(attributes[k + 1].id != name);
                }
                assert(is_first_named(rest, i - 1, name));
            }
            if is_unnamed(rest, name) {
                assert forall|k: int| 0 <= k < attributes.len() implies (
                #[trigger] attributes[k]).id != name by {
                    if k > 0 {
                        assert(rest[k - 1] == attributes[k]);
                    }
                }
            } else {
                let k = choose|k: int| 0 <= k < rest.len() && (#[trigger] rest[k]).id == name;
                assert(attributes[k + 1].id == name);
            }
        }
    }
}

/// Some attribute has a name exactly where one is the first to have it.
pub proof fn lemma_first_named(attributes: Seq<syntax::AttributeView>, name: Seq<char>) -> (i: int)
    requires
        !is_unnamed(attributes, name),
    ensures
        is_first_named(attributes, i, name),
    decreases attributes.len(),
{
    if attributes[0].id == name {
        assert(is_first_named(attributes, 0, name));
        0
    } else {
        let rest = attributes.drop_first();
        let k = choose|k: int|
            0 <= k < attributes.len() && (#[trigger] attributes[k]).id == name;
        assert(rest[k - 1].id == name);
        let i = lemma_first_named(rest, name);
        assert(attributes[i + 1] == rest[i]);
        assert forall|k: int| 0 <= k < i + 1 implies (#[trigger] attributes[k]).id != name by {
            if k > 0 {
                assert(rest[k - 1] == attributes[k]);
            }
        }
        i + 1
    }
}

/// Where the first full stop lies.
pub proof fn lemma_stop_at(text: Seq<char>, i: int)
    requires
        0 <= i <= text.len(),
        is_unstopped(text.take(i)),
        i < text.len() ==> text[i] == '.',
    ensures
        lookup::first_stop(text) == i,
    decreases text.len(),
{
    if i > 0 {
        let rest = text.drop_first();
        assert(text.take(i)[0] == text[0]);
        assert forall|k: int| 0 <= k < rest.take(i - 1).len() implies #[trigger] rest.take(
            i - 1,
        )[k] != '.' by {
            assert(rest.take(i - 1)[k] == text.take(i)[k + 1]);
        }
        lemma_stop_at(rest, i - 1);
    }
}

/// An identifier is split at its first full stop, whatever follows: before it stands the name of a
/// message, behind it that of an attribute. Without a full stop, all of it is the name of a message.
pub proof fn law_first_stop_splits(id: Seq<char>, attribute: Seq<char>)
    requires
        is_unstopped(id),
    ensures
        lookup::split_identifier(id) == (id, None::<Seq<char>>),
        lookup::split_identifier(id + seq!['.'] + attribute) == (id, Some(attribute)),
        lookup::root_reference(id) == (references::ReferenceView::Message { id, attribute: None }),
        lookup::root_reference(id + seq!['.'] + attribute) == (references::ReferenceView::Message {
            id,
            attribute: Some(attribute),
        }),
{
    let whole = id + seq!['.'] + attribute;
    assert(id.take(id.len() as int) =~= id);
    lemma_stop_at(id, id.len() as int);
    assert(whole.take(id.len() as int) =~= id);
    assert(whole[id.len() as int] == '.');
    lemma_stop_at(whole, id.len() as int);
    assert(whole.skip((id.len() + 1) as int) =~= attribute);
}

/// A name without an attribute stands for the value of the message under it. Where there is no
/// message, the name is said not to be found; where the message has no value, that is said.
pub proof fn law_names_stand_for_values(entries: store::Entries, id: Seq<char>)
    requires
        is_unstopped(id),
    ensures
        !(entries.contains_key(id) && entries[id] is Message) ==> lookup::named_pattern(entries, id)
            == Err::<syntax::PatternView, Seq<char>>(id + " not found"@),
        entries.contains_key(id) && entries[id] is Message ==> (
        match entries[id]->Message_0.value {
            Some(value) => lookup::named_pattern(entries, id) == Ok::<
                syntax::PatternView,
                Seq<char>,
            >(value),
            None => lookup::named_pattern(entries, id) == Err::<syntax::PatternView, Seq<char>>(
                id + " - Message has no value."@,
            ),
        }),
{
    law_first_stop_splits(id, Seq::empty());
}

/// A name with an attribute behind a full stop stands for the value of the first attribute of that
/// name, at whichever index it stands in the message. Where there is no message, or no such
/// attribute, that is said.
pub proof fn law_names_stand_for_attributes(
    entries: store::Entries,
    id: Seq<char>,
    attribute: Seq<char>,
)
    requires
        is_unstopped(id),
    ensures
        !(entries.contains_key(id) && entries[id] is Message) ==> lookup::named_pattern(
            entries,
            id + seq!['.'] + attribute,
        ) == Err::<syntax::PatternView, Seq<char>>(id + " not found"@),
        entries.contains_key(id) && entries[id] is Message ==> forall|i: int| #[trigger]
            is_first_named(entries[id]->Message_0.attributes, i, attribute)
                ==> lookup::named_pattern(entries, id + seq!['.'] + attribute) == Ok::<
                syntax::PatternView,
                Seq<char>,
            >(entries[id]->Message_0.attributes[i].value),
        entries.contains_key(id) && entries[id] is Message && is_unnamed(
            entries[id]->Message_0.attributes,
            attribute,
        ) ==> lookup::named_pattern(entries, id + seq!['.'] + attribute) == Err::<
            syntax::PatternView,
            Seq<char>,
        >(
            id + seq!['.'] + attribute + " - Attribute '"@ + attribute
                + "' not found on message '"@ + id + "'."@,
        ),
{
    law_first_stop_splits(id, attribute);
    if entries.contains_key(id) && entries[id] is Message {
        law_attributes_are_found_by_name(entries[id]->Message_0.attributes, attribute);
    }
}

/// Whether a value is one that messages take: a text, an integer that fits, or a date that exists.
pub open spec fn is_taken(value: VariableValue) -> bool {
    match value {
        VariableValue::Text(_) => true,
        VariableValue::Integer(integer) => integer is Some,
        VariableValue::Date { year, month, day } => date::is_date(
            date::DateView { year: year as int, month: month as int, day: day as int },
        ),
        VariableValue::Other => false,
    }
}

/// Whether the variable at an index is the last one with its key, which is a text.
pub open spec fn is_last_keyed(variables: Seq<Variable>, i: int, key: Seq<char>) -> bool {
    &&& 0 <= i < variables.len()
    &&& variables[i].key matches VariableKey::Text(text)
    &&& text@ == key
    &&& forall|k: int|
        i < k < variables.len() ==> !((#[trigger] variables[k]).key matches VariableKey::Text(text)
            && text@ == key)
}

/// Whether all keys are texts.
pub open spec fn keys_are_texts(variables: Seq<Variable>) -> bool {
    forall|i: int| 0 <= i < variables.len() ==> (#[trigger] variables[i]).key is Text
}

/// Whether arguments are those that variables stand for: under each key the value of the last
/// variable that has it, and nothing under any other name. A text stands for itself, an integer for
/// that very integer, a date for its notation. Where messages do not take the value, the key stands
/// in.
pub open spec fn stand_for(variables: Seq<Variable>, arguments: store::Arguments) -> bool {
    &&& forall|key: Seq<char>| #[trigger]
        arguments.contains_key(key) ==> exists|i: int| is_last_keyed(variables, i, key)
    &&& forall|i: int, key: Seq<char>| #[trigger]
        is_last_keyed(variables, i, key) ==> {
            &&& arguments.contains_key(key)
            &&& variables[i].value matches VariableValue::Text(text) ==> arguments[key]
                == store::ArgumentView::Text(text@)
            &&& variables[i].value matches VariableValue::Integer(Some(integer)) ==> arguments[key]
                == store::ArgumentView::Integer(integer)
            &&& variables[i].value matches VariableValue::Date { year, month, day } ==> (is_taken(
                variables[i].value,
            ) ==> arguments[key] == store::ArgumentView::Text(
                date::iso_date(
                    date::DateView { year: year as int, month: month as int, day: day as int },
                ),
            ))
            &&& !is_taken(variables[i].value) ==> arguments[key] == store::ArgumentView::Text(key)
        }
}

/// Arguments that the same variables stand for are the same.
proof fn lemma_arguments_are_unique(
    variables: Seq<Variable>,
    left: store::Arguments,
    right: store::Arguments,
)
    requires
        stand_for(variables, left),
        stand_for(variables, right),
    ensures
        left == right,
{
    assert forall|key: Seq<char>| #[trigger] left.contains_key(key) implies right.contains_key(key)
        && left[key] == right[key] by {
        let i = choose|i: int| is_last_keyed(variables, i, key);
        assert(is_last_keyed(variables, i, key));
    }
    assert forall|key: Seq<char>| #[trigger] right.contains_key(key) implies left.contains_key(
        key,
    ) by {
        let i = choose|i: int| is_last_keyed(variables, i, key);
        assert(is_last_keyed(variables, i, key));
    }
    assert(left =~= right);
}

/// Variables become the arguments that they stand for, an integer in particular itself, whichever
/// it is.
pub proof fn law_variables_stand_for_arguments(variables: Seq<Variable>)
    requires
        keys_are_texts(variables),
    ensures
        variables::variables_arguments(variables) matches Ok(collected) && stand_for(
            variables,
            collected.arguments,
        ),
    decreases variables.len(),
{
    if variables.len() == 0 {
        let none = variables::variables_arguments(variables)->Ok_0.arguments;
        assert(stand_for(variables, none));
    } else {
        let n = variables.len() - 1;
        let front = variables.drop_last();
        assert forall|i: int| 0 <= i < front.len() implies (#[trigger] front[i]).key is Text by {
            assert(variables[i].key is Text);
        }
        law_variables_stand_for_arguments(front);
        let before = variables::variables_arguments(front)->Ok_0.arguments;
        assert(variables[n].key is Text);
        let last = variables[n].key->Text_0@;
        let after = variables::variables_arguments(variables)->Ok_0.arguments;
        assert(is_last_keyed(variables, n, last));
        assert forall|key: Seq<char>| #[trigger] after.contains_key(key) implies exists|i: int|
            is_last_keyed(variables, i, key) by {
            if key != last {
                assert(before.contains_key(key));
                let i = choose|i: int| is_last_keyed(front, i, key);
                assert forall|k: int| i < k < variables.len() implies !((
                #[trigger] variables[k]).key matches VariableKey::Text(text) && text@ == key) by {
                    if k < n {
                        assert(front[k] == variables[k]);
                    }
                }
                assert(is_last_keyed(variables, i, key));
            }
        }
        assert forall|i: int, key: Seq<char>| #[trigger] is_last_keyed(variables, i, key) implies {
            &&& after.contains_key(key)
            &&& variables[i].value matches VariableValue::Text(text) ==> after[key]
                == store::ArgumentView::Text(text@)
            &&& variables[i].value matches VariableValue::Integer(Some(integer)) ==> after[key]
                == store::ArgumentView::Integer(integer)
            &&& variables[i].value matches VariableValue::Date { year, month, day } ==> (is_taken(
                variables[i].value,
            ) ==> after[key] == store::ArgumentView::Text(
                date::iso_date(
                    date::DateView { year: year as int, month: month as int, day: day as int },
                ),
            ))
            &&& !is_taken(variables[i].value) ==> after[key] == store::ArgumentView::Text(key)
        } by {
            if i < n {
                assert(variables[n].key is Text);
                assert(key != last);
                assert(is_last_keyed(front, i, key));
            }
        }
    }
}

/// The errors on variables are those on the variables whose values messages do not take, one each
/// and in order. Each says the key.
pub proof fn law_unsupported_variables(variables: Seq<Variable>) -> (at: Seq<int>)
    requires
        keys_are_texts(variables),
    ensures
        finding::picks(at, variables.len() as int, |i: int| !is_taken(variables[i].value)),
        variables::variables_arguments(variables) matches Ok(collected) && collected.errors.len()
            == at.len() && forall|k: int|
            0 <= k < at.len() ==> #[trigger] collected.errors[k] == (errors::FormatErrorView {
                error_type: "InvalidVariableType"@,
                message: "Variable '"@ + variables[at[k]].key->Text_0@
                    + "' has unsupported type, expected str/int/date. Using key as fallback."@,
            }),
    decreases variables.len(),
{
    let chosen = |i: int| !is_taken(variables[i].value);
    if variables.len() == 0 {
        finding::lemma_picks_none(chosen);
        Seq::empty()
    } else {
        let n = variables.len() - 1;
        let front = variables.drop_last();
        assert forall|i: int| 0 <= i < front.len() implies (#[trigger] front[i]).key is Text by {
            assert(variables[i].key is Text);
        }
        assert(variables[n].key is Text);
        let before = law_unsupported_variables(front);
        finding::lemma_picks_step(
            before,
            n,
            |i: int| !is_taken(front[i].value),
            chosen,
        )
    }
}

/// Where some key is not a text, there are no arguments, and what is said speaks of the first such
/// key.
pub proof fn law_first_faulty_key(variables: Seq<Variable>, i: int)
    requires
        0 <= i < variables.len(),
        !(variables[i].key is Text),
        keys_are_texts(variables.take(i)),
    ensures
        variables::variables_arguments(variables) == Err::<variables::ArgumentsView, Seq<char>>(
            "Variable key not a str, got "@ + variables[i].key->Other_0@ + "."@,
        ),
    decreases variables.len(),
{
    let front = variables.drop_last();
    if i < variables.len() - 1 {
        assert(front.take(i) =~= variables.take(i));
        law_first_faulty_key(front, i);
    } else {
        assert(variables.take(i) =~= front);
        law_variables_stand_for_arguments(front);
    }
}

/// Whether the errors of a translation are those on variables, followed by those of a formatting.
pub open spec fn are_all_errors(
    all: Seq<errors::FormatErrorView>,
    variables: Seq<Variable>,
    at: Seq<int>,
    formatting: Seq<store::FluentErrorView>,
) -> bool {
    &&& all.len() == at.len() + formatting.len()
    &&& forall|k: int|
        0 <= k < at.len() ==> #[trigger] all[k] == (errors::FormatErrorView {
            error_type: "InvalidVariableType"@,
            message: "Variable '"@ + variables[at[k]].key->Text_0@
                + "' has unsupported type, expected str/int/date. Using key as fallback."@,
        })
    &&& forall|k: int|
        at.len() <= k < all.len() ==> (#[trigger] all[k]).message == formatting[k
            - at.len()].message
    &&& forall|k: int|
        at.len() <= k < all.len() ==> (#[trigger] all[k]).error_type == match formatting[k
            - at.len()].class {
            store::ErrorClass::Overriding => "Overriding"@,
            store::ErrorClass::ParserError => "ParserError"@,
            store::ErrorClass::ResolverError => "ResolverError"@,
        }
}

/// Whether a translation was made out of a formatting: its text is that of the formatting, and its
/// errors are those on variables, followed by those of the formatting.
pub open spec fn is_translation(
    outcome: Result<translations::TranslationView, translations::TranslationErrorView>,
    formatting: store::FormattedView,
    variables: Seq<Variable>,
    at: Seq<int>,
) -> bool {
    outcome matches Ok(translation) && translation.text == formatting.text && are_all_errors(
        translation.errors,
        variables,
        at,
        formatting.errors,
    )
}

/// What formatting a pattern gives in a store, with a setting for directionality marks, is what a
/// translation gives: the text is that of the formatting, with the arguments that the variables
/// stand for. The errors are those on variables, followed by those of the formatting.
proof fn lemma_translation_of_pattern(
    settings: store::SettingsView,
    entries: store::Entries,
    identifier: Seq<char>,
    pattern: syntax::PatternView,
    variables: Seq<Variable>,
    arguments: store::Arguments,
) -> (at: Seq<int>)
    requires
        lookup::named_pattern(entries, identifier) == Ok::<syntax::PatternView, Seq<char>>(pattern),
        keys_are_texts(variables),
        stand_for(variables, arguments),
    ensures
        finding::picks(at, variables.len() as int, |i: int| !is_taken(variables[i].value)),
        is_translation(
            translations::translated(settings, entries, identifier, variables),
            store::formatted(
                settings.language,
                entries,
                settings.isolating,
                pattern,
                arguments,
            ),
            variables,
            at,
        ),
{
    law_variables_stand_for_arguments(variables);
    let collected = variables::variables_arguments(variables)->Ok_0;
    lemma_arguments_are_unique(variables, arguments, collected.arguments);
    let at = law_unsupported_variables(variables);
    let all = translations::translated(settings, entries, identifier, variables)->Ok_0.errors;
    let formatting = store::formatted(
        settings.language,
        entries,
        settings.isolating,
        pattern,
        arguments,
    ).errors;
    assert forall|k: int| 0 <= k < at.len() implies #[trigger] all[k] == collected.errors[k] by {}
    assert forall|k: int| at.len() <= k < all.len() implies #[trigger] all[k]
        == errors::format_error(formatting[k - at.len()]) by {}
    at
}

/// Asking for the name of a message formats its value: the text is what the formatter makes of that
/// very pattern, with the arguments that the variables stand for and the setting of the call, and
/// the errors are those on variables, followed by those of the formatter.
pub proof fn law_messages_are_translated(
    settings: store::SettingsView,
    entries: store::Entries,
    id: Seq<char>,
    variables: Seq<Variable>,
    arguments: store::Arguments,
) -> (at: Seq<int>)
    requires
        is_unstopped(id),
        entries.contains_key(id),
        entries[id] is Message,
        entries[id]->Message_0.value is Some,
        keys_are_texts(variables),
        stand_for(variables, arguments),
    ensures
        finding::picks(at, variables.len() as int, |i: int| !is_taken(variables[i].value)),
        is_translation(
            translations::translated(settings, entries, id, variables),
            store::formatted(
                settings.language,
                entries,
                settings.isolating,
                entries[id]->Message_0.value->0,
                arguments,
            ),
            variables,
            at,
        ),
{
    law_names_stand_for_values(entries, id);
    lemma_translation_of_pattern(
        settings,
        entries,
        id,
        entries[id]->Message_0.value->0,
        variables,
        arguments,
    )
}

/// Asking for an attribute of a message formats the attribute, with the same arguments and the same
/// setting as asking for the message formats its value.
pub proof fn law_attributes_are_translated(
    settings: store::SettingsView,
    entries: store::Entries,
    id: Seq<char>,
    attribute: Seq<char>,
    i: int,
    variables: Seq<Variable>,
    arguments: store::Arguments,
) -> (at: Seq<int>)
    requires
        is_unstopped(id),
        entries.contains_key(id),
        entries[id] is Message,
        is_first_named(entries[id]->Message_0.attributes, i, attribute),
        keys_are_texts(variables),
        stand_for(variables, arguments),
    ensures
        finding::picks(at, variables.len() as int, |i: int| !is_taken(variables[i].value)),
        is_translation(
            translations::translated(settings, entries, id + seq!['.'] + attribute, variables),
            store::formatted(
                settings.language,
                entries,
                settings.isolating,
                entries[id]->Message_0.attributes[i].value,
                arguments,
            ),
            variables,
            at,
        ),
{
    law_names_stand_for_attributes(entries, id, attribute);
    lemma_translation_of_pattern(
        settings,
        entries,
        id + seq!['.'] + attribute,
        entries[id]->Message_0.attributes[i].value,
        variables,
        arguments,
    )
}

/// Asking for a name under which no message stands gives no translation, whatever the attribute and
/// the variables. Neither does asking for a value or an attribute that the message lacks.
pub proof fn law_missing_messages_are_not_translated(
    settings: store::SettingsView,
    entries: store::Entries,
    id: Seq<char>,
    attribute: Seq<char>,
    variables: Seq<Variable>,
)
    requires
        is_unstopped(id),
    ensures
        !(entries.contains_key(id) && entries[id] is Message) ==> {
            &&& translations::translated(settings, entries, id, variables) == Err::<
                translations::TranslationView,
                translations::TranslationErrorView,
            >(translations::TranslationErrorView::Value(id + " not found"@))
            &&& translations::translated(settings, entries, id + seq!['.'] + attribute, variables)
                == Err::<translations::TranslationView, translations::TranslationErrorView>(
                translations::TranslationErrorView::Value(id + " not found"@),
            )
        },
        entries.contains_key(id) && entries[id] is Message && entries[id]->Message_0.value is None
            ==> translations::translated(settings, entries, id, variables) == Err::<
            translations::TranslationView,
            translations::TranslationErrorView,
        >(translations::TranslationErrorView::Value(id + " - Message has no value."@)),
        entries.contains_key(id) && entries[id] is Message && is_unnamed(
            entries[id]->Message_0.attributes,
            attribute,
        ) ==> translations::translated(settings, entries, id + seq!['.'] + attribute, variables)
            == Err::<translations::TranslationView, translations::TranslationErrorView>(
            translations::TranslationErrorView::Value(
                id + seq!['.'] + attribute + " - Attribute '"@ + attribute
                    + "' not found on message '"@ + id + "'."@,
            ),
        ),
{
    law_names_stand_for_values(entries, id);
    law_names_stand_for_attributes(entries, id, attribute);
}

/// Where what is asked for is there, a key that is not a text stops the translation. What is said
/// speaks of the first such key.
pub proof fn law_faulty_keys_stop_translations(
    settings: store::SettingsView,
    entries: store::Entries,
    id: Seq<char>,
    attribute: Seq<char>,
    variables: Seq<Variable>,
    i: int,
)
    requires
        is_unstopped(id),
        entries.contains_key(id),
        entries[id] is Message,
        0 <= i < variables.len(),
        !(variables[i].key is Text),
        keys_are_texts(variables.take(i)),
    ensures
        entries[id]->Message_0.value is Some ==> translations::translated(
            settings,
            entries,
            id,
            variables,
        ) == Err::<translations::TranslationView, translations::TranslationErrorView>(
            translations::TranslationErrorView::Type(
                "Variable key not a str, got "@ + variables[i].key->Other_0@ + "."@,
            ),
        ),
        !is_unnamed(entries[id]->Message_0.attributes, attribute) ==> translations::translated(
            settings,
            entries,
            id + seq!['.'] + attribute,
            variables,
        ) == Err::<translations::TranslationView, translations::TranslationErrorView>(
            translations::TranslationErrorView::Type(
                "Variable key not a str, got "@ + variables[i].key->Other_0@ + "."@,
            ),
        ),
{
    law_names_stand_for_values(entries, id);
    law_names_stand_for_attributes(entries, id, attribute);
    law_first_faulty_key(variables, i);
    if !is_unnamed(entries[id]->Message_0.attributes, attribute) {
        let k = lemma_first_named(entries[id]->Message_0.attributes, attribute);
    }
}

/// The errors of a translation are of two types: those on variables, and those of the formatter.
pub proof fn law_translations_know_two_error_types(error_type: Seq<char>)
    ensures
        translations::is_known_type(error_type) <==> error_type == "InvalidVariableType"@
            || error_type == "ResolverError"@,
{
}

/// A list of variables that is missing is one without variables, and one that is there is taken
/// whole.
pub proof fn law_missing_variables_are_none(list: Option<&Vec<Variable>>)
    ensures
        list is None ==> translations::variables_given(list).len() == 0,
        list matches Some(given) ==> translations::variables_given(list) == given@,
{
}

/// A bundle that was made from files translates each message as it stands in its file, unless a
/// later entry took the name: the value under the name of the message, and the first attribute of
/// each name under that name behind a full stop.
pub proof fn law_loaded_messages_are_translated(
    bundle: translations::Bundle,
    files: Seq<translations::SourceFileView>,
    strict: bool,
    validate_references: bool,
    f: int,
    i: int,
    use_isolating: bool,
    variables: Seq<Variable>,
    arguments: store::Arguments,
) -> (at: Seq<int>)
    requires
        bundle.wf(),
        translations::loaded_files(files, strict, validate_references) == Ok::<
            translations::LoadedView,
            translations::BundleErrorView,
        >(translations::LoadedView { entries: bundle.entries(), errors: bundle.errors() }),
        0 <= f < files.len(),
        0 <= i < laws::file_entries(files[f]).len(),
        laws::file_entries(files[f])[i] is Message,
        laws::is_last_in_files(files, f, i, laws::file_entries(files[f])[i]->Message_0.id),
        keys_are_texts(variables),
        stand_for(variables, arguments),
    ensures
        finding::picks(at, variables.len() as int, |i: int| !is_taken(variables[i].value)),
        ({
            let message = laws::file_entries(files[f])[i]->Message_0;
            let settings = store::SettingsView { isolating: use_isolating, ..bundle.settings() };
            &&& message.value matches Some(value) ==> is_translation(
                translations::translated(settings, bundle.entries(), message.id, variables),
                store::formatted(
                    bundle.settings().language,
                    bundle.entries(),
                    use_isolating,
                    value,
                    arguments,
                ),
                variables,
                at,
            )
            &&& forall|k: int, name: Seq<char>| #[trigger]
                is_first_named(message.attributes, k, name) ==> is_translation(
                    translations::translated(
                        settings,
                        bundle.entries(),
                        message.id + seq!['.'] + name,
                        variables,
                    ),
                    store::formatted(
                        bundle.settings().language,
                        bundle.entries(),
                        use_isolating,
                        message.attributes[k].value,
                        arguments,
                    ),
                    variables,
                    at,
                )
        }),
{
    let message = laws::file_entries(files[f])[i]->Message_0;
    let entries = bundle.entries();
    let settings = store::SettingsView { isolating: use_isolating, ..bundle.settings() };
    laws::law_last_definition_counts(files, strict, validate_references, f, i, message.id);
    bundle.lemma_names();
    assert(is_unstopped(message.id));
    let at = law_unsupported_variables(variables);
    if message.value is Some {
        let same = law_messages_are_translated(
            settings,
            entries,
            message.id,
            variables,
            arguments,
        );
        finding::lemma_picks_unique(
            at,
            same,
            variables.len() as int,
            |i: int| !is_taken(variables[i].value),
        );
    }
    assert forall|k: int, name: Seq<char>| #[trigger]
        is_first_named(message.attributes, k, name) implies is_translation(
        translations::translated(settings, entries, message.id + seq!['.'] + name, variables),
        store::formatted(
            settings.language,
            entries,
            use_isolating,
            message.attributes[k].value,
            arguments,
        ),
        variables,
        at,
    ) by {
        let same = law_attributes_are_translated(
            settings,
            entries,
            message.id,
            name,
            k,
            variables,
            arguments,
        );
        finding::lemma_picks_unique(
            at,
            same,
            variables.len() as int,
            |i: int| !is_taken(variables[i].value),
        );
    }
    at
}

/// A name that no file defines is not found.
pub proof fn law_unloaded_names_are_not_found(
    files: Seq<translations::SourceFileView>,
    strict: bool,
    validate_references: bool,
    name: Seq<char>,
)
    requires
        translations::loaded_files(files, strict, validate_references) is Ok,
        forall|f: int, i: int|
            0 <= f < files.len() && 0 <= i < laws::file_entries(files[f]).len()
                ==> laws::stored_name(#[trigger] laws::file_entries(files[f])[i]) != Some(name),
    ensures
        !translations::loaded_files(files, strict, validate_references)->Ok_0.entries.contains_key(
            name,
        ),
    decreases files.len(),
{
    if files.len() > 0 {
        let front = files.drop_last();
        let n = files.len() - 1;
        assert forall|f: int, i: int|
            0 <= f < front.len() && 0 <= i < laws::file_entries(front[f]).len() implies
            laws::stored_name(#[trigger] laws::file_entries(front[f])[i]) != Some(name) by {
            assert(laws::stored_name(laws::file_entries(files[f])[i]) != Some(name));
        }
        law_unloaded_names_are_not_found(front, strict, validate_references, name);
        let before = translations::loaded_files(front, strict, validate_references)->Ok_0;
        let added = laws::file_entries(files[n]);
        assert forall|k: int| 0 <= k < added.len() implies laws::stored_name(#[trigger] added[k])
            != Some(name) by {
            assert(laws::stored_name(laws::file_entries(files[n])[k]) != Some(name));
        }
        laws::law_other_names_stay(before.entries, added, name);
    }
}

} // verus!
