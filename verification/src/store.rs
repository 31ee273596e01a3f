//! The message store: the bundle of `fluent_bundle`, its arguments and its errors.

use crate::expansion;
use crate::resource;
use crate::syntax;
use fluent::FluentArgs;
use fluent_bundle::concurrent::FluentBundle;
use fluent_bundle::FluentError;
use fluent_bundle::FluentResource;
use fluent_syntax::ast;
use unic_langid::LanguageIdentifier;
use unic_langid::LanguageIdentifierError;
use vstd::prelude::*;

verus! {

/// Declares `fluent_bundle::bundle::FluentBundle`.
#[verifier::external_type_specification]
#[verifier::external_body]
#[verifier::reject_recursive_types(R)]
#[verifier::reject_recursive_types(M)]
pub struct ExFluentBundle<R, M>(fluent_bundle::bundle::FluentBundle<R, M>);

/// Declares `intl_memoizer::concurrent::IntlLangMemoizer`, a type argument of the bundle.
#[verifier::external_type_specification]
#[verifier::external_body]
pub struct ExIntlLangMemoizer(intl_memoizer::concurrent::IntlLangMemoizer);

/// Declares `fluent::FluentArgs`.
#[verifier::external_type_specification]
#[verifier::external_body]
pub struct ExFluentArgs<'args>(FluentArgs<'args>);

/// Declares `fluent_bundle::FluentError`.
#[verifier::external_type_specification]
#[verifier::external_body]
pub struct ExFluentError(FluentError);

/// Declares `unic_langid::LanguageIdentifier`.
#[verifier::external_type_specification]
#[verifier::external_body]
pub struct ExLanguageIdentifier(LanguageIdentifier);

/// Declares `unic_langid::LanguageIdentifierError`.
#[verifier::external_type_specification]
#[verifier::external_body]
pub struct ExLanguageIdentifierError(LanguageIdentifierError);

// Languages

/// The canonical form of a language identifier that a text spells, or `None` where it spells none.
pub uninterp spec fn canonical_language(text: Seq<char>) -> Option<Seq<char>>;

/// The canonical form of a language identifier.
pub uninterp spec fn language_tag(language: LanguageIdentifier) -> Seq<char>;

/// `LanguageIdentifier::from_str`: reads a language identifier.
#[verifier::external_body]
pub(crate) fn parse_language(text: &str) -> (language: Result<
    LanguageIdentifier,
    LanguageIdentifierError,
>)
    ensures
        match language {
            Ok(language) => canonical_language(text@) == Some(language_tag(language)),
            Err(_) => canonical_language(text@) is None,
        },
{
    text.parse()
}

// Bundles

/// The messages and terms of a store, by identifier.
pub type Entries = Map<Seq<char>, syntax::EntryView>;

/// What a bundle holds for each identifier: the message or the term that was added last under it.
/// Terms stand under their identifier without the hyphen, and share the identifiers with messages.
pub uninterp spec fn bundle_entries(bundle: FluentBundle<FluentResource>) -> Entries;

/// The settings of a bundle.
pub struct SettingsView {
    /// The canonical form of the language that the bundle was made for.
    pub language: Seq<char>,
    /// Whether placeables are isolated by directionality marks.
    pub isolating: bool,
    /// Whether functions, a transformation or a formatter were installed.
    pub customised: bool,
}

/// The settings of a bundle.
pub uninterp spec fn bundle_settings(bundle: FluentBundle<FluentResource>) -> SettingsView;

/// Whether a store holds a message under an identifier.
pub open spec fn holds_message(entries: Entries, id: Seq<char>) -> bool {
    entries.contains_key(id) && entries[id] is Message
}

/// The store after an entry was added: a message or a term takes the place of whatever stood under
/// its identifier.
pub open spec fn with_entry(entries: Entries, entry: syntax::EntryView) -> Entries {
    match entry {
        syntax::EntryView::Message(message) => entries.insert(message.id, entry),
        syntax::EntryView::Term(term) => entries.insert(term.id, entry),
        syntax::EntryView::Other => entries,
    }
}

/// The store after a list of entries was added, in order.
pub open spec fn with_entries(entries: Entries, added: Seq<syntax::EntryView>) -> Entries
    decreases added.len(),
{
    if added.len() == 0 {
        entries
    } else {
        with_entry(with_entries(entries, added.drop_last()), added.last())
    }
}

/// `FluentBundle::new_concurrent` with a single locale: an empty bundle that isolates placeables.
#[verifier::external_body]
pub(crate) fn new_bundle(language: LanguageIdentifier) -> (bundle: FluentBundle<FluentResource>)
    ensures
        bundle_entries(bundle) == Entries::empty(),
        bundle_settings(bundle) == (SettingsView {
            language: language_tag(language),
            isolating: true,
            customised: false,
        }),
{
    FluentBundle::new_concurrent(vec![language])
}

/// `FluentBundle::set_use_isolating`: changes that setting alone.
#[verifier::external_body]
pub(crate) fn set_use_isolating(bundle: &mut FluentBundle<FluentResource>, value: bool)
    ensures
        bundle_entries(*final(bundle)) == bundle_entries(*old(bundle)),
        bundle_settings(*final(bundle)) == (SettingsView {
            isolating: value,
            ..bundle_settings(*old(bundle))
        }),
{
    bundle.set_use_isolating(value)
}

/// `FluentBundle::add_resource_overriding`: adds the messages and terms of a resource, each in the
/// place of what stood under its identifier.
#[verifier::external_body]
pub(crate) fn add_resource_overriding(
    bundle: &mut FluentBundle<FluentResource>,
    resource: FluentResource,
)
    ensures
        bundle_entries(*final(bundle)) == with_entries(
            bundle_entries(*old(bundle)),
            resource::resource_entries(resource),
        ),
        bundle_settings(*final(bundle)) == bundle_settings(*old(bundle)),
{
    bundle.add_resource_overriding(resource)
}

/// `FluentBundle::has_message`: whether a message, and not a term, stands under an identifier.
#[verifier::external_body]
pub(crate) fn has_message(bundle: &FluentBundle<FluentResource>, id: &str) -> (found: bool)
    ensures
        found == holds_message(bundle_entries(*bundle), id@),
{
    bundle.has_message(id)
}

/// A message as the store hands it out.
pub struct StoredMessage<'b> {
    pub value: Option<&'b ast::Pattern<&'b str>>,
    pub attributes: Vec<(&'b str, &'b ast::Pattern<&'b str>)>,
}

/// The view of the attributes of a stored message.
pub open spec fn stored_attributes_view(
    attributes: Seq<(&str, &ast::Pattern<&str>)>,
) -> Seq<syntax::AttributeView> {
    attributes.map_values(
        |a: (&str, &ast::Pattern<&str>)|
            syntax::AttributeView { id: a.0@, value: syntax::pattern_view(*a.1) },
    )
}

/// The view of the value of a stored message.
pub open spec fn stored_value_view(value: Option<&ast::Pattern<&str>>) -> Option<
    syntax::PatternView,
> {
    match value {
        Some(value) => Some(syntax::pattern_view(*value)),
        None => None,
    }
}

/// The view of a message as the store hands it out.
pub struct StoredMessageView {
    pub value: Option<syntax::PatternView>,
    pub attributes: Seq<syntax::AttributeView>,
}

/// The view of a message that the store may hand out.
pub open spec fn stored_message_view(message: Option<StoredMessage>) -> Option<StoredMessageView> {
    match message {
        Some(message) => Some(
            StoredMessageView {
                value: stored_value_view(message.value),
                attributes: stored_attributes_view(message.attributes@),
            },
        ),
        None => None,
    }
}

/// The value and the attributes of the message under an identifier, where there is one.
pub open spec fn message_under(entries: Entries, id: Seq<char>) -> Option<StoredMessageView> {
    if holds_message(entries, id) {
        let message = entries[id]->Message_0;
        Some(StoredMessageView { value: message.value, attributes: message.attributes })
    } else {
        None
    }
}

/// `FluentBundle::get_message`: the message under an identifier, with the value and the attributes
/// that `FluentMessage` gives access to.
#[verifier::external_body]
pub(crate) fn get_message<'b>(bundle: &'b FluentBundle<FluentResource>, id: &str) -> (message:
    Option<StoredMessage<'b>>)
    ensures
        stored_message_view(message) == message_under(bundle_entries(*bundle), id@),
{
    match bundle.get_message(id) {
        Some(message) => Some(
            StoredMessage {
                value: message.value(),
                attributes: message.attributes().map(|a| (a.id(), a.value())).collect(),
            },
        ),
        None => None,
    }
}

/// The value of the first attribute of a name.
pub open spec fn attribute_value(
    attributes: Seq<syntax::AttributeView>,
    name: Seq<char>,
) -> Option<syntax::PatternView>
    decreases attributes.len(),
{
    if attributes.len() == 0 {
        None
    } else if attributes[0].id == name {
        Some(attributes[0].value)
    } else {
        attribute_value(attributes.drop_first(), name)
    }
}

impl<'b> StoredMessage<'b> {
    /// The value of the first attribute of a name.
    pub fn get_attribute(&self, name: &str) -> (value: Option<&'b ast::Pattern<&'b str>>)
        ensures
            stored_value_view(value) == attribute_value(
                stored_attributes_view(self.attributes@),
                name@,
            ),
    {
        let ghost all = stored_attributes_view(self.attributes@);
        let mut i: usize = 0;
        assert(all.skip(0) =~= all);
        while i < self.attributes.len()
            invariant
                i <= self.attributes.len(),
                all == stored_attributes_view(self.attributes@),
                attribute_value(all, name@) == attribute_value(all.skip(i as int), name@),
            decreases self.attributes.len() - i,
        {
            assert(all.skip(i as int).drop_first() =~= all.skip(i + 1));
            if crate::text::same_text(self.attributes[i].0, name) {
                return Some(self.attributes[i].1);
            }
            i = i + 1;
        }
        None
    }
}

// Arguments

/// The view of an argument of a message.
pub enum ArgumentView {
    Text(Seq<char>),
    Integer(i32),
}

/// The arguments of a message, by name.
pub type Arguments = Map<Seq<char>, ArgumentView>;

/// The arguments that a collection holds.
pub uninterp spec fn arguments_of(arguments: FluentArgs) -> Arguments;

/// `FluentArgs::new`: no arguments.
#[verifier::external_body]
pub(crate) fn new_arguments() -> (arguments: FluentArgs<'static>)
    ensures
        arguments_of(arguments) == Arguments::empty(),
{
    FluentArgs::new()
}

/// `FluentArgs::set` with a text: the text takes the place of what stood under the name.
#[verifier::external_body]
pub(crate) fn set_text(arguments: &mut FluentArgs, name: String, value: String)
    ensures
        arguments_of(*final(arguments)) == arguments_of(*old(arguments)).insert(
            name@,
            ArgumentView::Text(value@),
        ),
{
    arguments.set(name, value)
}

/// `FluentArgs::set` with an integer: the integer takes the place of what stood under the name.
#[verifier::external_body]
pub(crate) fn set_integer(arguments: &mut FluentArgs, name: String, value: i32)
    ensures
        arguments_of(*final(arguments)) == arguments_of(*old(arguments)).insert(
            name@,
            ArgumentView::Integer(value),
        ),
{
    arguments.set(name, value)
}

// Formatting

/// The class of an error of the store.
#[derive(Clone, Copy, Debug, PartialEq, Eq, Structural)]
pub enum ErrorClass {
    Overriding,
    ParserError,
    ResolverError,
}

/// The view of an error of the store: its class, and what it says.
pub struct FluentErrorView {
    pub class: ErrorClass,
    pub message: Seq<char>,
}

/// The view of an error of the store.
pub uninterp spec fn fluent_error_view(error: FluentError) -> FluentErrorView;

/// The view of a list of errors of the store.
pub open spec fn fluent_errors_view(errors: Seq<FluentError>) -> Seq<FluentErrorView> {
    errors.map_values(|e: FluentError| fluent_error_view(e))
}

/// The variant of a `fluent_bundle::FluentError`.
#[verifier::external_body]
pub(crate) fn error_class(error: &FluentError) -> (class: ErrorClass)
    ensures
        class == fluent_error_view(*error).class,
{
    match error {
        FluentError::Overriding { .. } => ErrorClass::Overriding,
        FluentError::ParserError(_) => ErrorClass::ParserError,
        FluentError::ResolverError(_) => ErrorClass::ResolverError,
    }
}

/// How the text of an error of a class begins.
pub open spec fn class_front(class: ErrorClass) -> Seq<char> {
    match class {
        ErrorClass::Overriding => "Attempt to override an existing "@,
        ErrorClass::ParserError => "Parser error: "@,
        ErrorClass::ResolverError => "Resolver error: "@,
    }
}

/// The `Display` formatting of `fluent_bundle::FluentError`: a fixed beginning for each variant,
/// and what the variant carries. What follows the beginning is not spelled out: the type of a field
/// of the first variant is private to the crate.
#[verifier::external_body]
pub(crate) fn fluent_error_text(error: &FluentError) -> (text: String)
    ensures
        text@ == fluent_error_view(*error).message,
        class_front(fluent_error_view(*error).class).is_prefix_of(text@),
{
    error.to_string()
}

/// The view of a formatted pattern: the text, and what went wrong on the way.
pub struct FormattedView {
    pub text: Seq<char>,
    pub errors: Seq<FluentErrorView>,
}

/// What formatting a pattern gives, in a store of a language, with directionality marks or
/// without, and with arguments.
pub uninterp spec fn formatted(
    language: Seq<char>,
    entries: Entries,
    isolating: bool,
    pattern: syntax::PatternView,
    arguments: Arguments,
) -> FormattedView;

/// `FluentBundle::format_pattern`: formats a pattern. All errors that it reports come from the
/// resolver. The patterns on which the formatter may panic are ruled out, and so is a bundle with
/// functions, a transformation or a formatter of its own, which the result would depend on too.
#[verifier::external_body]
pub(crate) fn format_pattern(
    bundle: &FluentBundle<FluentResource>,
    pattern: &ast::Pattern<&str>,
    arguments: &FluentArgs,
) -> (formatting: (String, Vec<FluentError>))
    requires
        !bundle_settings(*bundle).customised,
        expansion::can_format(bundle_entries(*bundle), syntax::pattern_view(*pattern)),
    ensures
        formatting.0@ == formatted(
            bundle_settings(*bundle).language,
            bundle_entries(*bundle),
            bundle_settings(*bundle).isolating,
            syntax::pattern_view(*pattern),
            arguments_of(*arguments),
        ).text,
        fluent_errors_view(formatting.1@) == formatted(
            bundle_settings(*bundle).language,
            bundle_entries(*bundle),
            bundle_settings(*bundle).isolating,
            syntax::pattern_view(*pattern),
            arguments_of(*arguments),
        ).errors,
        forall|i: int|
            0 <= i < formatting.1@.len() ==> fluent_error_view(
                #[trigger] formatting.1@[i],
            ).class == ErrorClass::ResolverError,
{
    let mut errors = Vec::new();
    let text = bundle.format_pattern(pattern, Some(arguments), &mut errors).into_owned();
    (text, errors)
}

} // verus!
