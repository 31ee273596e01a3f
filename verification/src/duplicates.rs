//! Detection of messages and terms that are defined twice.

use crate::errors;
use crate::errors::ValidationError;
use crate::references;
use crate::resource;
use crate::store;
use crate::syntax;
use fluent_bundle::concurrent::FluentBundle;
use fluent_bundle::FluentResource;
use fluent_syntax::ast;
use vstd::hash_set::StringHashSet;
use vstd::prelude::*;
use vstd::string::StringExecFns;

verus! {

/// The error on a second definition. The identifier of a term stands without the hyphen.
pub open spec fn duplicate_error(kind: Seq<char>, id: Seq<char>) -> errors::ValidationErrorView {
    errors::ValidationErrorView {
        error_type: "DuplicateMessageId"@,
        message: "Duplicate "@ + kind + ": '"@ + id + "'. Later definition will override."@,
        message_id: Some(id),
        reference: None,
    }
}

/// The error on an entry, were it a second definition.
pub open spec fn entry_duplicate_error(
    entry: syntax::EntryView,
) -> errors::ValidationErrorView {
    match entry {
        syntax::EntryView::Message(message) => duplicate_error("message"@, message.id),
        syntax::EntryView::Term(term) => duplicate_error("term"@, term.id),
        syntax::EntryView::Other => arbitrary(),
    }
}

/// Whether an entry of a list has an identifier, with the hyphen of a term counted.
pub open spec fn defines(entries: Seq<syntax::EntryView>, id: Seq<char>) -> bool {
    exists|i: int| 0 <= i < entries.len() && references::entry_id(#[trigger] entries[i]) == Some(id)
}

/// Whether an identifier is taken when an entry comes up: the store holds a message under it, or
/// an earlier entry of the same file has it.
pub open spec fn is_taken(
    stored: store::Entries,
    earlier: Seq<syntax::EntryView>,
    id: Seq<char>,
) -> bool {
    store::holds_message(stored, id) || defines(earlier, id)
}

/// The errors on second definitions among the entries of a file, in order.
pub open spec fn duplicate_errors(
    stored: store::Entries,
    entries: Seq<syntax::EntryView>,
) -> Seq<errors::ValidationErrorView>
    decreases entries.len(),
{
    if entries.len() == 0 {
        Seq::empty()
    } else {
        let before = duplicate_errors(stored, entries.drop_last());
        match references::entry_id(entries.last()) {
            Some(id) => if is_taken(stored, entries.drop_last(), id) {
                before.push(entry_duplicate_error(entries.last()))
            } else {
                before
            },
            None => before,
        }
    }
}

/// Makes the error on a second definition.
fn make_duplicate_error(kind: &str, id: &str) -> (error: ValidationError)
    ensures
        error@ == duplicate_error(kind@, id@),
{
    let mut message = "Duplicate ".to_owned();
    message.append(kind);
    message.append(": '");
    message.append(id);
    message.append("'. Later definition will override.");
    ValidationError {
        error_type: "DuplicateMessageId".to_owned(),
        message,
        message_id: Some(id.to_owned()),
        reference: None,
    }
}

/// Finds the messages and terms that the bundle or the list itself defined before.
pub fn find_duplicate_entries(
    entries: &Vec<&ast::Entry<&str>>,
    bundle: &FluentBundle<FluentResource>,
) -> (errors: Vec<ValidationError>)
    ensures
        errors::validation_errors_view(errors@) == duplicate_errors(
            store::bundle_entries(*bundle),
            syntax::entries_view(entries@),
        ),
{
    let ghost stored = store::bundle_entries(*bundle);
    let ghost views = syntax::entries_view(entries@);
    let mut errors: Vec<ValidationError> = Vec::new();
    let mut seen_in_file = StringHashSet::new();
    let mut i: usize = 0;
    assert(errors::validation_errors_view(errors@) =~= duplicate_errors(stored, views.take(0)));
    while i < entries.len()
        invariant
            i <= entries.len(),
            stored == store::bundle_entries(*bundle),
            views == syntax::entries_view(entries@),
            errors::validation_errors_view(errors@) == duplicate_errors(
                stored,
                views.take(i as int),
            ),
            forall|id: Seq<char>|
                #[trigger] seen_in_file@.contains(id) == defines(views.take(i as int), id),
        decreases entries.len() - i,
    {
        let ghost found = errors::validation_errors_view(errors@);
        let ghost seen = seen_in_file@;
        let ghost earlier = views.take(i as int);
        let ghost entry = views[i as int];
        proof {
            assert(views.take(i + 1).drop_last() =~= earlier);
            assert forall|id: Seq<char>| #[trigger]
                defines(views.take(i + 1), id) == (defines(earlier, id) || references::entry_id(
                    entry,
                ) == Some(id)) by {
                lemma_defines_step(earlier, entry, id);
                assert(views.take(i + 1) =~= earlier.push(entry));
            }
        }
        let named = match entries[i] {
            ast::Entry::Message(message) => Some(
                ("message", message.id.name, message.id.name.to_owned()),
            ),
            ast::Entry::Term(term) => Some(
                ("term", term.id.name, references::term_id(term.id.name)),
            ),
            _ => None,
        };
        if let Some((kind, id, full_id)) = named {
            let exists_in_bundle = store::has_message(bundle, full_id.as_str());
            let exists_in_file = !seen_in_file.insert(full_id);
            if exists_in_bundle || exists_in_file {
                let error = make_duplicate_error(kind, id);
                errors.push(error);
                assert(errors::validation_errors_view(errors@) =~= found.push(error@));
            }
        }
        i = i + 1;
    }
    assert(views.take(i as int) =~= views);
    errors
}

/// Finds the messages and terms of a resource that the bundle or the resource itself defined
/// before.
pub fn find_duplicates(
    resource: &FluentResource,
    bundle: &FluentBundle<FluentResource>,
) -> (errors: Vec<ValidationError>)
    ensures
        errors::validation_errors_view(errors@) == duplicate_errors(
            store::bundle_entries(*bundle),
            resource::resource_entries(*resource),
        ),
{
    find_duplicate_entries(&resource::entries_of(resource), bundle)
}

/// Which identifiers a list of entries defines once another entry is added.
pub proof fn lemma_defines_step(
    entries: Seq<syntax::EntryView>,
    entry: syntax::EntryView,
    id: Seq<char>,
)
    ensures
        defines(entries.push(entry), id) == (defines(entries, id) || references::entry_id(entry)
            == Some(id)),
{
    let all = entries.push(entry);
    if defines(entries, id) {
        let i = choose|i: int|
            0 <= i < entries.len() && references::entry_id(#[trigger] entries[i]) == Some(id);
        assert(references::entry_id(all[i]) == Some(id));
    }
    if references::entry_id(entry) == Some(id) {
        assert(references::entry_id(all[entries.len() as int]) == Some(id));
    }
    if defines(all, id) {
        let i = choose|i: int|
            0 <= i < all.len() && references::entry_id(#[trigger] all[i]) == Some(id);
        if i < entries.len() {
            assert(references::entry_id(entries[i]) == Some(id));
        }
    }
}

} // verus!
