//! What loading a file finds, and of what.

use crate::duplicates;
use crate::errors;
use crate::laws;
use crate::references;
use crate::references::ReferenceView;
use crate::store;
use crate::syntax;
use vstd::prelude::*;

verus! {

/// Whether a list holds, in ascending order, exactly the indices below `n` that are chosen.
pub open spec fn picks(at: Seq<int>, n: int, chosen: spec_fn(int) -> bool) -> bool {
    &&& forall|j: int, k: int| 0 <= j < k < at.len() ==> at[j] < at[k]
    &&& forall|k: int| 0 <= k < at.len() ==> 0 <= #[trigger] at[k] < n && chosen(at[k])
    &&& forall|i: int| 0 <= i < n && #[trigger] chosen(i) ==> at.contains(i)
}

/// Nothing is picked of nothing.
pub proof fn lemma_picks_none(chosen: spec_fn(int) -> bool)
    ensures
        picks(Seq::empty(), 0, chosen),
{
}

/// What is picked once there is one more index.
pub proof fn lemma_picks_step(
    at: Seq<int>,
    n: int,
    before: spec_fn(int) -> bool,
    after: spec_fn(int) -> bool,
) -> (all: Seq<int>)
    requires
        n >= 0,
        picks(at, n, before),
        forall|i: int| 0 <= i < n ==> #[trigger] before(i) == after(i),
    ensures
        all == if after(n) {
            at.push(n)
        } else {
            at
        },
        picks(all, n + 1, after),
{
    let all = if after(n) {
        at.push(n)
    } else {
        at
    };
    assert forall|k: int| 0 <= k < all.len() implies 0 <= #[trigger] all[k] < n + 1 && after(
        all[k],
    ) by {
        if k < at.len() {
            assert(before(at[k]));
        }
    }
    assert forall|i: int| 0 <= i < n + 1 && #[trigger] after(i) implies all.contains(i) by {
        if i < n {
            assert(before(i));
            let k = choose|k: int| 0 <= k < at.len() && at[k] == i;
            assert(all[k] == i);
        } else {
            assert(all[at.len() as int] == n);
        }
    }
    all
}

/// There is one way to pick.
pub proof fn lemma_picks_unique(
    left: Seq<int>,
    right: Seq<int>,
    n: int,
    chosen: spec_fn(int) -> bool,
)
    requires
        n >= 0,
        picks(left, n, chosen),
        picks(right, n, chosen),
    ensures
        left == right,
    decreases n,
{
    if n == 0 {
        if left.len() > 0 {
            assert(0 <= left[0] < n);
        }
        if right.len() > 0 {
            assert(0 <= right[0] < n);
        }
        assert(left =~= right);
    } else {
        lemma_picks_back(left, n, chosen);
        lemma_picks_back(right, n, chosen);
        if chosen(n - 1) {
            lemma_picks_unique(left.drop_last(), right.drop_last(), n - 1, chosen);
            assert(left =~= left.drop_last().push(n - 1));
            assert(right =~= right.drop_last().push(n - 1));
        } else {
            lemma_picks_unique(left, right, n - 1, chosen);
        }
    }
}

/// What is picked with one index less.
proof fn lemma_picks_back(at: Seq<int>, n: int, chosen: spec_fn(int) -> bool)
    requires
        n > 0,
        picks(at, n, chosen),
    ensures
        chosen(n - 1) ==> at.len() > 0 && at.last() == n - 1 && picks(at.drop_last(), n - 1, chosen),
        !chosen(n - 1) ==> picks(at, n - 1, chosen),
{
    if chosen(n - 1) {
        let k = choose|k: int| 0 <= k < at.len() && at[k] == n - 1;
        if k < at.len() - 1 {
            assert(at[k] < at[at.len() - 1]);
        }
        let front = at.drop_last();
        assert forall|k: int| 0 <= k < front.len() implies 0 <= #[trigger] front[k] < n - 1
            && chosen(front[k]) by {
            assert(at[k] < at[at.len() - 1]);
        }
        assert forall|i: int| 0 <= i < n - 1 && #[trigger] chosen(i) implies front.contains(i) by {
            let k = choose|k: int| 0 <= k < at.len() && at[k] == i;
            assert(front[k] == i);
        }
    } else {
        assert forall|k: int| 0 <= k < at.len() implies 0 <= #[trigger] at[k] < n - 1 && chosen(
            at[k],
        ) by {
            assert(chosen(at[k]));
        }
    }
}

// Second definitions

/// Whether an entry goes by a name in its file: a message by its identifier, a term by its
/// identifier with a hyphen in front.
pub open spec fn goes_by(entry: syntax::EntryView, name: Seq<char>) -> bool {
    ||| entry matches syntax::EntryView::Message(message) && message.id == name
    ||| entry matches syntax::EntryView::Term(term) && seq!['-'] + term.id == name
}

/// Whether the entry at an index of a file comes second: it goes by the name of a message in the
/// store, or by the name of an earlier entry of the file.
pub open spec fn comes_second(
    stored: store::Entries,
    entries: Seq<syntax::EntryView>,
    i: int,
) -> bool {
    exists|name: Seq<char>| #[trigger]
        goes_by(entries[i], name) && {
            ||| stored.contains_key(name) && stored[name] is Message
            ||| exists|j: int| 0 <= j < i && goes_by(#[trigger] entries[j], name)
        }
}

/// A hyphen as a text.
pub proof fn lemma_hyphen()
    ensures
        "-"@ == seq!['-'],
{
    reveal_strlit("-");
    assert("-"@ =~= seq!['-']);
}

/// Each entry of a file that comes second is reported, once and in order, and nothing else is: as
/// many errors come up as there are such entries, whatever was found before. Each error names its
/// entry, a term without the hyphen.
pub proof fn law_second_definitions_are_reported(
    stored: store::Entries,
    entries: Seq<syntax::EntryView>,
) -> (at: Seq<int>)
    ensures
        picks(at, entries.len() as int, |i: int| comes_second(stored, entries, i)),
        duplicates::duplicate_errors(stored, entries).len() == at.len(),
        forall|k: int|
            0 <= k < at.len() ==> (#[trigger] duplicates::duplicate_errors(stored, entries)[k])
                == match entries[at[k]] {
                syntax::EntryView::Message(message) => errors::ValidationErrorView {
                    error_type: "DuplicateMessageId"@,
                    message: "Duplicate message: '"@ + message.id
                        + "'. Later definition will override."@,
                    message_id: Some(message.id),
                    reference: None,
                },
                syntax::EntryView::Term(term) => errors::ValidationErrorView {
                    error_type: "DuplicateMessageId"@,
                    message: "Duplicate term: '"@ + term.id
                        + "'. Later definition will override."@,
                    message_id: Some(term.id),
                    reference: None,
                },
                syntax::EntryView::Other => arbitrary(),
            },
    decreases entries.len(),
{
    let chosen = |i: int| comes_second(stored, entries, i);
    lemma_hyphen();
    if entries.len() == 0 {
        lemma_picks_none(chosen);
        Seq::empty()
    } else {
        let n = entries.len() - 1;
        let front = entries.drop_last();
        let before = law_second_definitions_are_reported(stored, front);
        let so_far = |i: int| comes_second(stored, front, i);
        assert forall|i: int| 0 <= i < n implies #[trigger] so_far(i) == chosen(i) by {
            lemma_comes_second_in_front(stored, entries, i);
        }
        let at = lemma_picks_step(before, n, so_far, chosen);
        lemma_last_comes_second(stored, entries);
        reveal_strlit("Duplicate ");
        reveal_strlit("message");
        reveal_strlit("term");
        reveal_strlit(": '");
        reveal_strlit("Duplicate message: '");
        reveal_strlit("Duplicate term: '");
        assert("Duplicate "@ + "message"@ + ": '"@ =~= "Duplicate message: '"@);
        assert("Duplicate "@ + "term"@ + ": '"@ =~= "Duplicate term: '"@);
        at
    }
}

/// Whether an entry comes second does not depend on what follows it.
proof fn lemma_comes_second_in_front(
    stored: store::Entries,
    entries: Seq<syntax::EntryView>,
    i: int,
)
    requires
        0 <= i < entries.len() - 1,
    ensures
        comes_second(stored, entries.drop_last(), i) == comes_second(stored, entries, i),
{
    let front = entries.drop_last();
    assert(front[i] == entries[i]);
    assert forall|name: Seq<char>| #[trigger] goes_by(entries[i], name) implies (exists|j: int|
        0 <= j < i && goes_by(#[trigger] entries[j], name)) == (exists|j: int|
        0 <= j < i && goes_by(#[trigger] front[j], name)) by {
        if exists|j: int| 0 <= j < i && goes_by(#[trigger] entries[j], name) {
            let j = choose|j: int| 0 <= j < i && goes_by(#[trigger] entries[j], name);
            assert(goes_by(front[j], name));
        }
        if exists|j: int| 0 <= j < i && goes_by(#[trigger] front[j], name) {
            let j = choose|j: int| 0 <= j < i && goes_by(#[trigger] front[j], name);
            assert(goes_by(entries[j], name));
        }
    }
}

/// The last entry of a file comes second exactly where its identifier is taken.
proof fn lemma_last_comes_second(stored: store::Entries, entries: Seq<syntax::EntryView>)
    requires
        entries.len() > 0,
    ensures
        comes_second(stored, entries, entries.len() - 1) == match references::entry_id(
            entries.last(),
        ) {
            Some(id) => duplicates::is_taken(stored, entries.drop_last(), id),
            None => false,
        },
{
    lemma_hyphen();
    let n = entries.len() - 1;
    let front = entries.drop_last();
    if comes_second(stored, entries, n) {
        let name = choose|name: Seq<char>| #[trigger]
            goes_by(entries[n], name) && {
                ||| stored.contains_key(name) && stored[name] is Message
                ||| exists|j: int| 0 <= j < n && goes_by(#[trigger] entries[j], name)
            };
        assert(references::entry_id(entries.last()) == Some(name));
        if exists|j: int| 0 <= j < n && goes_by(#[trigger] entries[j], name) {
            let j = choose|j: int| 0 <= j < n && goes_by(#[trigger] entries[j], name);
            assert(references::entry_id(front[j]) == Some(name));
        }
    }
    if references::entry_id(entries.last()) is Some {
        let name = references::entry_id(entries.last())->0;
        assert(goes_by(entries[n], name));
        if duplicates::is_taken(stored, front, name) && duplicates::defines(front, name) {
            let j = choose|j: int|
                0 <= j < front.len() && references::entry_id(#[trigger] front[j]) == Some(name);
            assert(goes_by(entries[j], name));
        }
    }
}

// References

/// Whether an attribute of a list, at whichever index, has a name.
pub open spec fn some_is_named(attributes: Seq<syntax::AttributeView>, name: Seq<char>) -> bool {
    exists|i: int| 0 <= i < attributes.len() && (#[trigger] attributes[i]).id == name
}

/// A store holds an attribute of a message exactly where a message stands under the identifier and
/// one of its attributes, at whichever index, has the name.
pub proof fn law_attributes_are_held_at_any_index(
    stored: store::Entries,
    id: Seq<char>,
    name: Seq<char>,
)
    ensures
        references::holds_attribute(stored, id, name) <==> stored.contains_key(id)
            && stored[id] is Message && some_is_named(stored[id]->Message_0.attributes, name),
{
    laws::translating::law_attributes_are_found_by_name(stored[id]->Message_0.attributes, name);
}

/// A reference to a message is without fault exactly where a message stands under the identifier
/// and, if an attribute is referred to, one of the attributes of that message has the name, at
/// whichever index. A fault names the entry it lies in and what is referred to.
pub proof fn law_message_references_are_checked(
    stored: store::Entries,
    owner: Seq<char>,
    id: Seq<char>,
    attribute: Option<Seq<char>>,
)
    ensures
        ({
            let error = references::reference_error(
                stored,
                owner,
                ReferenceView::Message { id, attribute },
            );
            let is_there = stored.contains_key(id) && stored[id] is Message;
            &&& error is None <==> is_there && (attribute matches Some(name) ==> some_is_named(
                stored[id]->Message_0.attributes,
                name,
            ))
            &&& !is_there ==> error == Some(
                errors::ValidationErrorView {
                    error_type: "UnknownMessage"@,
                    message: "Unknown message: "@ + id,
                    message_id: Some(owner),
                    reference: Some(id),
                },
            )
            &&& is_there && error is Some ==> error == Some(
                errors::ValidationErrorView {
                    error_type: "UnknownAttribute"@,
                    message: "Unknown attribute: "@ + id + seq!['.'] + attribute->0,
                    message_id: Some(owner),
                    reference: Some(id + seq!['.'] + attribute->0),
                },
            )
        }),
{
    reveal_strlit(".");
    assert("."@ =~= seq!['.']);
    if attribute is Some {
        law_attributes_are_held_at_any_index(stored, id, attribute->0);
    }
}

/// A reference to a term is without fault exactly where a message stands under the identifier with
/// a hyphen in front and, if an attribute is referred to, one of the attributes of that message has
/// the name. A fault names the entry it lies in and what is referred to, with the hyphen.
pub proof fn law_term_references_are_checked(
    stored: store::Entries,
    owner: Seq<char>,
    id: Seq<char>,
    attribute: Option<Seq<char>>,
)
    ensures
        ({
            let error = references::reference_error(
                stored,
                owner,
                ReferenceView::Term { id, attribute },
            );
            let name = seq!['-'] + id;
            let is_there = stored.contains_key(name) && stored[name] is Message;
            &&& error is None <==> is_there && (attribute matches Some(wanted) ==> some_is_named(
                stored[name]->Message_0.attributes,
                wanted,
            ))
            &&& !is_there ==> error == Some(
                errors::ValidationErrorView {
                    error_type: "UnknownTerm"@,
                    message: "Unknown term: "@ + name,
                    message_id: Some(owner),
                    reference: Some(name),
                },
            )
            &&& is_there && error is Some ==> error == Some(
                errors::ValidationErrorView {
                    error_type: "UnknownAttribute"@,
                    message: "Unknown attribute on term: "@ + name + seq!['.'] + attribute->0,
                    message_id: Some(owner),
                    reference: Some(name + seq!['.'] + attribute->0),
                },
            )
        }),
{
    lemma_hyphen();
    reveal_strlit(".");
    reveal_strlit("Unknown term: -");
    reveal_strlit("Unknown term: ");
    reveal_strlit("Unknown attribute on term: -");
    reveal_strlit("Unknown attribute on term: ");
    assert("."@ =~= seq!['.']);
    let name = seq!['-'] + id;
    assert("Unknown term: -"@ + id =~= "Unknown term: "@ + name);
    if attribute is Some {
        law_attributes_are_held_at_any_index(stored, name, attribute->0);
        assert("Unknown attribute on term: -"@ + id + "."@ + attribute->0
            =~= "Unknown attribute on term: "@ + name + seq!['.'] + attribute->0);
    }
}

/// Each faulty one of a list of references is reported, once and in order, and nothing else is.
pub proof fn law_faulty_references_are_reported(
    stored: store::Entries,
    owner: Seq<char>,
    list: Seq<ReferenceView>,
) -> (at: Seq<int>)
    ensures
        picks(
            at,
            list.len() as int,
            |i: int| references::reference_error(stored, owner, list[i]) is Some,
        ),
        references::reference_errors(stored, owner, list).len() == at.len(),
        forall|k: int|
            0 <= k < at.len() ==> Some(
                #[trigger] references::reference_errors(stored, owner, list)[k],
            ) == references::reference_error(stored, owner, list[at[k]]),
    decreases list.len(),
{
    let chosen = |i: int| references::reference_error(stored, owner, list[i]) is Some;
    if list.len() == 0 {
        lemma_picks_none(chosen);
        Seq::empty()
    } else {
        let front = list.drop_last();
        let before = law_faulty_references_are_reported(stored, owner, front);
        lemma_picks_step(
            before,
            list.len() - 1,
            |i: int| references::reference_error(stored, owner, front[i]) is Some,
            chosen,
        )
    }
}

/// The faults of a file are those of its parts: those of a first part of its entries, followed by
/// those of the rest.
pub proof fn law_faults_of_parts(
    stored: store::Entries,
    left: Seq<syntax::EntryView>,
    right: Seq<syntax::EntryView>,
)
    ensures
        references::entries_errors(stored, left + right) == references::entries_errors(stored, left)
            + references::entries_errors(stored, right),
    decreases right.len(),
{
    let all = left + right;
    if right.len() == 0 {
        assert(all =~= left);
        assert(references::entries_errors(stored, right) =~= Seq::empty());
        assert(references::entries_errors(stored, left) + references::entries_errors(stored, right)
            =~= references::entries_errors(stored, left));
    } else {
        law_faults_of_parts(stored, left, right.drop_last());
        assert(all.drop_last() =~= left + right.drop_last());
        assert(references::entries_errors(stored, all) =~= references::entries_errors(stored, left)
            + references::entries_errors(stored, right));
    }
}

/// The faults of a single entry are those of its references, and lie in that entry: a message under
/// its identifier, a term under its identifier with a hyphen in front.
pub proof fn law_faults_of_an_entry(
    stored: store::Entries,
    entry: syntax::EntryView,
    owner: Seq<char>,
)
    requires
        goes_by(entry, owner),
    ensures
        references::entries_errors(stored, seq![entry]) == references::reference_errors(
            stored,
            owner,
            references::entry_references(entry),
        ),
{
    lemma_hyphen();
    let one = seq![entry];
    assert(one.drop_last() =~= Seq::empty());
    assert(references::entries_errors(stored, one.drop_last()) =~= Seq::empty());
    assert(references::entries_errors(stored, one) =~= references::entry_errors(stored, entry));
}

/// What is neither a message nor a term has no faults, and neither has a file without entries.
pub proof fn law_other_entries_have_no_faults(stored: store::Entries)
    ensures
        references::entries_errors(stored, seq![syntax::EntryView::Other]).len() == 0,
        references::entries_errors(stored, Seq::empty()).len() == 0,
{
    let one = seq![syntax::EntryView::Other];
    assert(one.drop_last() =~= Seq::empty());
    assert(references::entries_errors(stored, one.drop_last()) =~= Seq::empty());
    assert(references::entries_errors(stored, one) =~= Seq::empty());
}

/// Every faulty reference of a file is reported, whatever else is found in the file.
pub proof fn law_every_fault_is_reported(
    stored: store::Entries,
    entries: Seq<syntax::EntryView>,
    i: int,
    owner: Seq<char>,
    k: int,
)
    requires
        0 <= i < entries.len(),
        goes_by(entries[i], owner),
        0 <= k < references::entry_references(entries[i]).len(),
    ensures
        references::reference_error(
            stored,
            owner,
            references::entry_references(entries[i])[k],
        ) matches Some(error) ==> references::entries_errors(stored, entries).contains(error),
{
    let list = references::entry_references(entries[i]);
    if references::reference_error(stored, owner, list[k]) is Some {
        let error = references::reference_error(stored, owner, list[k])->0;
        let at = law_faulty_references_are_reported(stored, owner, list);
        let chosen = |i: int| references::reference_error(stored, owner, list[i]) is Some;
        assert(chosen(k));
        let m = choose|m: int| 0 <= m < at.len() && at[m] == k;
        let single = references::reference_errors(stored, owner, list);
        assert(single[m] == error);
        law_faults_of_an_entry(stored, entries[i], owner);
        let head = entries.take(i);
        let tail = entries.skip(i + 1);
        law_faults_of_parts(stored, head, seq![entries[i]]);
        law_faults_of_parts(stored, head + seq![entries[i]], tail);
        assert(head + seq![entries[i]] + tail =~= entries);
        let before = references::entries_errors(stored, head);
        let all = references::entries_errors(stored, entries);
        assert(all[before.len() + m] == error);
    }
}

} // verus!
